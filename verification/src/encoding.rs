//! The binary layout of an instruction: how the three fields of an
//! instruction word are packed, and how a word is laid out in bytes.

use byteorder::{LittleEndian, ReadBytesExt, WriteBytesExt};
use vstd::prelude::*;

verus! {

/// The four bytes of `word`, least significant first.
pub open spec fn le_bytes(word: u32) -> Seq<u8> {
    seq![
        (word & 0xff) as u8,
        ((word >> 8) & 0xff) as u8,
        ((word >> 16) & 0xff) as u8,
        ((word >> 24) & 0xff) as u8,
    ]
}

/// The word whose little-endian bytes are the first four of `bytes`.
pub open spec fn le_word(bytes: Seq<u8>) -> u32
    recommends
        bytes.len() >= 4,
{
    (bytes[0] as u32) | ((bytes[1] as u32) << 8) | ((bytes[2] as u32) << 16) | ((bytes[3] as u32)
        << 24)
}

/// The instruction word with `code` in its high half, `first` in the next
/// byte and `second` in the low byte.
pub open spec fn pack(code: u16, first: u8, second: u8) -> u32 {
    ((code as u32) << 16) | ((first as u32) << 8) | (second as u32)
}

/// The high half of an instruction word.
pub open spec fn code_field(word: u32) -> u16 {
    (word >> 16) as u16
}

/// The second lowest byte of an instruction word.
pub open spec fn first_field(word: u32) -> u8 {
    ((word >> 8) & 0xff) as u8
}

/// The lowest byte of an instruction word.
pub open spec fn second_field(word: u32) -> u8 {
    (word & 0xff) as u8
}

/// Reading back the bytes of a word gives the word.
pub proof fn lemma_le_round_trip(word: u32)
    ensures
        le_bytes(word).len() == 4,
        le_word(le_bytes(word)) == word,
{
    let b0 = (word & 0xff) as u8;
    let b1 = ((word >> 8) & 0xff) as u8;
    let b2 = ((word >> 16) & 0xff) as u8;
    let b3 = ((word >> 24) & 0xff) as u8;
    assert((b0 as u32) | ((b1 as u32) << 8) | ((b2 as u32) << 16) | ((b3 as u32) << 24) == word)
        by (bit_vector)
        requires
            b0 == (word & 0xff) as u8,
            b1 == ((word >> 8) & 0xff) as u8,
            b2 == ((word >> 16) & 0xff) as u8,
            b3 == ((word >> 24) & 0xff) as u8,
    ;
}

/// The fields of a packed word are the fields it was packed from.
pub proof fn lemma_pack_fields(code: u16, first: u8, second: u8)
    ensures
        code_field(pack(code, first, second)) == code,
        first_field(pack(code, first, second)) == first,
        second_field(pack(code, first, second)) == second,
{
    let word = pack(code, first, second);
    assert((word >> 16) as u16 == code && ((word >> 8) & 0xff) as u8 == first && (word & 0xff) as u8
        == second) by (bit_vector)
        requires
            word == ((code as u32) << 16) | ((first as u32) << 8) | (second as u32),
    ;
}

/// Packs the three fields of an instruction into its word.
pub fn pack_word(code: u16, first: u8, second: u8) -> (word: u32)
    ensures
        word == pack(code, first, second),
{
    ((code as u32) << 16) | ((first as u32) << 8) | (second as u32)
}

/// Splits an instruction word into its three fields.
pub fn split_word(word: u32) -> (fields: (u16, u8, u8))
    ensures
        fields.0 == code_field(word),
        fields.1 == first_field(word),
        fields.2 == second_field(word),
{
    ((word >> 16) as u16, ((word >> 8) & 0xff) as u8, (word & 0xff) as u8)
}

/// Appends a word to `buffer` through `byteorder`'s
/// `WriteBytesExt::write_u32` with `LittleEndian`. Taken on trust: the four
/// bytes of the word are added behind what the buffer held, least
/// significant byte first, and writing to a vector does not fail.
#[verifier::external_body]
pub(crate) fn write_word(buffer: &mut Vec<u8>, word: u32)
    ensures
        final(buffer)@ == old(buffer)@ + le_bytes(word),
{
    buffer.write_u32::<LittleEndian>(word).unwrap();
}

/// Reads a word from the front of `bytes` through `byteorder`'s
/// `ReadBytesExt::read_u32` with `LittleEndian`. Taken on trust: with four
/// bytes at hand the read succeeds and gives the word that has them as its
/// little-endian bytes.
#[verifier::external_body]
pub(crate) fn read_word(bytes: &[u8]) -> (word: u32)
    requires
        bytes@.len() >= 4,
    ensures
        word == le_word(bytes@),
{
    let mut reader = bytes;
    reader.read_u32::<LittleEndian>().unwrap()
}

} // verus!
