//! Arithmetic on register values. Sums, differences and products are taken
//! modulo 2^32; a shift by 32 places or more moves every bit out and leaves
//! zero.

use vstd::prelude::*;

verus! {

/// The 32-bit value that `value` has modulo 2^32.
pub open spec fn wrap(value: int) -> u32 {
    (value % 0x1_0000_0000) as u32
}

/// `value` moved `amount` places towards the high end, the bits that leave
/// the word being dropped.
pub open spec fn shifted_left(value: u32, amount: u32) -> u32 {
    if amount >= 32 {
        0
    } else {
        value << amount
    }
}

/// `value` moved `amount` places towards the low end.
pub open spec fn shifted_right(value: u32, amount: u32) -> u32 {
    if amount >= 32 {
        0
    } else {
        value >> amount
    }
}

/// The program counter `words` words behind `pc`.
pub open spec fn advanced(pc: u32, words: int) -> u32 {
    (pc + words) as u32
}

pub fn wrapping_sum(left: u32, right: u32) -> (sum: u32)
    ensures
        sum == wrap(left + right),
{
    left.wrapping_add(right)
}

pub fn wrapping_difference(left: u32, right: u32) -> (difference: u32)
    ensures
        difference == wrap(left - right),
{
    left.wrapping_sub(right)
}

pub fn wrapping_product(left: u32, right: u32) -> (product: u32)
    ensures
        product == wrap(left * right),
{
    left.wrapping_mul(right)
}

pub fn shift_left(value: u32, amount: u32) -> (shifted: u32)
    ensures
        shifted == shifted_left(value, amount),
{
    if amount >= 32 {
        0
    } else {
        value << amount
    }
}

pub fn shift_right(value: u32, amount: u32) -> (shifted: u32)
    ensures
        shifted == shifted_right(value, amount),
{
    if amount >= 32 {
        0
    } else {
        value >> amount
    }
}

} // verus!
