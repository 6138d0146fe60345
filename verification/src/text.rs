//! Source text as a sequence of characters: lines, lower case, tokens and
//! decimal literals.

use vstd::prelude::*;
use vstd::slice::{slice_subrange, slice_to_vec};

verus! {

/// The lower-case form that the standard library gives a text.
pub uninterp spec fn lowercase_of(text: Seq<char>) -> Seq<char>;

/// Whether the standard library counts a character as white space.
pub uninterp spec fn white_space(c: char) -> bool;

/// The form in which the standard library shows a text for debugging: in
/// double quotes, with what cannot be shown as it is escaped.
pub uninterp spec fn quoted(text: Seq<char>) -> Seq<char>;

/// Shows `text` as `Debug` does, through `format!` with `{:?}`. Taken on
/// trust: the result depends on the characters of `text` alone.
#[verifier::external_body]
pub(crate) fn quote(text: &str) -> (shown: String)
    ensures
        shown@ == quoted(text@),
{
    format!("{:?}", text)
}

/// Lowers the case of `text` through `str::to_lowercase`. Taken on trust:
/// the result depends on the characters of `text` alone.
#[verifier::external_body]
pub(crate) fn lowercase(text: &Vec<char>) -> (lowered: Vec<char>)
    ensures
        lowered@ == lowercase_of(text@),
{
    text.iter().collect::<String>().to_lowercase().chars().collect()
}

/// Asks `char::is_whitespace`. Taken on trust: the answer depends on the
/// character alone.
#[verifier::external_body]
pub(crate) fn is_white_space(c: char) -> (yes: bool)
    ensures
        yes == white_space(c),
{
    c.is_whitespace()
}

/// Collects characters into a `String` through `String::from_iter`. Taken on
/// trust: the string holds the characters given, in their order.
#[verifier::external_body]
pub(crate) fn string_of(chars: &Vec<char>) -> (text: String)
    ensures
        text@ == chars@,
{
    String::from_iter(chars.iter())
}

/// The characters of `text`.
pub fn chars_of(text: &str) -> (chars: Vec<char>)
    ensures
        chars@ == text@,
{
    let mut chars: Vec<char> = Vec::new();
    for c in iter: text.chars()
        invariant
            chars.len() == iter.index(),
            forall|i: int| 0 <= i < chars.len() ==> chars@[i] == iter.seq()[i],
            iter.seq() == text@,
    {
        chars.push(c);
    }
    assert(chars@ =~= text@);
    chars
}

/// Whether `token` is spelled as `word`.
pub fn spells(token: &Vec<char>, word: &str) -> (yes: bool)
    ensures
        yes == (token@ == word@),
{
    let letters = chars_of(word);
    if letters.len() != token.len() {
        return false;
    }
    let mut i: usize = 0;
    while i < token.len()
        invariant
            i <= token.len(),
            letters.len() == token.len(),
            letters@ == word@,
            forall|j: int| 0 <= j < i ==> token@[j] == letters@[j],
        decreases token.len() - i,
    {
        if token[i] != letters[i] {
            return false;
        }
        i += 1;
    }
    assert(token@ =~= word@);
    true
}

/// Whether two texts hold the same characters.
pub fn same_text(left: &Vec<char>, right: &Vec<char>) -> (yes: bool)
    ensures
        yes == (left@ == right@),
{
    if left.len() != right.len() {
        return false;
    }
    let mut i: usize = 0;
    while i < left.len()
        invariant
            i <= left.len(),
            left.len() == right.len(),
            forall|j: int| 0 <= j < i ==> left@[j] == right@[j],
        decreases left.len() - i,
    {
        if left[i] != right[i] {
            return false;
        }
        i += 1;
    }
    assert(left@ =~= right@);
    true
}

/// Whether `wanted` occurs in `text`.
pub fn holds(text: &Vec<char>, wanted: char) -> (yes: bool)
    ensures
        yes == text@.contains(wanted),
{
    let mut i: usize = 0;
    while i < text.len()
        invariant
            i <= text.len(),
            forall|j: int| 0 <= j < i ==> text@[j] != wanted,
        decreases text.len() - i,
    {
        if text[i] == wanted {
            return true;
        }
        i += 1;
    }
    false
}

/// `text` with every occurrence of `unwanted` taken out.
pub open spec fn without(text: Seq<char>, unwanted: char) -> Seq<char>
    decreases text.len(),
{
    if text.len() == 0 {
        text
    } else if text.last() == unwanted {
        without(text.drop_last(), unwanted)
    } else {
        without(text.drop_last(), unwanted).push(text.last())
    }
}

/// Takes every occurrence of `unwanted` out of `text`.
pub fn strip(text: &Vec<char>, unwanted: char) -> (kept: Vec<char>)
    ensures
        kept@ == without(text@, unwanted),
{
    let mut kept: Vec<char> = Vec::new();
    let mut i: usize = 0;
    while i < text.len()
        invariant
            i <= text.len(),
            kept@ == without(text@.take(i as int), unwanted),
        decreases text.len() - i,
    {
        proof {
            assert(text@.take(i + 1).drop_last() =~= text@.take(i as int));
        }
        if text[i] != unwanted {
            kept.push(text[i]);
        }
        i += 1;
    }
    assert(text@.take(text.len() as int) =~= text@);
    kept
}

/// The number of characters at the front of `text` of which `stop` does not
/// hold: the place of the first of which it does, or the length of `text`.
pub open spec fn run_length(text: Seq<char>, stop: spec_fn(char) -> bool) -> int
    decreases text.len(),
{
    if text.len() == 0 || stop(text[0]) {
        0
    } else {
        1 + run_length(text.drop_first(), stop)
    }
}

/// `run_length` is the one place `k` before which `stop` never holds and at
/// which it does, or the text ends.
pub proof fn lemma_run_length(text: Seq<char>, stop: spec_fn(char) -> bool, k: int)
    requires
        0 <= k <= text.len(),
        forall|j: int| 0 <= j < k ==> !stop(#[trigger] text[j]),
        k == text.len() || stop(text[k]),
    ensures
        run_length(text, stop) == k,
    decreases k,
{
    if k > 0 {
        let rest = text.drop_first();
        assert forall|j: int| 0 <= j < k - 1 implies !stop(#[trigger] rest[j]) by {
            assert(rest[j] == text[j + 1]);
        }
        lemma_run_length(rest, stop, k - 1);
    }
}

/// Before `run_length` characters `stop` never holds, and at that place it
/// does, or the text ends.
pub proof fn lemma_run_length_stops(text: Seq<char>, stop: spec_fn(char) -> bool)
    ensures
        0 <= run_length(text, stop) <= text.len(),
        forall|j: int| 0 <= j < run_length(text, stop) ==> !stop(#[trigger] text[j]),
        run_length(text, stop) == text.len() || stop(text[run_length(text, stop)]),
    decreases text.len(),
{
    if text.len() > 0 && !stop(text[0]) {
        let rest = text.drop_first();
        lemma_run_length_stops(rest, stop);
        assert forall|j: int| 0 <= j < run_length(text, stop) implies !stop(#[trigger] text[j]) by {
            if j > 0 {
                assert(text[j] == rest[j - 1]);
            }
        }
        if run_length(text, stop) < text.len() {
            assert(text[run_length(text, stop)] == rest[run_length(rest, stop)]);
        }
    }
}

/// What ends a line.
pub open spec fn is_line_feed() -> spec_fn(char) -> bool {
    |c: char| c == '\n'
}

/// What ends a token.
pub open spec fn is_gap() -> spec_fn(char) -> bool {
    |c: char| white_space(c)
}

/// `line` without the carriage return at its end, if it has one.
pub open spec fn without_return(line: Seq<char>) -> Seq<char> {
    if line.len() > 0 && line.last() == '\r' {
        line.drop_last()
    } else {
        line
    }
}

/// The lines of `text`. A line ends at a line feed, or at a carriage return
/// and a line feed, neither of which belongs to it; what stands behind the
/// last line feed is a line too, unless it is empty.
pub open spec fn lines_of(text: Seq<char>) -> Seq<Seq<char>>
    decreases text.len(),
{
    let end = run_length(text, is_line_feed());
    if text.len() == 0 {
        Seq::empty()
    } else if 0 <= end < text.len() {
        seq![without_return(text.take(end))] + lines_of(text.skip(end + 1))
    } else {
        seq![text]
    }
}

/// The texts that a vector of texts holds.
pub open spec fn texts(parts: Seq<Vec<char>>) -> Seq<Seq<char>> {
    parts.map_values(|part: Vec<char>| part@)
}

/// The characters of `text` from `from` up to `to`.
pub fn part(text: &Vec<char>, from: usize, to: usize) -> (piece: Vec<char>)
    requires
        from <= to <= text.len(),
    ensures
        piece@ == text@.subrange(from as int, to as int),
{
    slice_to_vec(slice_subrange(text.as_slice(), from, to))
}

/// The place of the first character at or behind `from` that is a line
/// feed, or the length of `text`.
pub fn line_end(text: &Vec<char>, from: usize) -> (end: usize)
    requires
        from <= text.len(),
    ensures
        from <= end <= text.len(),
        end - from == run_length(text@.skip(from as int), is_line_feed()),
{
    let mut end = from;
    while end < text.len() && text[end] != '\n'
        invariant
            from <= end <= text.len(),
            forall|j: int| from <= j < end ==> text@[j] != '\n',
        decreases text.len() - end,
    {
        end += 1;
    }
    proof {
        let rest = text@.skip(from as int);
        assert forall|j: int| 0 <= j < end - from implies !is_line_feed()(#[trigger] rest[j]) by {
            assert(rest[j] == text@[from + j]);
        }
        lemma_run_length(rest, is_line_feed(), end - from);
    }
    end
}

/// Splits `text` into its lines.
pub fn split_lines(text: &Vec<char>) -> (lines: Vec<Vec<char>>)
    ensures
        texts(lines@) == lines_of(text@),
{
    let mut lines: Vec<Vec<char>> = Vec::new();
    let mut start: usize = 0;
    assert(texts(lines@) =~= Seq::empty());
    assert(text@.skip(0) =~= text@);
    while start < text.len()
        invariant
            start <= text.len(),
            lines_of(text@) == texts(lines@) + lines_of(text@.skip(start as int)),
        decreases text.len() - start,
    {
        let ghost rest = text@.skip(start as int);
        let ghost before = texts(lines@);
        let end = line_end(text, start);
        if end < text.len() {
            let stop = if end > start && text[end - 1] == '\r' {
                end - 1
            } else {
                end
            };
            let line = part(text, start, stop);
            proof {
                assert(rest.take(end - start) =~= text@.subrange(start as int, end as int));
                assert(line@ =~= without_return(rest.take(end - start)));
                assert(rest.skip(end - start + 1) =~= text@.skip(end + 1));
            }
            lines.push(line);
            start = end + 1;
            proof {
                assert(texts(lines@) =~= before.push(line@));
                assert(before + (seq![line@] + lines_of(text@.skip(start as int))) =~= before.push(
                    line@,
                ) + lines_of(text@.skip(start as int)));
            }
        } else {
            let line = part(text, start, end);
            proof {
                assert(line@ =~= rest);
            }
            lines.push(line);
            start = end;
            proof {
                assert(texts(lines@) =~= before.push(line@));
                assert(text@.skip(start as int) =~= Seq::<char>::empty());
                assert(before + seq![rest] =~= before.push(line@) + Seq::<Seq<char>>::empty());
            }
        }
    }
    proof {
        assert(text@.skip(start as int) =~= Seq::<char>::empty());
        assert(texts(lines@) + Seq::<Seq<char>>::empty() =~= texts(lines@));
    }
    lines
}

/// The tokens of `line`: its longest runs of characters that are not white
/// space, from left to right.
pub open spec fn tokens_of(line: Seq<char>) -> Seq<Seq<char>>
    decreases line.len(),
{
    let run = run_length(line, is_gap());
    if line.len() == 0 {
        Seq::empty()
    } else if white_space(line[0]) {
        tokens_of(line.drop_first())
    } else if 0 < run <= line.len() {
        seq![line.take(run)] + tokens_of(line.skip(run))
    } else {
        Seq::empty()
    }
}

/// No token is empty, and none holds white space.
pub proof fn lemma_tokens_are_runs(line: Seq<char>, i: int)
    requires
        0 <= i < tokens_of(line).len(),
    ensures
        tokens_of(line)[i].len() > 0,
        forall|j: int| 0 <= j < tokens_of(line)[i].len() ==> !white_space(tokens_of(line)[i][j]),
    decreases line.len(),
{
    let run = run_length(line, is_gap());
    lemma_run_length_stops(line, is_gap());
    if line.len() > 0 {
        if white_space(line[0]) {
            lemma_tokens_are_runs(line.drop_first(), i);
        } else if i > 0 {
            lemma_tokens_are_runs(line.skip(run), i - 1);
        } else {
            assert forall|j: int| 0 <= j < run implies !white_space(line.take(run)[j]) by {
                assert(!is_gap()(line[j]));
            }
        }
    }
}

/// No line holds a line feed.
pub proof fn lemma_lines_hold_no_line_feed(text: Seq<char>, i: int)
    requires
        0 <= i < lines_of(text).len(),
    ensures
        !lines_of(text)[i].contains('\n'),
    decreases text.len(),
{
    let end = run_length(text, is_line_feed());
    lemma_run_length_stops(text, is_line_feed());
    if text.len() > 0 {
        if end < text.len() {
            if i > 0 {
                lemma_lines_hold_no_line_feed(text.skip(end + 1), i - 1);
            } else {
                let line = without_return(text.take(end));
                assert forall|j: int| 0 <= j < line.len() implies line[j] != '\n' by {
                    assert(!is_line_feed()(text[j]));
                }
            }
        } else {
            assert forall|j: int| 0 <= j < text.len() implies text[j] != '\n' by {
                assert(!is_line_feed()(text[j]));
            }
        }
    }
}

/// The place of the first character at or behind `from` that is white
/// space, or the length of `line`.
pub fn token_end(line: &Vec<char>, from: usize) -> (end: usize)
    requires
        from <= line.len(),
    ensures
        from <= end <= line.len(),
        end - from == run_length(line@.skip(from as int), is_gap()),
        from < line.len() && !white_space(line@[from as int]) ==> from < end,
{
    let mut end = from;
    while end < line.len() && !is_white_space(line[end])
        invariant
            from <= end <= line.len(),
            forall|j: int| from <= j < end ==> !white_space(line@[j]),
        decreases line.len() - end,
    {
        end += 1;
    }
    proof {
        let rest = line@.skip(from as int);
        assert forall|j: int| 0 <= j < end - from implies !is_gap()(#[trigger] rest[j]) by {
            assert(rest[j] == line@[from + j]);
        }
        lemma_run_length(rest, is_gap(), end - from);
    }
    end
}

/// Splits `line` into its tokens.
pub fn split_tokens(line: &Vec<char>) -> (tokens: Vec<Vec<char>>)
    ensures
        texts(tokens@) == tokens_of(line@),
{
    let mut tokens: Vec<Vec<char>> = Vec::new();
    let mut at: usize = 0;
    assert(texts(tokens@) =~= Seq::empty());
    assert(line@.skip(0) =~= line@);
    while at < line.len()
        invariant
            at <= line.len(),
            tokens_of(line@) == texts(tokens@) + tokens_of(line@.skip(at as int)),
        decreases line.len() - at,
    {
        let ghost rest = line@.skip(at as int);
        let ghost before = texts(tokens@);
        if is_white_space(line[at]) {
            proof {
                assert(rest.drop_first() =~= line@.skip(at + 1));
            }
            at += 1;
        } else {
            let end = token_end(line, at);
            let token = part(line, at, end);
            proof {
                assert(rest[0] == line@[at as int]);
                assert(rest.take(end - at) =~= token@);
                assert(rest.skip(end - at) =~= line@.skip(end as int));
            }
            tokens.push(token);
            at = end;
            proof {
                assert(texts(tokens@) =~= before.push(token@));
                assert(before + (seq![token@] + tokens_of(line@.skip(at as int))) =~= before.push(
                    token@,
                ) + tokens_of(line@.skip(at as int)));
            }
        }
    }
    proof {
        assert(line@.skip(at as int) =~= Seq::<char>::empty());
        assert(texts(tokens@) + Seq::<Seq<char>>::empty() =~= texts(tokens@));
    }
    tokens
}

/// Whether `c` is one of the ten decimal digits.
pub open spec fn is_digit(c: char) -> bool {
    '0' <= c <= '9'
}

/// The number that a decimal digit stands for.
pub open spec fn digit_value(c: char) -> int {
    c as int - '0' as int
}

/// The number that a run of decimal digits stands for.
pub open spec fn decimal(digits: Seq<char>) -> int
    decreases digits.len(),
{
    if digits.len() == 0 {
        0
    } else {
        decimal(digits.drop_last()) * 10 + digit_value(digits.last())
    }
}

/// The digits of a literal: the token without the plus sign that may stand
/// at its front.
pub open spec fn digits_of(token: Seq<char>) -> Seq<char> {
    if token.len() > 0 && token[0] == '+' {
        token.drop_first()
    } else {
        token
    }
}

/// The number that a token stands for, where it is one or more decimal
/// digits, with or without a plus sign in front, and the number is not
/// above `limit`. Any other token stands for no number.
pub open spec fn number_of(token: Seq<char>, limit: int) -> Option<int> {
    let digits = digits_of(token);
    if digits.len() > 0 && (forall|i: int| 0 <= i < digits.len() ==> is_digit(#[trigger] digits[i]))
        && decimal(digits) <= limit {
        Some(decimal(digits))
    } else {
        None
    }
}

/// The value of a literal: the number that the token stands for, where it
/// fits in 32 bits.
pub open spec fn literal_of(token: Seq<char>) -> Option<u32> {
    match number_of(token, u32::MAX as int) {
        Some(value) => Some(value as u32),
        None => None,
    }
}

/// The count that a token stands for: the number, where it fits in a count.
pub open spec fn count_of(token: Seq<char>) -> Option<usize> {
    match number_of(token, usize::MAX as int) {
        Some(value) => Some(value as usize),
        None => None,
    }
}

/// A run of digits stands for no less than any run at its front.
pub proof fn lemma_decimal_grows(digits: Seq<char>, n: int)
    requires
        0 <= n <= digits.len(),
        forall|i: int| 0 <= i < digits.len() ==> is_digit(#[trigger] digits[i]),
    ensures
        0 <= decimal(digits.take(n)) <= decimal(digits),
    decreases digits.len() - n,
{
    if n == digits.len() {
        assert(digits.take(n) =~= digits);
        lemma_decimal_is_natural(digits);
    } else {
        let longer = digits.take(n + 1);
        assert(longer.drop_last() =~= digits.take(n));
        assert(is_digit(digits[n]));
        assert(longer.last() == digits[n]);
        lemma_decimal_is_natural(digits.take(n));
        lemma_decimal_grows(digits, n + 1);
    }
}

/// A run of digits stands for a natural number.
pub proof fn lemma_decimal_is_natural(digits: Seq<char>)
    requires
        forall|i: int| 0 <= i < digits.len() ==> is_digit(#[trigger] digits[i]),
    ensures
        0 <= decimal(digits),
    decreases digits.len(),
{
    if digits.len() > 0 {
        assert(is_digit(digits[digits.len() - 1]));
        lemma_decimal_is_natural(digits.drop_last());
    }
}

/// Reads a number that is not above `limit`.
pub fn parse_number(token: &Vec<char>, limit: u64) -> (value: Option<u64>)
    ensures
        value is Some <==> number_of(token@, limit as int) is Some,
        value matches Some(number) ==> number_of(token@, limit as int) == Some(number as int),
{
    let from: usize = if token.len() > 0 && token[0] == '+' {
        1
    } else {
        0
    };
    let ghost digits = digits_of(token@);
    assert(digits =~= token@.skip(from as int));
    if from == token.len() {
        return None;
    }
    let mut total: u64 = 0;
    let mut at: usize = from;
    while at < token.len()
        invariant
            from <= at <= token.len(),
            digits == token@.skip(from as int),
            digits == digits_of(token@),
            forall|i: int| 0 <= i < at - from ==> is_digit(#[trigger] digits[i]),
            total == decimal(digits.take(at - from)),
            total <= limit,
        decreases token.len() - at,
    {
        let c = token[at];
        assert(digits[at - from] == c);
        if c < '0' || c > '9' {
            return None;
        }
        let digit: u128 = (c as u32 - '0' as u32) as u128;
        let next: u128 = (total as u128) * 10 + digit;
        proof {
            assert(digits.take(at - from + 1).drop_last() =~= digits.take(at - from));
            assert(digits.take(at - from + 1).last() == c);
            assert(next == decimal(digits.take(at - from + 1)));
        }
        if next > limit as u128 {
            proof {
                if forall|i: int| 0 <= i < digits.len() ==> is_digit(#[trigger] digits[i]) {
                    lemma_decimal_grows(digits, at - from + 1);
                }
            }
            return None;
        }
        total = next as u64;
        at += 1;
    }
    assert(digits.take(at - from) =~= digits);
    Some(total)
}

/// Reads a literal.
pub fn parse_literal(token: &Vec<char>) -> (value: Option<u32>)
    ensures
        value == literal_of(token@),
{
    match parse_number(token, 0xffff_ffff) {
        Some(number) => Some(number as u32),
        None => None,
    }
}

/// Reads a count.
pub fn parse_count(token: &Vec<char>) -> (value: Option<usize>)
    ensures
        value == count_of(token@),
{
    match parse_number(token, usize::MAX as u64) {
        Some(number) => Some(number as usize),
        None => None,
    }
}

} // verus!
