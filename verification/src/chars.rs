//! Character classification and position bookkeeping.
//!
//! Every decision the scanner makes is driven by a handful of questions
//! about a single character: is it whitespace, is it a digit of the active
//! radix, is it a delimiter, and which delimiter family does it belong to.
//! This module answers those questions with spec functions and proves the
//! executable classifiers against them. It also defines `line_of` and
//! `col_of`, the functions that say what line and column the cursor is on
//! after a given number of characters have been consumed.

use vstd::prelude::*;

verus! {

/// Whitespace classification used throughout the scanner.
///
/// Lists the code points with the Unicode `White_Space` property, which is
/// what `char::is_whitespace` tests.
pub open spec fn is_space_char(c: char) -> bool {
    let u = c as u32;
    u == 0x09 || u == 0x0A || u == 0x0B || u == 0x0C || u == 0x0D || u == 0x20 || u == 0x85
        || u == 0xA0 || u == 0x1680 || (0x2000 <= u && u <= 0x200A) || u == 0x2028 || u == 0x2029
        || u == 0x202F || u == 0x205F || u == 0x3000
}

/// Executable whitespace test.
pub fn is_space(c: char) -> (r: bool)
    ensures
        r == is_space_char(c),
{
    let u = c as u32;
    u == 0x09 || u == 0x0A || u == 0x0B || u == 0x0C || u == 0x0D || u == 0x20 || u == 0x85
        || u == 0xA0 || u == 0x1680 || (0x2000 <= u && u <= 0x200A) || u == 0x2028 || u == 0x2029
        || u == 0x202F || u == 0x205F || u == 0x3000
}

/// The numeric value of `c` seen as a digit: `0`-`9` for the decimal
/// digits, 10-35 for letters, and `u32::MAX` for every other character so
/// that it is a digit of no radix.
pub open spec fn digit_value(c: char) -> u32 {
    let u = c as u32;
    if 0x30 <= u && u <= 0x39 {
        (u - 0x30) as u32
    } else if 0x61 <= u && u <= 0x7A {
        (u - 0x61 + 10) as u32
    } else if 0x41 <= u && u <= 0x5A {
        (u - 0x41 + 10) as u32
    } else {
        u32::MAX
    }
}

/// Whether `c` is a digit of `radix`, with letters of either case counting
/// from ten upward, exactly as `char::is_digit` classifies them.
pub open spec fn is_digit_of(c: char, radix: u32) -> bool {
    digit_value(c) < radix
}

/// Executable digit test for the active radix.
pub fn digit_of(c: char, radix: u32) -> (r: bool)
    ensures
        r == is_digit_of(c, radix),
{
    let u = c as u32;
    if 0x30 <= u && u <= 0x39 {
        u - 0x30 < radix
    } else if 0x61 <= u && u <= 0x7A {
        u - 0x61 + 10 < radix
    } else if 0x41 <= u && u <= 0x5A {
        u - 0x41 + 10 < radix
    } else {
        false
    }
}

/// The six opening delimiter symbols: function, parameter list, object,
/// vector, array, and join/group.
pub open spec fn is_opener(c: char) -> bool {
    c == '|' || c == ',' || c == '{' || c == '<' || c == '[' || c == '('
}

/// The six closing delimiter symbols, paired with the openers above.
pub open spec fn is_closer(c: char) -> bool {
    c == '~' || c == '-' || c == '}' || c == '>' || c == ']' || c == ')'
}

/// A delimiter symbol of either role.
pub open spec fn is_delimiter(c: char) -> bool {
    is_opener(c) || is_closer(c)
}

/// The fixed bidirectional pairing table: each opener maps to its closer
/// and each closer to its required opener.
pub open spec fn spec_partner(c: char) -> char
    recommends
        is_delimiter(c),
{
    if c == '|' {
        '~'
    } else if c == '~' {
        '|'
    } else if c == ',' {
        '-'
    } else if c == '-' {
        ','
    } else if c == '{' {
        '}'
    } else if c == '}' {
        '{'
    } else if c == '<' {
        '>'
    } else if c == '>' {
        '<'
    } else if c == '[' {
        ']'
    } else if c == ']' {
        '['
    } else if c == '(' {
        ')'
    } else {
        '('
    }
}

/// The family a delimiter symbol belongs to, as an index below six:
/// function, parameter list, object, vector, array, join/group, in that
/// order.
pub open spec fn family_of(c: char) -> int
    recommends
        is_delimiter(c),
{
    if c == '|' || c == '~' {
        0
    } else if c == ',' || c == '-' {
        1
    } else if c == '{' || c == '}' {
        2
    } else if c == '<' || c == '>' {
        3
    } else if c == '[' || c == ']' {
        4
    } else {
        5
    }
}

/// The line the cursor is on once the first `n` characters of `s` have
/// been consumed: one more than the number of line feeds consumed.
pub open spec fn line_of(s: Seq<char>, n: int) -> int
    decreases n,
{
    if n <= 0 {
        1
    } else {
        line_of(s, n - 1) + if s[n - 1] == '\n' {
            1int
        } else {
            0int
        }
    }
}

/// The column the cursor is on once the first `n` characters of `s` have
/// been consumed. A consumed character moves the column one to the right;
/// a consumed line feed resets it to the first column of the next line.
pub open spec fn col_of(s: Seq<char>, n: int) -> int
    decreases n,
{
    if n <= 0 {
        1
    } else if s[n - 1] == '\n' {
        1
    } else {
        col_of(s, n - 1) + 1
    }
}

/// Lines and columns start at one and grow by at most one per consumed
/// character, so both stay within one more than the cursor offset.
pub proof fn lemma_position_bounds(s: Seq<char>, n: int)
    requires
        0 <= n,
    ensures
        1 <= line_of(s, n) <= n + 1,
        1 <= col_of(s, n) <= n + 1,
    decreases n,
{
    if n > 0 {
        lemma_position_bounds(s, n - 1);
    }
}

} // verus!
