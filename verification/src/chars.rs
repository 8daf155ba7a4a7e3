//! Character classes of the abbreviation grammar, and prefix scanning.
//!
//! Every position in this crate counts characters, not bytes. The scanning
//! functions return how many consecutive characters starting at a position
//! satisfy a class; returning a count (a `nat`) rather than an end position
//! keeps every derived position at or beyond its start by construction.

use vstd::prelude::*;

verus! {

/// Characters allowed in a tag name: ASCII letters, digits and `-`.
pub open spec fn is_tag_char(c: char) -> bool {
    let u = c as u32;
    (48 <= u && u <= 57) || (65 <= u && u <= 90) || (97 <= u && u <= 122) || u == 45
}

/// Characters allowed in an identifier (id, class, attribute name):
/// tag characters plus `_`.
pub open spec fn is_ident_char(c: char) -> bool {
    is_tag_char(c) || c as u32 == 95
}

/// Characters allowed in an unquoted attribute value: identifier
/// characters plus space and `.`.
pub open spec fn is_value_char(c: char) -> bool {
    is_ident_char(c) || c as u32 == 32 || c as u32 == 46
}

/// ASCII whitespace: space, tab, line feed, carriage return.
pub open spec fn is_space_char(c: char) -> bool {
    let u = c as u32;
    u == 32 || u == 9 || u == 10 || u == 13
}

/// ASCII decimal digits.
pub open spec fn is_digit_char(c: char) -> bool {
    let u = c as u32;
    48 <= u && u <= 57
}

/// Numeric value of a decimal digit.
pub open spec fn digit_val(c: char) -> nat {
    (c as u32 - 48) as nat
}

pub fn check_tag_char(c: char) -> (r: bool)
    ensures
        r == is_tag_char(c),
{
    let u = c as u32;
    (48 <= u && u <= 57) || (65 <= u && u <= 90) || (97 <= u && u <= 122) || u == 45
}

pub fn check_ident_char(c: char) -> (r: bool)
    ensures
        r == is_ident_char(c),
{
    check_tag_char(c) || c as u32 == 95
}

pub fn check_value_char(c: char) -> (r: bool)
    ensures
        r == is_value_char(c),
{
    check_ident_char(c) || c as u32 == 32 || c as u32 == 46
}

pub fn check_space_char(c: char) -> (r: bool)
    ensures
        r == is_space_char(c),
{
    let u = c as u32;
    u == 32 || u == 9 || u == 10 || u == 13
}

pub fn check_digit_char(c: char) -> (r: bool)
    ensures
        r == is_digit_char(c),
{
    let u = c as u32;
    48 <= u && u <= 57
}

/// Distance from `pos` to the end of `s`, clamped at zero so that it can
/// serve as a termination measure for any integer position.
pub open spec fn rem(s: Seq<char>, pos: int) -> int {
    if pos <= s.len() {
        s.len() - pos
    } else {
        0
    }
}

/// How many consecutive characters of `s` starting at `pos` satisfy `p`.
pub open spec fn scan_count(s: Seq<char>, pos: int, p: spec_fn(char) -> bool) -> nat
    decreases rem(s, pos),
{
    if 0 <= pos && pos < s.len() && p(s[pos]) {
        (1 + scan_count(s, pos + 1, p)) as nat
    } else {
        0
    }
}

/// How many consecutive characters of `s` starting at `pos` differ from `stop`.
pub open spec fn until_count(s: Seq<char>, pos: int, stop: char) -> nat
    decreases rem(s, pos),
{
    if 0 <= pos && pos < s.len() && s[pos] != stop {
        (1 + until_count(s, pos + 1, stop)) as nat
    } else {
        0
    }
}

pub open spec fn tag_count(s: Seq<char>, pos: int) -> nat {
    scan_count(s, pos, |c: char| is_tag_char(c))
}

pub open spec fn ident_count(s: Seq<char>, pos: int) -> nat {
    scan_count(s, pos, |c: char| is_ident_char(c))
}

pub open spec fn value_count(s: Seq<char>, pos: int) -> nat {
    scan_count(s, pos, |c: char| is_value_char(c))
}

pub open spec fn ws_count(s: Seq<char>, pos: int) -> nat {
    scan_count(s, pos, |c: char| is_space_char(c))
}

pub open spec fn digit_count(s: Seq<char>, pos: int) -> nat {
    scan_count(s, pos, |c: char| is_digit_char(c))
}

/// The index of the last space in `s` between `lo` and `hi`, or `lo - 1`
/// when there is none.
pub open spec fn last_space(s: Seq<char>, lo: int, hi: int) -> int
    decreases hi - lo,
{
    if hi <= lo {
        lo - 1
    } else if s[hi - 1] == ' ' {
        hi - 1
    } else {
        last_space(s, lo, hi - 1)
    }
}

/// The first index of the run of spaces that ends at `j`, walking left
/// from `j` but not before `lo`.
pub open spec fn space_run_start(s: Seq<char>, lo: int, j: int) -> int
    decreases j - lo,
{
    if j <= lo {
        lo
    } else if s[j - 1] == ' ' {
        space_run_start(s, lo, j - 1)
    } else {
        j
    }
}

} // verus!
