//! Text handling: what the standard library does to the text of a log, and
//! how a size is written.

use vstd::prelude::*;

verus! {

/// `text` without the white space at its two ends, as `str::trim` leaves it.
pub uninterp spec fn trimmed(text: Seq<char>) -> Seq<char>;

/// The lines of `text`, without their line ends, as `str::lines` yields them.
pub uninterp spec fn lines_of(text: Seq<char>) -> Seq<Seq<char>>;

/// The maximal runs of `line` without white space, as `str::split_whitespace`
/// yields them.
pub uninterp spec fn words_of(line: Seq<char>) -> Seq<Seq<char>>;

/// The views of a sequence of texts.
pub open spec fn texts(items: Seq<&str>) -> Seq<Seq<char>> {
    Seq::new(items.len(), |i: int| items[i]@)
}

pub open spec fn is_digit(c: char) -> bool {
    '0' <= c <= '9'
}

/// The number that a sequence of decimal digits writes.
pub open spec fn digits_value(digits: Seq<char>) -> nat
    decreases digits.len(),
{
    if digits.len() == 0 {
        0
    } else {
        digits_value(digits.drop_last()) * 10 + (digits.last() as nat - '0' as nat) as nat
    }
}

/// The size that `token` writes: one or more decimal digits, after an
/// optional `+`, whose value fits 64 bits. Anything else writes no size.
pub open spec fn decimal_u64(token: Seq<char>) -> Option<u64> {
    let digits = if token.len() > 0 && token[0] == '+' {
        token.subrange(1, token.len() as int)
    } else {
        token
    };
    if digits.len() > 0 && (forall|i: int| 0 <= i < digits.len() ==> is_digit(#[trigger] digits[i]))
        && digits_value(digits) <= u64::MAX {
        Some(digits_value(digits) as u64)
    } else {
        None
    }
}

/// Calls `str::trim`. Trusted: the result is the text that `trimmed` names.
#[verifier::external_body]
pub(crate) fn trim_text<'a>(text: &'a str) -> (r: &'a str)
    ensures
        r@ == trimmed(text@),
{
    text.trim()
}

/// Calls `str::lines` and collects what it yields. Trusted: the result holds
/// the lines that `lines_of` names, in their order.
#[verifier::external_body]
pub(crate) fn split_lines<'a>(text: &'a str) -> (r: Vec<&'a str>)
    ensures
        texts(r@) == lines_of(text@),
{
    text.lines().collect()
}

/// Calls `str::split_whitespace` and collects what it yields. Trusted: the
/// result holds the words that `words_of` names, in their order.
#[verifier::external_body]
pub(crate) fn split_words<'a>(line: &'a str) -> (r: Vec<&'a str>)
    ensures
        texts(r@) == words_of(line@),
{
    line.split_whitespace().collect()
}

/// Calls `str::parse::<u64>`. Trusted: as the standard library documents for
/// the unsigned integers, it accepts an optional `+` followed by one or more
/// decimal digits whose value fits the type, and nothing else.
#[verifier::external_body]
pub(crate) fn parse_size(token: &str) -> (r: Option<u64>)
    ensures
        r == decimal_u64(token@),
{
    token.parse::<u64>().ok()
}

/// Whether two texts are the same sequence of characters.
pub(crate) fn same_text(a: &str, b: &str) -> (r: bool)
    ensures
        r == (a@ == b@),
{
    a.to_owned() == b.to_owned()
}

} // verus!
