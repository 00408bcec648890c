//! Rendering of numbers and quoted identifiers inside messages.
use vstd::prelude::*;

use crate::text::string_from_chars;

verus! {

pub open spec fn digit_char(d: int) -> char {
    (('0' as int) + d) as char
}

/// The decimal digits of `n`, most significant first, without leading zeros.
pub open spec fn decimal_digits(n: nat) -> Seq<char>
    decreases n,
{
    if n < 10 {
        seq![digit_char(n as int)]
    } else {
        decimal_digits(n / 10).push(digit_char((n % 10) as int))
    }
}

fn digit(d: usize) -> (c: char)
    requires
        d < 10,
    ensures
        c == digit_char(d as int),
{
    match d {
        0 => '0',
        1 => '1',
        2 => '2',
        3 => '3',
        4 => '4',
        5 => '5',
        6 => '6',
        7 => '7',
        8 => '8',
        _ => '9',
    }
}

/// The decimal text of a number (`usize` formatted with `{}`).
pub fn decimal_text(value: usize) -> (s: String)
    ensures
        s@ == decimal_digits(value as nat),
{
    let mut digits: Vec<char> = Vec::new();
    let mut cur: usize = value;
    while cur >= 10
        invariant
            decimal_digits(value as nat) == decimal_digits(cur as nat) + digits@,
        decreases cur,
    {
        let c = digit(cur % 10);
        let ghost before = digits@;
        digits.insert(0, c);
        assert(digits@ =~= seq![c] + before);
        assert(decimal_digits(cur as nat) + before =~= decimal_digits((cur / 10) as nat)
            + digits@);
        cur = cur / 10;
    }
    let c = digit(cur);
    let ghost before = digits@;
    digits.insert(0, c);
    assert(digits@ =~= decimal_digits(cur as nat) + before);
    string_from_chars(&digits)
}

/// The text that `{:?}` gives for a string: the string in double quotes, with quotes,
/// backslashes, control characters and other non-printable characters escaped as
/// Rust's `Debug` for `str` escapes them.
pub uninterp spec fn quoted(s: Seq<char>) -> Seq<char>;

/// Formats an identifier with `{:?}` (`<str as Debug>::fmt`), as the messages quote it.
/// The escaping follows std's Unicode tables of printable and grapheme-extending
/// characters; what it gives is named by `quoted`, not written out.
#[verifier::external_body]
pub(crate) fn quote(s: &str) -> (q: String)
    ensures
        q@ == quoted(s@),
{
    format!("{:?}", s)
}

} // verus!
