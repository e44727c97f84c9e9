//! Terminal display width of text that may carry colour escape sequences.

use unicode_width::UnicodeWidthStr;
use vstd::prelude::*;

verus! {

/// The text that remains once every ANSI escape sequence is removed.
pub uninterp spec fn stripped_of(s: Seq<char>) -> Seq<char>;

/// The number of terminal columns that text free of escape sequences takes,
/// by the Unicode East Asian Width tables.
pub uninterp spec fn columns_of(s: Seq<char>) -> nat;

/// The display width of `s`: the columns of what is left after its escape
/// sequences are removed.
pub open spec fn display_width_of(s: Seq<char>) -> nat {
    columns_of(stripped_of(s))
}

/// Relies on `console::strip_ansi_codes`: the input with its escape
/// sequences removed; empty text stays empty.
#[verifier::external_body]
fn strip_ansi(s: &str) -> (r: String)
    ensures
        r@ == stripped_of(s@),
        s@.len() == 0 ==> r@.len() == 0,
{
    console::strip_ansi_codes(s).into_owned()
}

/// Relies on `unicode_width::UnicodeWidthStr::width`: the columns that the
/// text occupies; empty text has width zero.
#[verifier::external_body]
fn text_columns(s: &str) -> (r: usize)
    ensures
        r as nat == columns_of(s@),
        s@.len() == 0 ==> r == 0,
{
    s.width()
}

/// The number of terminal columns that `s` occupies once its colour and
/// style escape sequences are left out.
pub fn display_width(s: &str) -> (r: usize)
    ensures
        r as nat == display_width_of(s@),
        s@.len() == 0 ==> r == 0,
{
    let plain = strip_ansi(s);
    text_columns(plain.as_str())
}

} // verus!
