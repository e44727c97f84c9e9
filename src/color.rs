//! Colour names and codes the user may give for bars: a name such as
//! `dark_red`, an `r,g,b` triple, or a 256-colour palette code.

use crate::cell::{all_digits, digits_value};
use crate::column::same_text;
use vstd::prelude::*;
use vstd::string::*;

verus! {

/// The sixteen named terminal colours.
#[derive(Clone, Copy, Debug, PartialEq, Eq, Structural)]
pub enum NamedColor {
    Black,
    DarkGrey,
    Red,
    DarkRed,
    Green,
    DarkGreen,
    Yellow,
    DarkYellow,
    Blue,
    DarkBlue,
    Magenta,
    DarkMagenta,
    Cyan,
    DarkCyan,
    White,
    Grey,
}

/// A colour as the user gave it.
#[derive(Clone, Copy, Debug, PartialEq, Eq, Structural)]
pub enum ColorSpec {
    Named(NamedColor),
    Rgb(u8, u8, u8),
    Ansi(u8),
}

/// `c` in lower case where it is an ASCII capital, else `c` itself.
pub open spec fn ascii_lower(c: char) -> char {
    if 'A' <= c && c <= 'Z' {
        (((c as u32) + 32) as u8) as char
    } else {
        c
    }
}

/// `s` with its ASCII capitals in lower case.
pub open spec fn ascii_lower_text(s: Seq<char>) -> Seq<char> {
    s.map_values(|c: char| ascii_lower(c))
}

/// The lower-case letter for an ASCII capital `c`, as text; `None` for
/// any other character.
fn lower_letter(c: char) -> (r: Option<&'static str>)
    ensures
        r matches Some(t) ==> 'A' <= c && c <= 'Z' && t@ == seq![ascii_lower(c)],
        r is None ==> !('A' <= c && c <= 'Z'),
{
    if c == 'A' {
        proof { reveal_strlit("a"); }
        Some("a")
    } else if c == 'B' {
        proof { reveal_strlit("b"); }
        Some("b")
    } else if c == 'C' {
        proof { reveal_strlit("c"); }
        Some("c")
    } else if c == 'D' {
        proof { reveal_strlit("d"); }
        Some("d")
    } else if c == 'E' {
        proof { reveal_strlit("e"); }
        Some("e")
    } else if c == 'F' {
        proof { reveal_strlit("f"); }
        Some("f")
    } else if c == 'G' {
        proof { reveal_strlit("g"); }
        Some("g")
    } else if c == 'H' {
        proof { reveal_strlit("h"); }
        Some("h")
    } else if c == 'I' {
        proof { reveal_strlit("i"); }
        Some("i")
    } else if c == 'J' {
        proof { reveal_strlit("j"); }
        Some("j")
    } else if c == 'K' {
        proof { reveal_strlit("k"); }
        Some("k")
    } else if c == 'L' {
        proof { reveal_strlit("l"); }
        Some("l")
    } else if c == 'M' {
        proof { reveal_strlit("m"); }
        Some("m")
    } else if c == 'N' {
        proof { reveal_strlit("n"); }
        Some("n")
    } else if c == 'O' {
        proof { reveal_strlit("o"); }
        Some("o")
    } else if c == 'P' {
        proof { reveal_strlit("p"); }
        Some("p")
    } else if c == 'Q' {
        proof { reveal_strlit("q"); }
        Some("q")
    } else if c == 'R' {
        proof { reveal_strlit("r"); }
        Some("r")
    } else if c == 'S' {
        proof { reveal_strlit("s"); }
        Some("s")
    } else if c == 'T' {
        proof { reveal_strlit("t"); }
        Some("t")
    } else if c == 'U' {
        proof { reveal_strlit("u"); }
        Some("u")
    } else if c == 'V' {
        proof { reveal_strlit("v"); }
        Some("v")
    } else if c == 'W' {
        proof { reveal_strlit("w"); }
        Some("w")
    } else if c == 'X' {
        proof { reveal_strlit("x"); }
        Some("x")
    } else if c == 'Y' {
        proof { reveal_strlit("y"); }
        Some("y")
    } else if c == 'Z' {
        proof { reveal_strlit("z"); }
        Some("z")
    } else {
        None
    }
}

/// `s` with its ASCII capitals in lower case.
fn to_ascii_lower(s: &str) -> (r: String)
    ensures
        r@ == ascii_lower_text(s@),
{
    let n = s.unicode_len();
    let mut out = String::new();
    let mut i: usize = 0;
    while i < n
        invariant
            n == s@.len(),
            i <= n,
            out@ == ascii_lower_text(s@.take(i as int)),
        decreases n - i,
    {
        let c = s.get_char(i);
        match lower_letter(c) {
            Some(t) => out.append(t),
            None => out.append(s.substring_char(i, i + 1)),
        }
        assert(s@.take(i + 1) =~= s@.take(i as int).push(c));
        i = i + 1;
        assert(out@ =~= ascii_lower_text(s@.take(i as int)));
    }
    assert(s@.take(n as int) =~= s@);
    out
}

/// Whether `g` is one to three decimal digits.
pub open spec fn digit_group(g: Seq<char>) -> bool {
    1 <= g.len() <= 3 && all_digits(g)
}

/// Whether the commas at `i` and `j` split `l` into three digit groups.
pub open spec fn rgb_split(l: Seq<char>, i: int, j: int) -> bool {
    &&& 0 <= i < j < l.len()
    &&& l[i] == ','
    &&& l[j] == ','
    &&& digit_group(l.subrange(0, i))
    &&& digit_group(l.subrange(i + 1, j))
    &&& digit_group(l.subrange(j + 1, l.len() as int))
}

/// The message for a component of an `r,g,b` triple over 255.
pub open spec fn rgb_range_message(component: char) -> Seq<char> {
    "Invalid number for '"@ + seq![component] + "' value in rgb pattern. Valid numbers are 0-255"@
}

/// The message for a palette code over 255.
pub open spec fn code_range_message() -> Seq<char> {
    "Invalid number for 'code' value in ansi pattern. Valid numbers are 0-255"@
}

/// The message for a name that names no colour.
pub open spec fn name_message(l: Seq<char>) -> Seq<char> {
    "Invalid color name: '"@ + l + "'"@
}

/// What the triple split at `i` and `j` gives: the colour, or the message
/// for the first component over 255.
pub open spec fn rgb_result(l: Seq<char>, i: int, j: int) -> Result<ColorSpec, Seq<char>> {
    let r = digits_value(l.subrange(0, i));
    let g = digits_value(l.subrange(i + 1, j));
    let b = digits_value(l.subrange(j + 1, l.len() as int));
    if r > 255 {
        Err(rgb_range_message('r'))
    } else if g > 255 {
        Err(rgb_range_message('g'))
    } else if b > 255 {
        Err(rgb_range_message('b'))
    } else {
        Ok(ColorSpec::Rgb(r as u8, g as u8, b as u8))
    }
}

/// The colour that a lower-case name stands for.
pub open spec fn named_color(l: Seq<char>) -> Option<NamedColor> {
    if l == "black"@ {
        Some(NamedColor::Black)
    } else if l == "darkgrey"@ || l == "dark_grey"@ {
        Some(NamedColor::DarkGrey)
    } else if l == "red"@ {
        Some(NamedColor::Red)
    } else if l == "darkred"@ || l == "dark_red"@ {
        Some(NamedColor::DarkRed)
    } else if l == "green"@ {
        Some(NamedColor::Green)
    } else if l == "darkgreen"@ || l == "dark_green"@ {
        Some(NamedColor::DarkGreen)
    } else if l == "yellow"@ {
        Some(NamedColor::Yellow)
    } else if l == "darkyellow"@ || l == "dark_yellow"@ {
        Some(NamedColor::DarkYellow)
    } else if l == "blue"@ {
        Some(NamedColor::Blue)
    } else if l == "darkblue"@ || l == "dark_blue"@ {
        Some(NamedColor::DarkBlue)
    } else if l == "magenta"@ {
        Some(NamedColor::Magenta)
    } else if l == "darkmagenta"@ || l == "dark_magenta"@ {
        Some(NamedColor::DarkMagenta)
    } else if l == "cyan"@ {
        Some(NamedColor::Cyan)
    } else if l == "darkcyan"@ || l == "dark_cyan"@ {
        Some(NamedColor::DarkCyan)
    } else if l == "white"@ {
        Some(NamedColor::White)
    } else if l == "grey"@ {
        Some(NamedColor::Grey)
    } else {
        None
    }
}

/// What a lower-case colour text gives, where it is no `r,g,b` triple: a
/// palette code, a named colour, or a message.
pub open spec fn single_result(l: Seq<char>) -> Result<ColorSpec, Seq<char>> {
    if digit_group(l) {
        if digits_value(l) > 255 {
            Err(code_range_message())
        } else {
            Ok(ColorSpec::Ansi(digits_value(l) as u8))
        }
    } else {
        match named_color(l) {
            Some(n) => Ok(ColorSpec::Named(n)),
            None => Err(name_message(l)),
        }
    }
}

/// Whether `r` is what the text `s` gives, once in lower case and read as
/// a triple, a palette code or a name; the error carries its message.
pub open spec fn parses_to(s: Seq<char>, r: Result<ColorSpec, String>) -> bool {
    let l = ascii_lower_text(s);
    let expected = if exists|i: int, j: int| rgb_split(l, i, j) {
        let (i, j) = choose|i: int, j: int| rgb_split(l, i, j);
        rgb_result(l, i, j)
    } else {
        single_result(l)
    };
    match (r, expected) {
        (Ok(c), Ok(d)) => c == d,
        (Err(m), Err(n)) => m@ == n,
        _ => false,
    }
}

/// The colour that a lower-case name stands for.
fn color_named(l: &str) -> (r: Option<NamedColor>)
    ensures
        r == named_color(l@),
{
    proof {
        reveal_strlit("black");
        reveal_strlit("darkgrey");
        reveal_strlit("dark_grey");
        reveal_strlit("red");
        reveal_strlit("darkred");
        reveal_strlit("dark_red");
        reveal_strlit("green");
        reveal_strlit("darkgreen");
        reveal_strlit("dark_green");
        reveal_strlit("yellow");
        reveal_strlit("darkyellow");
        reveal_strlit("dark_yellow");
        reveal_strlit("blue");
        reveal_strlit("darkblue");
        reveal_strlit("dark_blue");
        reveal_strlit("magenta");
        reveal_strlit("darkmagenta");
        reveal_strlit("dark_magenta");
        reveal_strlit("cyan");
        reveal_strlit("darkcyan");
        reveal_strlit("dark_cyan");
        reveal_strlit("white");
        reveal_strlit("grey");
    }
    if same_text(l, "black") {
        Some(NamedColor::Black)
    } else if same_text(l, "darkgrey") || same_text(l, "dark_grey") {
        Some(NamedColor::DarkGrey)
    } else if same_text(l, "red") {
        Some(NamedColor::Red)
    } else if same_text(l, "darkred") || same_text(l, "dark_red") {
        Some(NamedColor::DarkRed)
    } else if same_text(l, "green") {
        Some(NamedColor::Green)
    } else if same_text(l, "darkgreen") || same_text(l, "dark_green") {
        Some(NamedColor::DarkGreen)
    } else if same_text(l, "yellow") {
        Some(NamedColor::Yellow)
    } else if same_text(l, "darkyellow") || same_text(l, "dark_yellow") {
        Some(NamedColor::DarkYellow)
    } else if same_text(l, "blue") {
        Some(NamedColor::Blue)
    } else if same_text(l, "darkblue") || same_text(l, "dark_blue") {
        Some(NamedColor::DarkBlue)
    } else if same_text(l, "magenta") {
        Some(NamedColor::Magenta)
    } else if same_text(l, "darkmagenta") || same_text(l, "dark_magenta") {
        Some(NamedColor::DarkMagenta)
    } else if same_text(l, "cyan") {
        Some(NamedColor::Cyan)
    } else if same_text(l, "darkcyan") || same_text(l, "dark_cyan") {
        Some(NamedColor::DarkCyan)
    } else if same_text(l, "white") {
        Some(NamedColor::White)
    } else if same_text(l, "grey") {
        Some(NamedColor::Grey)
    } else {
        None
    }
}

/// The value of the digit group `l[from..to]`, if it is one.
fn group_value(l: &str, from: usize, to: usize) -> (r: Option<u16>)
    requires
        from <= to <= l@.len(),
    ensures
        r is Some <==> digit_group(l@.subrange(from as int, to as int)),
        r matches Some(v) ==> v as nat == digits_value(l@.subrange(from as int, to as int)),
{
    if to - from < 1 || to - from > 3 {
        return None;
    }
    let mut v: u16 = 0;
    let mut k: usize = from;
    while k < to
        invariant
            from <= k <= to <= l@.len(),
            to - from <= 3,
            all_digits(l@.subrange(from as int, k as int)),
            v as nat == digits_value(l@.subrange(from as int, k as int)),
            k - from == 0 ==> v == 0,
            k - from == 1 ==> v < 10,
            k - from == 2 ==> v < 100,
        decreases to - k,
    {
        let c = l.get_char(k);
        if c < '0' || c > '9' {
            assert(!all_digits(l@.subrange(from as int, to as int))) by {
                assert(l@.subrange(from as int, to as int)[k - from] == c);
            }
            return None;
        }
        proof {
            assert(l@.subrange(from as int, k + 1).drop_last() =~= l@.subrange(from as int, k as int));
        }
        v = v * 10 + (c as u32 - '0' as u32) as u16;
        k = k + 1;
    }
    Some(v)
}

/// The position of the first comma of `l` at or after `from`, or the
/// length of `l` where there is none.
fn comma_from(l: &str, from: usize) -> (r: usize)
    requires
        from <= l@.len(),
    ensures
        from <= r <= l@.len(),
        r < l@.len() ==> l@[r as int] == ',',
        forall|k: int| from <= k < r ==> l@[k] != ',',
{
    let n = l.unicode_len();
    let mut k: usize = from;
    while k < n && l.get_char(k) != ','
        invariant
            n == l@.len(),
            from <= k <= n,
            forall|m: int| from <= m < k ==> l@[m] != ',',
        decreases n - k,
    {
        k = k + 1;
    }
    k
}

/// The message for a component of an `r,g,b` triple over 255.
fn rgb_message(component: &str) -> (r: String)
    requires
        component@.len() == 1,
    ensures
        r@ == rgb_range_message(component@[0]),
{
    proof {
        reveal_strlit("Invalid number for '");
        reveal_strlit("' value in rgb pattern. Valid numbers are 0-255");
    }
    let mut m = String::from_str("Invalid number for '");
    m.append(component);
    m.append("' value in rgb pattern. Valid numbers are 0-255");
    assert(m@ =~= rgb_range_message(component@[0]));
    m
}

/// A digit is no comma.
proof fn lemma_digits_hold_no_comma(g: Seq<char>, k: int)
    requires
        all_digits(g),
        0 <= k < g.len(),
    ensures
        g[k] != ',',
{
    assert('0' <= g[k]);
}

/// The commas that split a triple are the first two commas of the text.
proof fn lemma_rgb_split_commas(l: Seq<char>, i: int, j: int)
    requires
        rgb_split(l, i, j),
    ensures
        forall|k: int| 0 <= k < i ==> l[k] != ',',
        forall|k: int| i < k < j ==> l[k] != ',',
        forall|k: int| j < k < l.len() ==> l[k] != ',',
{
    assert forall|k: int| 0 <= k < i implies l[k] != ',' by {
        lemma_digits_hold_no_comma(l.subrange(0, i), k);
    }
    assert forall|k: int| i < k < j implies l[k] != ',' by {
        lemma_digits_hold_no_comma(l.subrange(i + 1, j), k - i - 1);
    }
    assert forall|k: int| j < k < l.len() implies l[k] != ',' by {
        lemma_digits_hold_no_comma(l.subrange(j + 1, l.len() as int), k - j - 1);
    }
}

/// Reads a bar colour: an `r,g,b` triple of numbers up to 255, a palette
/// code up to 255, or a colour name such as `green`, `darkred` or
/// `dark_red`, in any case of ASCII letters. Anything else is an error whose
/// message says what was wrong.
pub fn get_color(color: &str) -> (r: Result<ColorSpec, String>)
    ensures
        parses_to(color@, r),
{
    let lowered = to_ascii_lower(color);
    let l = lowered.as_str();
    let ghost lv = l@;
    assert(lv == ascii_lower_text(color@));
    let n = l.unicode_len();
    let i = comma_from(l, 0);
    if i < n {
        let j = comma_from(l, i + 1);
        if j < n {
            let rv = group_value(l, 0, i);
            let gv = group_value(l, i + 1, j);
            let bv = group_value(l, j + 1, n);
            if rv.is_some() && gv.is_some() && bv.is_some() {
                let r = rv.unwrap();
                let g = gv.unwrap();
                let b = bv.unwrap();
                proof {
                    assert(rgb_split(lv, i as int, j as int));
                    let (a, c) = choose|a: int, c: int| rgb_split(lv, a, c);
                    lemma_rgb_split_commas(lv, a, c);
                    assert(a == i as int);
                    assert(c == j as int);
                    reveal_strlit("r");
                    reveal_strlit("g");
                    reveal_strlit("b");
                }
                if r > 255 {
                    return Err(rgb_message("r"));
                } else if g > 255 {
                    return Err(rgb_message("g"));
                } else if b > 255 {
                    return Err(rgb_message("b"));
                }
                return Ok(ColorSpec::Rgb(r as u8, g as u8, b as u8));
            }
        }
    }
    proof {
        if exists|a: int, c: int| rgb_split(lv, a, c) {
            let (a, c) = choose|a: int, c: int| rgb_split(lv, a, c);
            lemma_rgb_split_commas(lv, a, c);
            assert(i == a);
        }
    }
    match group_value(l, 0, n) {
        Some(v) => {
            assert(lv.subrange(0, n as int) =~= lv);
            if v > 255 {
                proof {
                    reveal_strlit("Invalid number for 'code' value in ansi pattern. Valid numbers are 0-255");
                }
                Err(String::from_str("Invalid number for 'code' value in ansi pattern. Valid numbers are 0-255"))
            } else {
                Ok(ColorSpec::Ansi(v as u8))
            }
        },
        None => {
            assert(lv.subrange(0, n as int) =~= lv);
            match color_named(l) {
                Some(c) => Ok(ColorSpec::Named(c)),
                None => {
                    proof {
                        reveal_strlit("Invalid color name: '");
                        reveal_strlit("'");
                    }
                    let mut m = String::from_str("Invalid color name: '");
                    m.append(l);
                    m.append("'");
                    assert(m@ =~= name_message(lv));
                    Err(m)
                },
            }
        },
    }
}

} // verus!
