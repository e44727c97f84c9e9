//! Cells and rows: the typed, colourable units a table is made of.

use crossterm::style::Stylize;
use vstd::prelude::*;
use vstd::string::*;

verus! {

/// crossterm's `style::Color`: a terminal colour, carried through to the
/// text it styles.
#[verifier::external_type_specification]
#[verifier::external_body]
pub struct ExColor(crossterm::style::Color);

/// The text of `s` with its surrounding whitespace removed.
pub uninterp spec fn trimmed_of(s: Seq<char>) -> Seq<char>;

/// Whether every character of `s` is a decimal digit.
pub open spec fn all_digits(s: Seq<char>) -> bool {
    forall|i: int| 0 <= i < s.len() ==> '0' <= #[trigger] s[i] && s[i] <= '9'
}

/// The number that the decimal digits `s` spell.
pub open spec fn digits_value(s: Seq<char>) -> nat
    decreases s.len(),
{
    if s.len() == 0 {
        0
    } else {
        digits_value(s.drop_last()) * 10 + ((s.last() as u32) - ('0' as u32)) as nat
    }
}

/// Whether `c` is a visible ASCII character, which is never whitespace.
pub open spec fn ascii_graphic(c: char) -> bool {
    '!' <= c && c <= '~'
}

/// Relies on `str::trim`: the text without leading and trailing whitespace,
/// which depends on the characters alone; text that starts and ends with a
/// visible ASCII character, or is empty, comes back as it is.
#[verifier::external_body]
fn trim_text(s: &str) -> (r: &str)
    ensures
        r@ == trimmed_of(s@),
        s@.len() == 0 || (ascii_graphic(s@[0]) && ascii_graphic(s@.last())) ==> r@ == s@,
{
    s.trim()
}

/// A prefix of decimal digits spells no more than the whole.
proof fn lemma_digits_prefix(s: Seq<char>, k: int)
    requires
        all_digits(s),
        0 <= k <= s.len(),
    ensures
        digits_value(s.take(k)) <= digits_value(s),
    decreases s.len(),
{
    if k < s.len() {
        assert(all_digits(s.drop_last()));
        lemma_digits_prefix(s.drop_last(), k);
        assert(s.drop_last().take(k) =~= s.take(k));
    } else {
        assert(s.take(k) =~= s);
    }
}

/// The number that the decimal digits `t` spell, or `None` where it does
/// not fit in 64 bits.
fn digits_to_u64(t: &str) -> (r: Option<u64>)
    requires
        t@.len() > 0,
        all_digits(t@),
    ensures
        r == digits_number(t@),
{
    let n = t.unicode_len();
    let mut v: u64 = 0;
    let mut k: usize = 0;
    while k < n
        invariant
            n == t@.len(),
            all_digits(t@),
            k <= n,
            v as nat == digits_value(t@.take(k as int)),
        decreases n - k,
    {
        let c = t.get_char(k);
        assert('0' <= t@[k as int] && t@[k as int] <= '9');
        let d: u64 = (c as u32 - '0' as u32) as u64;
        proof {
            assert(t@.take(k + 1).drop_last() =~= t@.take(k as int));
            assert(t@.take(k + 1).last() == c);
        }
        if v > (u64::MAX - d) / 10 {
            proof {
                assert(v * 10 + d > u64::MAX) by (nonlinear_arith)
                    requires v > (u64::MAX - d) / 10, d <= 9;
                lemma_digits_prefix(t@, k + 1);
            }
            return None;
        }
        assert(v * 10 + d <= u64::MAX) by (nonlinear_arith)
            requires v <= (u64::MAX - d) / 10, d <= 9;
        v = v * 10 + d;
        k = k + 1;
    }
    assert(t@.take(n as int) =~= t@);
    Some(v)
}

/// Relies on crossterm's `Stylize::with` and the `Display` of the styled
/// content it gives: the text appears whole between whatever escape
/// sequences set and reset the colour (none where colour is switched off).
#[verifier::external_body]
pub(crate) fn paint(s: &str, color: crossterm::style::Color) -> (r: String)
    ensures
        is_painting(r@, s@),
{
    format!("{}", s.with(color))
}

/// Whether `out` shows `s` whole, between some leading and some trailing
/// escape text.
pub open spec fn is_painting(out: Seq<char>, s: Seq<char>) -> bool {
    exists|a: Seq<char>, b: Seq<char>| out == a + s + b
}

/// A cell as a value: its text and how it is shown.
pub struct CellView {
    pub content: Seq<char>,
    pub color: Option<crossterm::style::Color>,
    pub append_spacer: bool,
    pub truncate_for_space: bool,
}

/// One value of a table row: display text and an optional colour.
#[derive(Debug)]
pub struct Cell {
    content: String,
    append_spacer: bool,
    truncate_for_space: bool,
    color: Option<crossterm::style::Color>,
}

impl View for Cell {
    type V = CellView;

    closed spec fn view(&self) -> CellView {
        CellView {
            content: self.content@,
            color: self.color,
            append_spacer: self.append_spacer,
            truncate_for_space: self.truncate_for_space,
        }
    }
}

/// The number that text of decimal digits alone spells, if there is at
/// least one digit and the value fits in 64 bits.
pub open spec fn digits_number(t: Seq<char>) -> Option<u64> {
    if t.len() > 0 && all_digits(t) && digits_value(t) <= u64::MAX {
        Some(digits_value(t) as u64)
    } else {
        None
    }
}

/// The number a cell's text holds: its trimmed text, where that is decimal
/// digits alone.
pub open spec fn number_of(c: CellView) -> Option<u64> {
    digits_number(trimmed_of(c.content))
}

/// Whether every character of `s` is a decimal digit.
fn only_digits(s: &str) -> (r: bool)
    ensures
        r == all_digits(s@),
{
    let n = s.unicode_len();
    let mut i: usize = 0;
    while i < n
        invariant
            n == s@.len(),
            i <= n,
            forall|k: int| 0 <= k < i ==> '0' <= #[trigger] s@[k] && s@[k] <= '9',
        decreases n - i,
    {
        let c = s.get_char(i);
        if c < '0' || c > '9' {
            return false;
        }
        i = i + 1;
    }
    true
}

impl Cell {
    /// A cell that shows `content`, uncoloured.
    pub fn new(content: &str) -> (r: Cell)
        ensures
            r@.content == content@,
            r@.color is None,
            r@.append_spacer,
            !r@.truncate_for_space,
    {
        Cell {
            content: content.to_string(),
            append_spacer: true,
            truncate_for_space: false,
            color: None,
        }
    }

    /// This cell with its spacer flag set to `yn`.
    pub fn append_spacer(self, yn: bool) -> (r: Cell)
        ensures
            r@ == (CellView { append_spacer: yn, ..self@ }),
    {
        let Cell { content, append_spacer: _, truncate_for_space, color } = self;
        Cell { content, append_spacer: yn, truncate_for_space, color }
    }

    /// This cell with its truncation flag set to `yn`.
    pub fn truncate_for_space(self, yn: bool) -> (r: Cell)
        ensures
            r@ == (CellView { truncate_for_space: yn, ..self@ }),
    {
        let Cell { content, append_spacer, truncate_for_space: _, color } = self;
        Cell { content, append_spacer, truncate_for_space: yn, color }
    }

    /// This cell, shown in `color`.
    pub fn with_color(self, color: crossterm::style::Color) -> (r: Cell)
        ensures
            r@ == (CellView { color: Some(color), ..self@ }),
    {
        let Cell { content, append_spacer, truncate_for_space, color: _ } = self;
        Cell { content, append_spacer, truncate_for_space, color: Some(color) }
    }

    /// The cell's text.
    pub fn content(&self) -> (r: &str)
        ensures
            r@ == self@.content,
    {
        self.content.as_str()
    }

    /// The cell's colour, if it has one.
    pub fn color(&self) -> (r: Option<crossterm::style::Color>)
        ensures
            r == self@.color,
    {
        self.color
    }

    /// The unsigned integer the cell's text holds once trimmed, where that
    /// text is decimal digits alone; `None` for anything else.
    pub fn as_number(&self) -> (r: Option<u64>)
        ensures
            r == number_of(self@),
    {
        let t = trim_text(self.content.as_str());
        if t.unicode_len() == 0 || !only_digits(t) {
            return None;
        }
        digits_to_u64(t)
    }
}

/// A row: its cells in order.
#[derive(Debug)]
pub struct Row {
    cells: Vec<Cell>,
}

impl View for Row {
    type V = Seq<CellView>;

    closed spec fn view(&self) -> Seq<CellView> {
        self.cells@.map_values(|c: Cell| c@)
    }
}

impl Row {
    /// A row without cells.
    pub fn new() -> (r: Row)
        ensures
            r@ == Seq::<CellView>::empty(),
    {
        let r = Row { cells: Vec::new() };
        assert(r@ =~= Seq::<CellView>::empty());
        r
    }

    /// This row with `cell` appended.
    pub fn with_cell(self, cell: Cell) -> (r: Row)
        ensures
            r@ == self@.push(cell@),
    {
        let Row { mut cells } = self;
        let ghost before = cells@;
        cells.push(cell);
        let r = Row { cells };
        assert(r@ =~= before.map_values(|c: Cell| c@).push(cell@));
        r
    }

    /// The number of cells.
    pub fn len(&self) -> (r: usize)
        ensures
            r == self@.len(),
    {
        self.cells.len()
    }

    /// The cell at `i`.
    pub fn cell(&self, i: usize) -> (r: &Cell)
        requires
            i < self@.len(),
        ensures
            r@ == self@[i as int],
    {
        &self.cells[i]
    }
}

} // verus!
