//! The text a table renders to: rules, an optional title, headings, and
//! rows padded to their columns' widths.

use crate::cell::{is_painting, paint, CellView, Row};
use crate::table::{column_width, column_widths, well_formed, widest_cell, Table, TableView};
use crate::width::{display_width, display_width_of};
use vstd::prelude::*;
use vstd::string::*;

verus! {

/// `n` spaces.
pub open spec fn spaces(n: nat) -> Seq<char> {
    Seq::new(n, |i: int| ' ')
}

/// `n` dashes.
pub open spec fn dashes(n: nat) -> Seq<char> {
    Seq::new(n, |i: int| '-')
}

/// `content` padded on the right with spaces to `width` columns, then one
/// space that separates it from the next field.
pub open spec fn padded(content: Seq<char>, width: nat) -> Seq<char> {
    content + spaces((width - display_width_of(content)) as nat) + seq![' ']
}

/// The pieces of `parts` one after another.
pub open spec fn concat(parts: Seq<Seq<char>>) -> Seq<char>
    decreases parts.len(),
{
    if parts.len() == 0 {
        Seq::empty()
    } else {
        concat(parts.drop_last()) + parts.last()
    }
}

/// The sum of the first `n` widths.
pub open spec fn total_width(widths: Seq<nat>, n: nat) -> nat
    decreases n,
{
    if n == 0 || n > widths.len() {
        0
    } else {
        total_width(widths, (n - 1) as nat) + widths[n - 1]
    }
}

/// A horizontal rule as wide as all columns with their separating spaces,
/// and its line end.
pub open spec fn rule_text(widths: Seq<nat>) -> Seq<char> {
    dashes(total_width(widths, widths.len()) + widths.len()) + seq!['\n']
}

/// The first `n` headings, each padded to its column.
pub open spec fn heading_fields(headings: Seq<Seq<char>>, widths: Seq<nat>, n: nat) -> Seq<char>
    decreases n,
{
    if n == 0 || n > headings.len() {
        Seq::empty()
    } else {
        heading_fields(headings, widths, (n - 1) as nat) + padded(headings[n - 1], widths[n - 1])
    }
}

/// Whether `out` is how cell `c` shows in a column `width` wide: padded,
/// and painted in its colour where it has one.
pub open spec fn shown_field(c: CellView, width: nat, out: Seq<char>) -> bool {
    match c.color {
        None => out == padded(c.content, width),
        Some(_) => is_painting(out, padded(c.content, width)),
    }
}

/// Whether `shown` holds, for each cell of each row of `t`, how it shows.
pub open spec fn shown_rows(t: TableView, shown: Seq<Seq<Seq<char>>>) -> bool {
    &&& shown.len() == t.rows.len()
    &&& forall|i: int| 0 <= i < shown.len() ==> (#[trigger] shown[i]).len() == t.columns
    &&& forall|i: int, j: int|
        0 <= i < shown.len() && 0 <= j < t.columns ==> shown_field(
            t.rows[i][j],
            column_width(t, j),
            #[trigger] shown[i][j],
        )
}

/// The row lines: each row's fields, then a line end.
pub open spec fn body_text(shown: Seq<Seq<Seq<char>>>) -> Seq<char>
    decreases shown.len(),
{
    if shown.len() == 0 {
        Seq::empty()
    } else {
        body_text(shown.drop_last()) + concat(shown.last()) + seq!['\n']
    }
}

/// Whether the table has nothing to show: no headings, and no cells.
pub open spec fn is_blank(t: TableView) -> bool {
    t.headings.len() == 0 && (t.rows.len() == 0 || t.columns == 0)
}

/// The title, headings and their rules, where headings are shown.
pub open spec fn header_text(t: TableView) -> Seq<char> {
    let ws = column_widths(t);
    if t.headings.len() > 0 && !t.no_header {
        let title = match t.title {
            Some(x) => x + seq!['\n'] + rule_text(ws),
            None => Seq::empty(),
        };
        title + heading_fields(t.headings, ws, t.headings.len()) + seq!['\n'] + rule_text(ws)
    } else {
        Seq::empty()
    }
}

/// The closing rule, where headings are shown.
pub open spec fn footer_text(t: TableView) -> Seq<char> {
    if !t.no_header {
        rule_text(column_widths(t))
    } else {
        Seq::empty()
    }
}

/// The whole text of `t`, its cells shown as `shown`: nothing for a blank
/// table; else the header, the rows and the footer.
pub open spec fn table_text(t: TableView, shown: Seq<Seq<Seq<char>>>) -> Seq<char> {
    if is_blank(t) {
        Seq::empty()
    } else {
        header_text(t) + body_text(shown) + footer_text(t)
    }
}

/// Whether some cell of `t` has a colour.
pub open spec fn has_color(t: TableView) -> bool {
    exists|i: int, j: int| 0 <= i < t.rows.len() && 0 <= j < t.rows[i].len() && (#[trigger] t.rows[i][j]).color is Some
}

/// No cell of a column is wider than the column.
proof fn lemma_widest_cell_bounds(rows: Seq<Seq<CellView>>, i: int, n: nat, r: int)
    requires
        0 <= r < n,
    ensures
        display_width_of(rows[r][i].content) <= widest_cell(rows, i, n),
    decreases n,
{
    if r < n - 1 {
        lemma_widest_cell_bounds(rows, i, (n - 1) as nat, r);
    }
}

/// Appends `n` copies of the one character of `unit` to `out`.
fn append_copies(out: &mut String, unit: &str, n: usize)
    requires
        unit@.len() == 1,
    ensures
        final(out)@ == old(out)@ + Seq::new(n as nat, |i: int| unit@[0]),
{
    let mut k: usize = 0;
    while k < n
        invariant
            unit@.len() == 1,
            k <= n,
            out@ == old(out)@ + Seq::new(k as nat, |i: int| unit@[0]),
        decreases n - k,
    {
        out.append(unit);
        k = k + 1;
        assert(out@ =~= old(out)@ + Seq::new(k as nat, |i: int| unit@[0]));
    }
}

/// `content` padded to `width` columns, then a separating space.
fn padded_field(content: &str, width: usize) -> (r: String)
    requires
        display_width_of(content@) <= width,
    ensures
        r@ == padded(content@, width as nat),
{
    let used = display_width(content);
    let mut out = content.to_string();
    proof { reveal_strlit(" "); }
    append_copies(&mut out, " ", width - used);
    out.append(" ");
    assert(out@ =~= padded(content@, width as nat));
    out
}

/// The widths as numbers.
pub open spec fn widths_view(widths: Seq<usize>) -> Seq<nat> {
    widths.map_values(|w: usize| w as nat)
}

/// A rule as wide as the columns of `widths` with their separating spaces.
fn rule_line(widths: &Vec<usize>) -> (r: String)
    ensures
        r@ == rule_text(widths_view(widths@)),
{
    let ghost ws = widths_view(widths@);
    let mut out = String::new();
    let mut j: usize = 0;
    while j < widths.len()
        invariant
            j <= widths@.len(),
            ws == widths_view(widths@),
            out@ == dashes(total_width(ws, j as nat) + j as nat),
        decreases widths.len() - j,
    {
        proof {
            reveal_strlit("-");
        }
        append_copies(&mut out, "-", widths[j]);
        out.append("-");
        assert(ws[j as int] == widths@[j as int] as nat);
        assert(total_width(ws, (j + 1) as nat) == total_width(ws, j as nat) + ws[j as int]);
        j = j + 1;
        assert(out@ =~= dashes(total_width(ws, j as nat) + j as nat));
    }
    proof {
        reveal_strlit("\n");
    }
    out.append("\n");
    out
}

/// The fields of `row`, each padded to its column and painted where the
/// cell has a colour, then a line end; and each field as shown.
fn row_line(row: &Row, widths: &Vec<usize>) -> (res: (String, Ghost<Seq<Seq<char>>>))
    requires
        row@.len() == widths@.len(),
        forall|j: int| 0 <= j < widths@.len() ==> display_width_of(row@[j].content) <= widths@[j],
    ensures
        res.1@.len() == row@.len(),
        forall|j: int| 0 <= j < row@.len() ==> shown_field(row@[j], widths@[j] as nat, #[trigger] res.1@[j]),
        res.0@ == concat(res.1@) + seq!['\n'],
{
    let mut out = String::new();
    let ghost mut sh: Seq<Seq<char>> = Seq::empty();
    let mut j: usize = 0;
    while j < row.len()
        invariant
            row@.len() == widths@.len(),
            forall|j: int| 0 <= j < widths@.len() ==> display_width_of(row@[j].content) <= widths@[j],
            j <= row@.len(),
            sh.len() == j,
            forall|k: int| 0 <= k < j ==> shown_field(row@[k], widths@[k] as nat, #[trigger] sh[k]),
            out@ == concat(sh),
        decreases row@.len() - j,
    {
        let cell = row.cell(j);
        let field = padded_field(cell.content(), widths[j]);
        let piece = match cell.color() {
            Some(c) => paint(field.as_str(), c),
            None => field,
        };
        proof {
            assert(sh.push(piece@).drop_last() =~= sh);
            sh = sh.push(piece@);
        }
        out.append(piece.as_str());
        j = j + 1;
    }
    proof { reveal_strlit("\n"); }
    out.append("\n");
    (out, Ghost(sh))
}

/// Rendering is stable: a table none of whose cells has a colour shows as
/// one text only, so two renderings of it without a change in between are
/// the same text.
pub proof fn lemma_render_stable(t: TableView, first: Seq<Seq<Seq<char>>>, second: Seq<Seq<Seq<char>>>)
    requires
        well_formed(t),
        !has_color(t),
        shown_rows(t, first),
        shown_rows(t, second),
    ensures
        table_text(t, first) == table_text(t, second),
{
    assert forall|i: int| 0 <= i < first.len() implies #[trigger] first[i] == second[i] by {
        assert forall|j: int| 0 <= j < t.columns implies first[i][j] == second[i][j] by {
            assert(t.rows[i].len() == t.columns);
            assert(t.rows[i][j].color is None);
            assert(shown_field(t.rows[i][j], column_width(t, j), first[i][j]));
            assert(shown_field(t.rows[i][j], column_width(t, j), second[i][j]));
        }
        assert(first[i] =~= second[i]);
    }
    assert(first =~= second);
}

/// A table with no rows and no headings renders to the empty text.
pub proof fn lemma_empty_table_renders_nothing(t: TableView, shown: Seq<Seq<Seq<char>>>)
    requires
        t.rows.len() == 0,
        t.headings.len() == 0,
    ensures
        table_text(t, shown) == Seq::<char>::empty(),
{
}

impl Table {
    /// The heading fields, each padded to its column, then a line end.
    fn heading_line(&self, widths: &Vec<usize>) -> (r: String)
        requires
            well_formed(self@),
            !self@.no_header,
            widths_view(widths@) == column_widths(self@),
        ensures
            r@ == heading_fields(self@.headings, column_widths(self@), self@.headings.len()) + seq!['\n'],
    {
        let ghost t = self@;
        let ghost ws = column_widths(t);
        let mut out = String::new();
        let mut j: usize = 0;
        let n = self.headings_len();
        assert(widths_view(widths@).len() == widths@.len());
        while j < n
            invariant
                well_formed(t),
                t == self@,
                !t.no_header,
                n == t.headings.len(),
                widths_view(widths@) == ws,
                widths@.len() == t.columns,
                ws == column_widths(t),
                j <= n,
                out@ == heading_fields(t.headings, ws, j as nat),
            decreases n - j,
        {
            let h = self.heading(j);
            assert(ws[j as int] == widths@[j as int] as nat);
            assert(ws[j as int] == column_width(t, j as int));
            let piece = padded_field(h, widths[j]);
            out.append(piece.as_str());
            j = j + 1;
        }
        proof { reveal_strlit("\n"); }
        out.append("\n");
        out
    }

    /// The table as text: nothing where it has no headings and no cells;
    /// else, where headings are shown, the title and a rule (if there is a
    /// title), the headings and a rule; then each row, its fields padded to
    /// their columns' widths and painted in their cells' colours; then,
    /// where headings are shown, a closing rule. Rows show in their current
    /// order: `sort` ranks them.
    pub fn render(&self) -> (r: String)
        requires
            well_formed(self@),
        ensures
            exists|shown: Seq<Seq<Seq<char>>>| shown_rows(self@, shown) && r@ == #[trigger] table_text(self@, shown),
    {
        let ghost t = self@;
        let ghost ws = column_widths(t);
        let widths = self.calc_cell_widths();
        proof {
            assert(widths_view(widths@) =~= ws);
            assert(widths@.len() == t.columns);
        }
        let nrows = self.rows_len();
        if self.headings_len() == 0 && (nrows == 0 || self.column_count() == 0) {
            let ghost blank = Seq::new(t.rows.len(), |i: int| Seq::<Seq<char>>::empty());
            let out = String::new();
            assert(shown_rows(t, blank));
            assert(out@ =~= table_text(t, blank));
            return out;
        }
        proof {
            reveal_strlit("\n");
        }
        let mut out = String::new();
        if self.headings_len() > 0 && !self.header_omitted() {
            match self.title() {
                Some(title) => {
                    out.append(title);
                    out.append("\n");
                    let rule = rule_line(&widths);
                    out.append(rule.as_str());
                },
                None => {},
            }
            let heads = self.heading_line(&widths);
            out.append(heads.as_str());
            let rule = rule_line(&widths);
            out.append(rule.as_str());
        }
        assert(out@ =~= header_text(t));
        let ghost head = out@;
        let ghost mut shown: Seq<Seq<Seq<char>>> = Seq::empty();
        let mut i: usize = 0;
        while i < nrows
            invariant
                t == self@,
                well_formed(t),
                ws == column_widths(t),
                widths_view(widths@) == ws,
                widths@.len() == t.columns,
                nrows == t.rows.len(),
                i <= nrows,
                shown.len() == i,
                forall|k: int| 0 <= k < i ==> (#[trigger] shown[k]).len() == t.columns,
                forall|k: int, j: int|
                    0 <= k < i && 0 <= j < t.columns ==> shown_field(
                        t.rows[k][j],
                        column_width(t, j),
                        #[trigger] shown[k][j],
                    ),
                out@ == head + body_text(shown),
            decreases nrows - i,
        {
            let row = self.row(i);
            proof {
                assert(row@.len() == t.columns);
                assert forall|j: int| 0 <= j < widths@.len() implies display_width_of(row@[j].content) <= widths@[j] by {
                    lemma_widest_cell_bounds(t.rows, j, t.rows.len(), i as int);
                    assert(widths@[j] as nat == ws[j]);
                }
            }
            let (line, sh) = row_line(row, &widths);
            proof {
                assert forall|j: int| 0 <= j < t.columns implies shown_field(t.rows[i as int][j], column_width(t, j), #[trigger] sh@[j]) by {
                    assert(widths@[j] as nat == ws[j]);
                }
                assert(shown.push(sh@).drop_last() =~= shown);
                shown = shown.push(sh@);
            }
            out.append(line.as_str());
            i = i + 1;
        }
        if !self.header_omitted() {
            let rule = rule_line(&widths);
            out.append(rule.as_str());
        }
        assert(shown_rows(t, shown));
        assert(out@ =~= table_text(t, shown));
        out
    }
}

} // verus!
