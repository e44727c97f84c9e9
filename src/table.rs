//! A table of cells: it measures its columns, ranks its rows by one column,
//! and renders itself as aligned text.

use crate::cell::{number_of, Cell, CellView, Row};
use crate::width::{display_width, display_width_of};
use vstd::multiset::Multiset;
use vstd::prelude::*;
use vstd::seq_lib::{to_multiset_build, to_multiset_insert};

verus! {

broadcast use {vstd::seq_lib::group_to_multiset_ensures, vstd::multiset::group_multiset_axioms};

/// A table as a value.
pub struct TableView {
    pub title: Option<Seq<char>>,
    pub headings: Seq<Seq<char>>,
    pub columns: nat,
    pub rows: Seq<Seq<CellView>>,
    pub sort_by: Option<nat>,
    pub reverse: bool,
    pub no_header: bool,
}

/// Rows of cells under optional headings, with the settings that rank and
/// show them.
#[derive(Debug)]
pub struct Table {
    title: Option<String>,
    headings: Vec<String>,
    columns: usize,
    rows: Vec<Row>,
    spacer: Option<char>,
    sort_by: Option<usize>,
    reverse: bool,
    no_header: bool,
}

impl View for Table {
    type V = TableView;

    closed spec fn view(&self) -> TableView {
        TableView {
            title: match self.title {
                Some(t) => Some(t@),
                None => None,
            },
            headings: self.headings@.map_values(|h: String| h@),
            columns: self.columns as nat,
            rows: self.rows@.map_values(|r: Row| r@),
            sort_by: match self.sort_by {
                Some(i) => Some(i as nat),
                None => None,
            },
            reverse: self.reverse,
            no_header: self.no_header,
        }
    }
}

/// A table is well formed when it has no more headings than columns, and
/// every row has exactly one cell for each column.
pub open spec fn well_formed(t: TableView) -> bool {
    &&& t.headings.len() <= t.columns
    &&& forall|i: int| 0 <= i < t.rows.len() ==> (#[trigger] t.rows[i]).len() == t.columns
}

/// The width that heading `i` asks of its column: none where headings are
/// not shown.
pub open spec fn heading_width(t: TableView, i: int) -> nat {
    if !t.no_header && 0 <= i < t.headings.len() {
        display_width_of(t.headings[i])
    } else {
        0
    }
}

/// The widest cell of column `i` among the first `n` rows.
pub open spec fn widest_cell(rows: Seq<Seq<CellView>>, i: int, n: nat) -> nat
    decreases n,
{
    if n == 0 {
        0
    } else {
        let w = display_width_of(rows[n - 1][i].content);
        let m = widest_cell(rows, i, (n - 1) as nat);
        if w > m {
            w
        } else {
            m
        }
    }
}

/// The width of column `i`: the widest of its shown heading and its cells.
pub open spec fn column_width(t: TableView, i: int) -> nat {
    let c = widest_cell(t.rows, i, t.rows.len());
    if heading_width(t, i) > c {
        heading_width(t, i)
    } else {
        c
    }
}

/// The widths of all columns, in order.
pub open spec fn column_widths(t: TableView) -> Seq<nat> {
    Seq::new(t.columns, |i: int| column_width(t, i))
}

/// How text `a` orders against text `b` from position `i` on, character by
/// character: `-1` before, `0` equal, `1` after; a proper prefix comes first.
pub open spec fn text_order_from(a: Seq<char>, b: Seq<char>, i: int) -> int
    decreases a.len() - i,
{
    if i >= a.len() {
        if i >= b.len() {
            0
        } else {
            -1
        }
    } else if i >= b.len() {
        1
    } else if (a[i] as u32) < (b[i] as u32) {
        -1
    } else if (a[i] as u32) > (b[i] as u32) {
        1
    } else {
        text_order_from(a, b, i + 1)
    }
}

/// How text `a` orders against text `b`, lexically.
pub open spec fn text_order(a: Seq<char>, b: Seq<char>) -> int {
    text_order_from(a, b, 0)
}

/// How number `a` orders against number `b`.
pub open spec fn num_order(a: int, b: int) -> int {
    if a < b {
        -1
    } else if a > b {
        1
    } else {
        0
    }
}

/// How cell `a` ranks against cell `b`: `-1` when `a` comes first.
/// Two numbers rank high to low. Otherwise a bar column ranks by display
/// width, widest first, and any other column by text, from the end of the
/// alphabet. Reversing turns each of these around.
pub open spec fn rank_order(a: CellView, b: CellView, by_width: bool, reverse: bool) -> int {
    let o = match (number_of(a), number_of(b)) {
        (Some(x), Some(y)) => num_order(y as int, x as int),
        _ => if by_width {
            num_order(display_width_of(b.content) as int, display_width_of(a.content) as int)
        } else {
            text_order(b.content, a.content)
        },
    };
    if reverse {
        -o
    } else {
        o
    }
}

/// The column that a table ranks its rows by: the one chosen, else the first.
pub open spec fn sort_column(t: TableView) -> nat {
    match t.sort_by {
        Some(k) => k,
        None => 0,
    }
}

/// Whether the table ranks its rows by the width of their bars: the ranking
/// column is headed `Usage`.
pub open spec fn ranks_by_width(t: TableView) -> bool {
    let k = sort_column(t) as int;
    k < t.headings.len() && t.headings[k] == "Usage"@
}

/// Whether row `a` may stand right before row `b` when ranked by column `k`.
pub open spec fn in_rank(a: Seq<CellView>, b: Seq<CellView>, k: int, by_width: bool, reverse: bool) -> bool {
    rank_order(a[k], b[k], by_width, reverse) <= 0
}

/// Whether each row of `rows` ranks no later than the next by column `k`.
pub open spec fn ranked(rows: Seq<Seq<CellView>>, k: int, by_width: bool, reverse: bool) -> bool {
    forall|i: int| 0 <= i < rows.len() - 1 ==> in_rank(#[trigger] rows[i], rows[i + 1], k, by_width, reverse)
}

/// Comparing text the other way round gives the opposite order.
pub proof fn lemma_text_order_antisymmetric(a: Seq<char>, b: Seq<char>, i: int)
    requires
        0 <= i,
    ensures
        text_order_from(a, b, i) == -text_order_from(b, a, i),
    decreases a.len() - i,
{
    if i < a.len() && i < b.len() && (a[i] as u32) == (b[i] as u32) {
        lemma_text_order_antisymmetric(a, b, i + 1);
    }
}

/// Ranking two cells the other way round gives the opposite order.
pub proof fn lemma_rank_order_antisymmetric(a: CellView, b: CellView, by_width: bool, reverse: bool)
    ensures
        rank_order(a, b, by_width, reverse) == -rank_order(b, a, by_width, reverse),
{
    lemma_text_order_antisymmetric(a.content, b.content, 0);
}

/// How text `a` orders against text `b`, lexically.
pub fn compare_text(a: &str, b: &str) -> (r: i8)
    ensures
        r as int == text_order(a@, b@),
        -1 <= r <= 1,
{
    let na = a.unicode_len();
    let nb = b.unicode_len();
    let mut i: usize = 0;
    while i < na && i < nb
        invariant
            na == a@.len(),
            nb == b@.len(),
            i <= na,
            i <= nb,
            text_order(a@, b@) == text_order_from(a@, b@, i as int),
        decreases na - i,
    {
        let x = a.get_char(i);
        let y = b.get_char(i);
        if (x as u32) < (y as u32) {
            return -1;
        } else if (x as u32) > (y as u32) {
            return 1;
        }
        i = i + 1;
    }
    if i < nb {
        -1
    } else if i < na {
        1
    } else {
        0
    }
}

/// How number `a` orders against number `b`.
fn compare_num(a: u64, b: u64) -> (r: i8)
    ensures
        r as int == num_order(a as int, b as int),
{
    if a < b {
        -1
    } else if a > b {
        1
    } else {
        0
    }
}

/// How cell `a` ranks against cell `b`.
pub fn rank_cells(a: &Cell, b: &Cell, by_width: bool, reverse: bool) -> (r: i8)
    ensures
        r as int == rank_order(a@, b@, by_width, reverse),
{
    let o = match (a.as_number(), b.as_number()) {
        (Some(x), Some(y)) => compare_num(y, x),
        _ => if by_width {
            compare_num(display_width(b.content()) as u64, display_width(a.content()) as u64)
        } else {
            compare_text(b.content(), a.content())
        },
    };
    if reverse {
        -o
    } else {
        o
    }
}

impl Table {
    /// An empty table: no title, headings, columns or rows.
    pub fn new() -> (r: Table)
        ensures
            r@.title is None,
            r@.headings.len() == 0,
            r@.columns == 0,
            r@.rows.len() == 0,
            r@.sort_by is None,
            !r@.reverse,
            !r@.no_header,
    {
        Table {
            title: None,
            headings: Vec::new(),
            columns: 0,
            rows: Vec::new(),
            spacer: None,
            sort_by: None,
            reverse: false,
            no_header: false,
        }
    }

    /// This table with `n` columns.
    pub fn with_n_columns(self, n: usize) -> (r: Table)
        ensures
            r@ == (TableView { columns: n as nat, ..self@ }),
    {
        let Table { title, headings, columns: _, rows, spacer, sort_by, reverse, no_header } = self;
        Table { title, headings, columns: n, rows, spacer, sort_by, reverse, no_header }
    }

    /// This table with `heading` inserted among its headings at position
    /// `field_num`, which must be a column of the table.
    pub fn with_heading(self, field_num: usize, heading: &str) -> (r: Table)
        requires
            field_num < self@.columns,
            field_num <= self@.headings.len(),
        ensures
            r@ == (TableView { headings: self@.headings.insert(field_num as int, heading@), ..self@ }),
    {
        let Table { title, mut headings, columns, rows, spacer, sort_by, reverse, no_header } = self;
        let ghost before = headings@;
        headings.insert(field_num, heading.to_string());
        let r = Table { title, headings, columns, rows, spacer, sort_by, reverse, no_header };
        assert(r@.headings =~= before.map_values(|h: String| h@).insert(field_num as int, heading@));
        r
    }

    /// This table with `title` shown above its headings.
    pub fn with_title(self, title: &str) -> (r: Table)
        ensures
            r@ == (TableView { title: Some(title@), ..self@ }),
    {
        let Table { title: _, headings, columns, rows, spacer, sort_by, reverse, no_header } = self;
        Table { title: Some(title.to_string()), headings, columns, rows, spacer, sort_by, reverse, no_header }
    }

    /// Hides the title, headings and rules when `yn` is set.
    pub fn omit_header(&mut self, yn: bool)
        ensures
            final(self)@ == (TableView { no_header: yn, ..old(self)@ }),
    {
        self.no_header = yn;
    }

    /// Appends `row` after the existing rows.
    pub fn add_row(&mut self, row: Row)
        ensures
            final(self)@ == (TableView { rows: old(self)@.rows.push(row@), ..old(self)@ }),
    {
        let ghost before = self.rows@;
        self.rows.push(row);
        assert(self@.rows =~= before.map_values(|r: Row| r@).push(row@));
    }

    /// The position of the first heading equal to `column`, if any.
    pub fn find_col_idx(&self, column: &str) -> (r: Option<usize>)
        ensures
            r matches Some(i) ==> i < self@.headings.len() && self@.headings[i as int] == column@
                && forall|k: int| 0 <= k < i ==> self@.headings[k] != column@,
            r is None ==> forall|k: int| 0 <= k < self@.headings.len() ==> self@.headings[k] != column@,
    {
        let mut i: usize = 0;
        while i < self.headings.len()
            invariant
                i <= self.headings.len(),
                forall|k: int| 0 <= k < i ==> self@.headings[k] != column@,
            decreases self.headings.len() - i,
        {
            if crate::column::same_text(self.headings[i].as_str(), column) {
                return Some(i);
            }
            i = i + 1;
        }
        None
    }

    /// Ranks in reverse: flips the order that `sort` gives.
    pub fn reverse(&mut self)
        ensures
            final(self)@ == (TableView { reverse: true, ..old(self)@ }),
    {
        self.reverse = true;
    }

    /// Ranks rows by column `col_idx`.
    pub fn set_sort_column(&mut self, col_idx: usize)
        ensures
            final(self)@ == (TableView { sort_by: Some(col_idx as nat), ..old(self)@ }),
    {
        self.sort_by = Some(col_idx);
    }

    /// The width of each column: the widest display width among its cells
    /// and, where headings are shown, its heading.
    pub fn calc_cell_widths(&self) -> (r: Vec<usize>)
        requires
            well_formed(self@),
        ensures
            r@.len() == self@.columns,
            forall|i: int| 0 <= i < r@.len() ==> r@[i] as nat == column_width(self@, i),
    {
        let mut widths: Vec<usize> = Vec::new();
        let mut i: usize = 0;
        while i < self.columns
            invariant
                well_formed(self@),
                i <= self.columns,
                widths@.len() == i,
                forall|k: int| 0 <= k < i ==> widths@[k] as nat == column_width(self@, k),
            decreases self.columns - i,
        {
            let mut w: usize = 0;
            if !self.no_header && i < self.headings.len() {
                w = display_width(self.headings[i].as_str());
            }
            let mut n: usize = 0;
            let mut widest: usize = 0;
            while n < self.rows.len()
                invariant
                    well_formed(self@),
                    i < self.columns,
                    n <= self.rows.len(),
                    widest as nat == widest_cell(self@.rows, i as int, n as nat),
                decreases self.rows.len() - n,
            {
                assert(self@.rows[n as int] == self.rows@[n as int]@);
                let cw = display_width(self.rows[n].cell(i).content());
                if cw > widest {
                    widest = cw;
                }
                n = n + 1;
            }
            if widest > w {
                w = widest;
            }
            widths.push(w);
            i = i + 1;
        }
        widths
    }

    /// Ranks the rows by the sort column (the first column where none was
    /// chosen): the rows stay the same rows, and each ranks no later than
    /// the next by `rank_order`.
    pub fn sort(&mut self)
        requires
            well_formed(old(self)@),
            sort_column(old(self)@) < old(self)@.columns,
        ensures
            final(self)@ == (TableView { rows: final(self)@.rows, ..old(self)@ }),
            well_formed(final(self)@),
            final(self)@.rows.to_multiset() == old(self)@.rows.to_multiset(),
            ranked(final(self)@.rows, sort_column(old(self)@) as int, ranks_by_width(old(self)@), old(self)@.reverse),
    {
        let k: usize = match self.sort_by {
            Some(c) => c,
            None => 0,
        };
        let by_width = k < self.headings.len() && {
            proof { reveal_strlit("Usage"); }
            crate::column::same_text(self.headings[k].as_str(), "Usage")
        };
        let reverse = self.reverse;
        let ghost orig = self@;
        let mut pending: Vec<Row> = Vec::new();
        std::mem::swap(&mut pending, &mut self.rows);
        let mut sorted: Vec<Row> = Vec::new();
        assert(pending@.map_values(|r: Row| r@) =~= orig.rows);
        assert(self@.rows =~= Seq::<Seq<CellView>>::empty());
        assert(self@ =~= (TableView { rows: Seq::empty(), ..orig }));
        assert forall|i: int| 0 <= i < pending@.len() implies (#[trigger] pending@[i])@.len() == orig.columns by {
            assert(orig.rows[i] == pending@[i]@);
        }
        assert(sorted@.map_values(|r: Row| r@) =~= Seq::<Seq<CellView>>::empty());
        assert(sorted@.map_values(|r: Row| r@).to_multiset() =~= Multiset::empty());
        while pending.len() > 0
            invariant
                self@ == (TableView { rows: Seq::empty(), ..orig }),
                well_formed(orig),
                k as nat == sort_column(orig),
                k < orig.columns,
                by_width == ranks_by_width(orig),
                reverse == orig.reverse,
                forall|i: int| 0 <= i < pending@.len() ==> (#[trigger] pending@[i])@.len() == orig.columns,
                forall|i: int| 0 <= i < sorted@.len() ==> (#[trigger] sorted@[i])@.len() == orig.columns,
                sorted@.map_values(|r: Row| r@).to_multiset().add(pending@.map_values(|r: Row| r@).to_multiset())
                    == orig.rows.to_multiset(),
                ranked(sorted@.map_values(|r: Row| r@), k as int, by_width, reverse),
            decreases pending.len(),
        {
            let ghost pv = pending@.map_values(|r: Row| r@);
            let ghost sv = sorted@.map_values(|r: Row| r@);
            let row = pending.pop().unwrap();
            proof {
                assert(pv =~= pending@.map_values(|r: Row| r@).push(row@));
                to_multiset_build(pending@.map_values(|r: Row| r@), row@);
            }
            assert(row@.len() == orig.columns);
            let mut j: usize = 0;
            while j < sorted.len() && rank_cells(row.cell(k), sorted[j].cell(k), by_width, reverse) > 0
                invariant
                    j <= sorted@.len(),
                    k < orig.columns,
                    row@.len() == orig.columns,
                    forall|i: int| 0 <= i < sorted@.len() ==> (#[trigger] sorted@[i])@.len() == orig.columns,
                    sv == sorted@.map_values(|r: Row| r@),
                    forall|i: int| 0 <= i < j ==> rank_order(row@[k as int], (#[trigger] sv[i])[k as int], by_width, reverse) > 0,
                decreases sorted.len() - j,
            {
                j = j + 1;
            }
            sorted.insert(j, row);
            proof {
                let nv = sorted@.map_values(|r: Row| r@);
                assert(nv =~= sv.insert(j as int, row@));
                to_multiset_insert(sv, j as int, row@);
                assert forall|i: int| 0 <= i < nv.len() - 1 implies in_rank(#[trigger] nv[i], nv[i + 1], k as int, by_width, reverse) by {
                    if i + 1 < j {
                        assert(in_rank(sv[i], sv[i + 1], k as int, by_width, reverse));
                    } else if i + 1 == j {
                        lemma_rank_order_antisymmetric(sv[i][k as int], row@[k as int], by_width, reverse);
                    } else if i == j {
                    } else {
                        assert(in_rank(sv[i - 1], sv[i], k as int, by_width, reverse));
                    }
                }
            }
        }
        assert(pending@.map_values(|r: Row| r@) =~= Seq::<Seq<CellView>>::empty());
        self.rows = sorted;
        assert(self@.rows.to_multiset() =~= orig.rows.to_multiset());
    }


    /// The number of headings.
    pub fn headings_len(&self) -> (r: usize)
        ensures
            r == self@.headings.len(),
    {
        self.headings.len()
    }

    /// The heading at `i`.
    pub fn heading(&self, i: usize) -> (r: &str)
        requires
            i < self@.headings.len(),
        ensures
            r@ == self@.headings[i as int],
    {
        self.headings[i].as_str()
    }

    /// The number of rows.
    pub fn rows_len(&self) -> (r: usize)
        ensures
            r == self@.rows.len(),
    {
        self.rows.len()
    }

    /// The row at `i`.
    pub fn row(&self, i: usize) -> (r: &Row)
        requires
            i < self@.rows.len(),
        ensures
            r@ == self@.rows[i as int],
    {
        &self.rows[i]
    }

    /// The number of columns.
    pub fn column_count(&self) -> (r: usize)
        ensures
            r == self@.columns,
    {
        self.columns
    }

    /// The title, if there is one.
    pub fn title(&self) -> (r: Option<&str>)
        ensures
            r matches Some(x) ==> self@.title == Some(x@),
            r is None ==> self@.title is None,
    {
        match &self.title {
            Some(t) => Some(t.as_str()),
            None => None,
        }
    }

    /// Whether the title, headings and rules are hidden.
    pub fn header_omitted(&self) -> (r: bool)
        ensures
            r == self@.no_header,
    {
        self.no_header
    }

}

} // verus!
