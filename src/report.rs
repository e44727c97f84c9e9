//! Turns recorded entries into a ranked table of statistics: which entries
//! are shown, which columns, and how each cell reads.

use crate::bar::{bar_of, get_bar};
use crate::cell::{is_painting, paint, Cell, CellView, Row};
use crate::column::{heading_of, kind_name_of, TableColumn, TableError};
use crate::render::{shown_rows, table_text};
use crate::stats::{ranked_by_count, Entries, Entry, EntryView};
use crate::table::{ranked, ranks_by_width, Table, TableView};
use crossterm::style::Stylize;
use vstd::prelude::*;
use vstd::string::*;

verus! {

/// The digit character for `d`, `0 <= d <= 9`.
pub open spec fn digit_char(d: nat) -> char {
    if d == 0 {
        '0'
    } else if d == 1 {
        '1'
    } else if d == 2 {
        '2'
    } else if d == 3 {
        '3'
    } else if d == 4 {
        '4'
    } else if d == 5 {
        '5'
    } else if d == 6 {
        '6'
    } else if d == 7 {
        '7'
    } else if d == 8 {
        '8'
    } else {
        '9'
    }
}

/// `n` in decimal, without leading zeros.
pub open spec fn decimal_of(n: nat) -> Seq<char>
    decreases n,
{
    if n < 10 {
        seq![digit_char(n)]
    } else {
        decimal_of(n / 10).push(digit_char(n % 10))
    }
}

/// The digit `d` as text.
fn digit_text(d: u64) -> (r: &'static str)
    requires
        d <= 9,
    ensures
        r@ == seq![digit_char(d as nat)],
{
    if d == 0 {
        proof { reveal_strlit("0"); }
        "0"
    } else if d == 1 {
        proof { reveal_strlit("1"); }
        "1"
    } else if d == 2 {
        proof { reveal_strlit("2"); }
        "2"
    } else if d == 3 {
        proof { reveal_strlit("3"); }
        "3"
    } else if d == 4 {
        proof { reveal_strlit("4"); }
        "4"
    } else if d == 5 {
        proof { reveal_strlit("5"); }
        "5"
    } else if d == 6 {
        proof { reveal_strlit("6"); }
        "6"
    } else if d == 7 {
        proof { reveal_strlit("7"); }
        "7"
    } else if d == 8 {
        proof { reveal_strlit("8"); }
        "8"
    } else {
        proof { reveal_strlit("9"); }
        "9"
    }
}

/// `n` in decimal, without leading zeros.
fn decimal_text(n: u64) -> (r: String)
    ensures
        r@ == decimal_of(n as nat),
    decreases n,
{
    if n < 10 {
        let mut s = String::new();
        s.append(digit_text(n));
        assert(s@ =~= decimal_of(n as nat));
        s
    } else {
        let mut s = decimal_text(n / 10);
        s.append(digit_text(n % 10));
        assert(s@ =~= decimal_of(n as nat));
        s
    }
}

/// The sum of the counts of `s`.
pub open spec fn total_count(s: Seq<EntryView>) -> nat
    decreases s.len(),
{
    if s.len() == 0 {
        0
    } else {
        total_count(s.drop_last()) + s.last().count as nat
    }
}

/// The whole percent `count` is of `total`, rounded down; zero of nothing.
pub open spec fn whole_percent(count: nat, total: nat) -> nat {
    if total == 0 {
        0
    } else {
        count * 100 / total
    }
}

/// The tenths of a percent `count` is of `total`, rounded to the nearest
/// tenth (halves up); zero of nothing.
pub open spec fn tenths_percent(count: nat, total: nat) -> nat {
    if total == 0 {
        0
    } else {
        (count * 2000 + total) / (2 * total)
    }
}

/// A percentage in whole percent, as `42%`.
pub open spec fn whole_percent_text(p: nat) -> Seq<char> {
    decimal_of(p) + "%"@
}

/// A percentage in tenths of a percent, as `42.5%`.
pub open spec fn tenths_percent_text(t: nat) -> Seq<char> {
    decimal_of(t / 10) + seq!['.', digit_char(t % 10)] + "%"@
}

/// A cell of text, uncoloured.
pub open spec fn plain_cell(s: Seq<char>) -> CellView {
    CellView { content: s, color: None, append_spacer: true, truncate_for_space: false }
}

/// A bar cell: the bar for `count` of `total` drawn `bar_width` cells wide,
/// in `color`.
pub open spec fn bar_cell(count: nat, total: nat, bar_width: nat, color: crossterm::style::Color) -> CellView {
    CellView {
        content: bar_of(whole_percent(count, total), bar_width),
        color: Some(color),
        append_spacer: true,
        truncate_for_space: false,
    }
}

/// The cell that column `c` shows for entry `e`.
pub open spec fn column_cell(
    c: TableColumn,
    e: EntryView,
    total: nat,
    bar_width: nat,
    color: crossterm::style::Color,
) -> CellView {
    match c {
        TableColumn::Command => plain_cell(e.command),
        TableColumn::Count => plain_cell(decimal_of(e.count as nat)),
        TableColumn::Usage => bar_cell(e.count as nat, total, bar_width, color),
        TableColumn::Percent => plain_cell(whole_percent_text(whole_percent(e.count as nat, total))),
        TableColumn::Type => plain_cell(kind_name_of(e.kind)),
        TableColumn::Dirs => plain_cell(Seq::empty()),
    }
}

/// The table of the chosen columns: one heading per column, one row per
/// entry, in order.
pub open spec fn specified_table(
    es: Seq<EntryView>,
    cols: Seq<TableColumn>,
    bar_width: nat,
    color: crossterm::style::Color,
) -> TableView {
    TableView {
        title: None,
        headings: Seq::new(cols.len(), |j: int| heading_of(cols[j])),
        columns: cols.len(),
        rows: Seq::new(
            es.len(),
            |i: int| Seq::new(cols.len(), |j: int| column_cell(cols[j], es[i], total_count(es), bar_width, color)),
        ),
        sort_by: None,
        reverse: false,
        no_header: false,
    }
}

/// The row of the default table for entry `e`: command, count, percent to
/// a tenth, and bar.
pub open spec fn default_row(e: EntryView, total: nat, bar_width: nat, color: crossterm::style::Color) -> Seq<CellView> {
    seq![
        plain_cell(e.command),
        plain_cell(decimal_of(e.count as nat)),
        plain_cell(tenths_percent_text(tenths_percent(e.count as nat, total))),
        bar_cell(e.count as nat, total, bar_width, color),
    ]
}

/// The default table: Command, Count, Percent and Usage, one row per entry.
pub open spec fn default_table(es: Seq<EntryView>, bar_width: nat, color: crossterm::style::Color) -> TableView {
    TableView {
        title: None,
        headings: seq!["Command"@, "Count"@, "Percent"@, "Usage"@],
        columns: 4,
        rows: Seq::new(es.len(), |i: int| default_row(es[i], total_count(es), bar_width, color)),
        sort_by: None,
        reverse: false,
        no_header: false,
    }
}

/// The table before ranking: the chosen columns, or the default four where
/// none were chosen.
pub open spec fn base_table(es: Seq<EntryView>, cols: Seq<TableColumn>, bar_width: nat, color: crossterm::style::Color) -> TableView {
    if cols.len() == 0 {
        default_table(es, bar_width, color)
    } else {
        specified_table(es, cols, bar_width, color)
    }
}

/// The heading of the column to rank by: the one asked for, else `Count`.
pub open spec fn sort_heading(sort: Option<TableColumn>) -> Seq<char> {
    match sort {
        Some(c) => heading_of(c),
        None => "Count"@,
    }
}

/// Whether `k` is the first position of heading `h` in `hs`.
pub open spec fn first_heading(hs: Seq<Seq<char>>, h: Seq<char>, k: int) -> bool {
    0 <= k < hs.len() && hs[k] == h && forall|j: int| 0 <= j < k ==> hs[j] != h
}

/// Whether the ranking column `k` is the one `sort` asks for, or, where
/// none was asked for, the `Count` column if any and the first otherwise.
pub open spec fn sort_index_of(hs: Seq<Seq<char>>, sort: Option<TableColumn>, k: int) -> bool {
    if hs.contains(sort_heading(sort)) {
        first_heading(hs, sort_heading(sort), k)
    } else {
        sort is None && k == 0
    }
}

/// Whether `t` is `base` ranked: the same headings and rows, the rows
/// reordered so that each ranks no later than the next by the column that
/// `sort` picks, in direction `reverse`, with headings hidden if `no_header`.
pub open spec fn ranked_from(t: TableView, base: TableView, sort: Option<TableColumn>, reverse: bool, no_header: bool) -> bool {
    &&& t.title == base.title
    &&& t.headings == base.headings
    &&& t.columns == base.columns
    &&& t.reverse == reverse
    &&& t.no_header == no_header
    &&& t.rows.to_multiset() == base.rows.to_multiset()
    &&& match t.sort_by {
        Some(k) => sort_index_of(base.headings, sort, k as int) && ranked(t.rows, k as int, ranks_by_width(t), reverse),
        None => false,
    }
}

/// The headings of the chosen columns, or of the default four where none
/// were chosen.
pub open spec fn base_headings(cols: Seq<TableColumn>) -> Seq<Seq<char>> {
    if cols.len() == 0 {
        seq!["Command"@, "Count"@, "Percent"@, "Usage"@]
    } else {
        Seq::new(cols.len(), |j: int| heading_of(cols[j]))
    }
}

/// Relies on crossterm's `Stylize::bold` and the `Display` of the styled
/// content: the text appears whole between whatever escape sequences set
/// and reset the attribute.
#[verifier::external_body]
fn embolden(s: &str) -> (r: String)
    ensures
        is_painting(r@, s@),
{
    format!("{}", s.bold())
}

/// Text shown whole inside a painting of it is shown whole in the outer one.
proof fn lemma_painting_nests(outer: Seq<char>, inner: Seq<char>, s: Seq<char>)
    requires
        is_painting(outer, inner),
        is_painting(inner, s),
    ensures
        is_painting(outer, s),
{
    let (a, b) = choose|a: Seq<char>, b: Seq<char>| outer == a + inner + b;
    let (c, d) = choose|c: Seq<char>, d: Seq<char>| inner == c + s + d;
    assert(outer =~= (a + c) + s + (d + b));
}

/// The entries `es` ranked by count, then cut to the first `num` unless
/// `all` are wanted.
pub open spec fn prepared_entries(es: Seq<EntryView>, all: bool, num: usize) -> Seq<EntryView> {
    let r = ranked_by_count(es);
    if all || num >= r.len() {
        r
    } else {
        r.take(num as int)
    }
}

/// No entry ran more often than all entries together.
proof fn lemma_count_within_total(s: Seq<EntryView>, i: int)
    requires
        0 <= i < s.len(),
    ensures
        s[i].count <= total_count(s),
    decreases s.len(),
{
    if i < s.len() - 1 {
        lemma_count_within_total(s.drop_last(), i);
    }
}

/// A count of a total, in whole percent, is at most 100.
proof fn lemma_percent_at_most_100(count: nat, total: nat)
    requires
        count <= total,
    ensures
        whole_percent(count, total) <= 100,
        tenths_percent(count, total) <= 1000,
{
    if total > 0 {
        assert(count * 100 <= total * 100) by (nonlinear_arith)
            requires count <= total;
        vstd::arithmetic::div_mod::lemma_div_is_ordered((count * 100) as int, (total * 100) as int, total as int);
        vstd::arithmetic::div_mod::lemma_div_by_multiple(100, total as int);
        assert(count * 2000 + total <= 1000 * (2 * total) + total) by (nonlinear_arith)
            requires count <= total;
        assert((count * 2000 + total) / (2 * total) <= 1000) by (nonlinear_arith)
            requires count * 2000 + total <= 1000 * (2 * total) + total, total > 0;
    }
}

/// Which entries a table shows and how: the columns (none for the default
/// four), the column to rank by, its direction, whether to hide the
/// headings, and how many entries to keep unless all are wanted.
#[derive(Debug)]
pub struct StatsOptions {
    pub all: bool,
    pub num: usize,
    pub columns: Vec<TableColumn>,
    pub sort: Option<TableColumn>,
    pub reverse: bool,
    pub no_header: bool,
}

/// Recorded entries together with the options that present them.
#[derive(Debug)]
pub struct CmdStats {
    entries: Entries,
    options: StatsOptions,
}

/// Computes the sum of the counts of `entries`.
fn sum_counts(entries: &Entries) -> (r: u128)
    ensures
        r as nat == total_count(entries@),
        r <= 0x1_0000_0000_0000_0000_0000_0000,
{
    let mut total: u128 = 0;
    let mut i: usize = 0;
    while i < entries.len()
        invariant
            i <= entries@.len(),
            total as nat == total_count(entries@.take(i as int)),
            total <= i * 0x1_0000_0000,
        decreases entries@.len() - i,
    {
        assert(entries@.take(i + 1).drop_last() =~= entries@.take(i as int));
        total = total + entries.get(i).count() as u128;
        i = i + 1;
    }
    assert(entries@.take(i as int) =~= entries@);
    assert(total <= 0x1_0000_0000_0000_0000_0000_0000) by (nonlinear_arith)
        requires total <= i * 0x1_0000_0000, i <= usize::MAX;
    total
}

/// The cell that column `c` shows for `e`.
fn make_cell(c: TableColumn, e: &Entry, total: u128, bar_width: usize, color: crossterm::style::Color) -> (r: Cell)
    requires
        c != TableColumn::Dirs,
        e@.count <= total,
        100 * bar_width <= usize::MAX,
    ensures
        r@ == column_cell(c, e@, total as nat, bar_width as nat, color),
{
    proof {
        lemma_percent_at_most_100(e@.count as nat, total as nat);
    }
    let pct: u128 = if total == 0 {
        0
    } else {
        e.count() as u128 * 100 / total
    };
    match c {
        TableColumn::Command => Cell::new(e.command()),
        TableColumn::Count => Cell::new(decimal_text(e.count() as u64).as_str()),
        TableColumn::Usage => {
            assert(pct * bar_width <= 100 * bar_width) by (nonlinear_arith)
                requires pct <= 100;
            Cell::new(get_bar(pct as usize, bar_width).as_str()).with_color(color)
        },
        TableColumn::Percent => {
            let mut text = decimal_text(pct as u64);
            proof { reveal_strlit("%"); }
            text.append("%");
            Cell::new(text.as_str())
        },
        _ => Cell::new(e.kind().name()),
    }
}

/// The tenths of a percent as text, as `42.5%`.
fn tenths_text(t: u128) -> (r: String)
    requires
        t <= 1000,
    ensures
        r@ == tenths_percent_text(t as nat),
{
    let mut text = decimal_text((t / 10) as u64);
    let tail = decimal_text((t % 10) as u64);
    proof {
        reveal_strlit(".");
        reveal_strlit("%");
        assert(decimal_of((t % 10) as nat) == seq![digit_char((t % 10) as nat)]);
    }
    text.append(".");
    text.append(tail.as_str());
    text.append("%");
    assert(text@ =~= tenths_percent_text(t as nat));
    text
}

impl CmdStats {
    /// Entries presented with `options`.
    pub fn new(entries: Entries, options: StatsOptions) -> (r: CmdStats)
        ensures
            r.entries() == entries@,
            r.options() == options,
    {
        CmdStats { entries, options }
    }

    /// The entries.
    pub closed spec fn entries(&self) -> Seq<EntryView> {
        self.entries@
    }

    /// The options.
    pub closed spec fn options(&self) -> StatsOptions {
        self.options
    }

    /// The columns chosen.
    pub closed spec fn chosen_columns(&self) -> Seq<TableColumn> {
        self.options.columns@
    }

    /// Ranks the entries by count, most used first and entries of equal
    /// count in their order, then keeps the first `num` of them unless all
    /// are wanted.
    pub fn prepare_entries(&mut self)
        ensures
            final(self).options() == old(self).options(),
            final(self).entries() == prepared_entries(old(self).entries(), old(self).options().all, old(self).options().num),
    {
        self.entries.sort_entries();
        let ghost s = self.entries@;
        if !self.options.all {
            self.entries.prune_entries(self.options.num);
        }
        assert(self.entries@ == if self.options.all || self.options.num >= s.len() {
            s
        } else {
            s.take(self.options.num as int)
        }) by {
            if !self.options.all && self.options.num >= s.len() {
                assert(s.take(s.len() as int) =~= s);
            }
        }
    }

    /// The table of the default columns, Command, Count, Percent and Usage,
    /// with one row per entry in order; bars are `bar_width` cells wide for
    /// 100% and drawn in `bar_color`.
    pub fn get_default_table(&self, bar_color: crossterm::style::Color, bar_width: usize) -> (r: Table)
        requires
            100 * bar_width <= usize::MAX,
        ensures
            r@ == default_table(self.entries(), bar_width as nat, bar_color),
    {
        let ghost es = self.entries@;
        let total = sum_counts(&self.entries);
        proof {
            reveal_strlit("Command");
            reveal_strlit("Count");
            reveal_strlit("Percent");
            reveal_strlit("Usage");
        }
        let mut table = Table::new().with_n_columns(4).with_heading(0, "Command").with_heading(1, "Count").with_heading(
            2,
            "Percent",
        ).with_heading(3, "Usage");
        assert(table@.headings =~= seq!["Command"@, "Count"@, "Percent"@, "Usage"@]);
        assert(table@.rows =~= Seq::new(0, |k: int| default_row(es[k], total_count(es), bar_width as nat, bar_color)));
        let mut i: usize = 0;
        while i < self.entries.len()
            invariant
                es == self.entries@,
                total as nat == total_count(es),
                total <= 0x1_0000_0000_0000_0000_0000_0000,
                100 * bar_width <= usize::MAX,
                i <= es.len(),
                table@ == (TableView {
                    rows: Seq::new(i as nat, |k: int| default_row(es[k], total_count(es), bar_width as nat, bar_color)),
                    ..default_table(es, bar_width as nat, bar_color)
                }),
            decreases es.len() - i,
        {
            let e = self.entries.get(i);
            proof {
                lemma_count_within_total(es, i as int);
                lemma_percent_at_most_100(e@.count as nat, total as nat);
            }
            let tenths: u128 = if total == 0 {
                0
            } else {
                (e.count() as u128 * 2000 + total) / (2 * total)
            };
            let command_cell = make_cell(TableColumn::Command, e, total, bar_width, bar_color);
            let count_cell = make_cell(TableColumn::Count, e, total, bar_width, bar_color);
            let percent_cell = Cell::new(tenths_text(tenths).as_str());
            let usage_cell = make_cell(TableColumn::Usage, e, total, bar_width, bar_color);
            let row = Row::new().with_cell(command_cell).with_cell(count_cell).with_cell(percent_cell).with_cell(
                usage_cell,
            );
            assert(row@ =~= default_row(es[i as int], total_count(es), bar_width as nat, bar_color));
            let ghost before = table@;
            table.add_row(row);
            i = i + 1;
            assert(table@.rows =~= Seq::new(
                i as nat,
                |k: int| default_row(es[k], total_count(es), bar_width as nat, bar_color),
            ));
        }
        assert(table@.rows =~= default_table(es, bar_width as nat, bar_color).rows);
        table
    }

    /// The table of the chosen columns, one heading per column and one row
    /// per entry in order; bars are `bar_width` cells wide for 100% and drawn
    /// in `bar_color`. The directories column cannot be shown in a table.
    pub fn get_specified_table(&self, bar_color: crossterm::style::Color, bar_width: usize) -> (r: Result<Table, TableError>)
        requires
            100 * bar_width <= usize::MAX,
        ensures
            self.chosen_columns().contains(TableColumn::Dirs) ==> r == Err::<Table, TableError>(
                TableError::UnsupportedColumn(TableColumn::Dirs),
            ),
            !self.chosen_columns().contains(TableColumn::Dirs) ==> (r matches Ok(t) && t@ == specified_table(
                self.entries(),
                self.chosen_columns(),
                bar_width as nat,
                bar_color,
            )),
    {
        let ghost es = self.entries@;
        let ghost cols = self.options.columns@;
        let n = self.options.columns.len();
        let mut j: usize = 0;
        while j < n
            invariant
                n == cols.len(),
                cols == self.options.columns@,
                j <= n,
                forall|k: int| 0 <= k < j ==> cols[k] != TableColumn::Dirs,
            decreases n - j,
        {
            if self.options.columns[j] == TableColumn::Dirs {
                return Err(TableError::UnsupportedColumn(TableColumn::Dirs));
            }
            j = j + 1;
        }
        let total = sum_counts(&self.entries);
        let mut table = Table::new().with_n_columns(n);
        assert(table@.headings =~= Seq::new(0, |k: int| heading_of(cols[k])));
        assert(table@.rows =~= Seq::<Seq<CellView>>::empty());
        j = 0;
        while j < n
            invariant
                n == cols.len(),
                cols == self.options.columns@,
                j <= n,
                table@ == (TableView {
                    headings: Seq::new(j as nat, |k: int| heading_of(cols[k])),
                    rows: Seq::empty(),
                    ..specified_table(es, cols, bar_width as nat, bar_color)
                }),
            decreases n - j,
        {
            table = table.with_heading(j, self.options.columns[j].heading());
            j = j + 1;
            assert(table@.headings =~= Seq::new(j as nat, |k: int| heading_of(cols[k])));
        }
        assert(table@.rows =~= Seq::new(
            0,
            |i: int| Seq::new(cols.len(), |c: int| column_cell(cols[c], es[i], total_count(es), bar_width as nat, bar_color)),
        ));
        let mut i: usize = 0;
        while i < self.entries.len()
            invariant
                es == self.entries@,
                n == cols.len(),
                cols == self.options.columns@,
                forall|k: int| 0 <= k < n ==> cols[k] != TableColumn::Dirs,
                total as nat == total_count(es),
                100 * bar_width <= usize::MAX,
                i <= es.len(),
                table@ == (TableView {
                    rows: Seq::new(
                        i as nat,
                        |k: int| Seq::new(cols.len(), |c: int| column_cell(cols[c], es[k], total_count(es), bar_width as nat, bar_color)),
                    ),
                    ..specified_table(es, cols, bar_width as nat, bar_color)
                }),
            decreases es.len() - i,
        {
            let e = self.entries.get(i);
            proof {
                lemma_count_within_total(es, i as int);
            }
            let mut row = Row::new();
            let mut c: usize = 0;
            while c < n
                invariant
                    n == cols.len(),
                    cols == self.options.columns@,
                    forall|k: int| 0 <= k < n ==> cols[k] != TableColumn::Dirs,
                    e@.count <= total,
                    100 * bar_width <= usize::MAX,
                    c <= n,
                    row@ == Seq::new(c as nat, |k: int| column_cell(cols[k], e@, total as nat, bar_width as nat, bar_color)),
                decreases n - c,
            {
                let cell = make_cell(self.options.columns[c], e, total, bar_width, bar_color);
                row = row.with_cell(cell);
                c = c + 1;
                assert(row@ =~= Seq::new(c as nat, |k: int| column_cell(cols[k], e@, total as nat, bar_width as nat, bar_color)));
            }
            table.add_row(row);
            i = i + 1;
            assert(table@.rows =~= Seq::new(
                i as nat,
                |k: int| Seq::new(cols.len(), |c: int| column_cell(cols[c], es[k], total_count(es), bar_width as nat, bar_color)),
            ));
        }
        assert(table@.rows =~= specified_table(es, cols, bar_width as nat, bar_color).rows);
        assert(table@.headings =~= specified_table(es, cols, bar_width as nat, bar_color).headings);
        Ok(table)
    }

    /// The table of statistics, ranked: the chosen columns (the default four
    /// where none were chosen), ranked by the column asked for (else by
    /// `Count` where it is shown, else by the first), in the direction asked
    /// for, with headings hidden if asked. Ranking by a column that is not
    /// shown is an error that names it; the directories column cannot be
    /// shown in a table.
    pub fn get_entry_table(&self, bar_color: crossterm::style::Color, bar_width: usize) -> (r: Result<Table, TableError>)
        requires
            100 * bar_width <= usize::MAX,
        ensures
            ({
                let base = base_table(self.entries(), self.chosen_columns(), bar_width as nat, bar_color);
                let sort = self.options().sort;
                if self.chosen_columns().contains(TableColumn::Dirs) {
                    r == Err::<Table, TableError>(TableError::UnsupportedColumn(TableColumn::Dirs))
                } else if sort is Some && !base.headings.contains(sort_heading(sort)) {
                    r matches Err(TableError::InvalidColumnName(name)) && name@ == sort_heading(sort)
                } else {
                    r matches Ok(t) && ranked_from(t@, base, sort, self.options().reverse, self.options().no_header)
                        && crate::table::well_formed(t@)
                }
            }),
    {
        let ghost es = self.entries@;
        let ghost cols = self.options.columns@;
        let ghost base = base_table(es, cols, bar_width as nat, bar_color);
        let mut table = if self.options.columns.len() > 0 {
            match self.get_specified_table(bar_color, bar_width) {
                Ok(t) => t,
                Err(e) => {
                    return Err(e);
                },
            }
        } else {
            assert(cols =~= Seq::<TableColumn>::empty());
            self.get_default_table(bar_color, bar_width)
        };
        assert(table@ == base);
        assert(crate::table::well_formed(table@));
        let heading = match self.options.sort {
            Some(c) => c.heading(),
            None => {
                proof { reveal_strlit("Count"); }
                "Count"
            },
        };
        let k: usize = match table.find_col_idx(heading) {
            Some(k) => k,
            None => {
                if self.options.sort.is_some() {
                    return Err(TableError::InvalidColumnName(heading.to_string()));
                }
                0
            },
        };
        proof {
            if base.headings.contains(sort_heading(self.options.sort)) {
                let w = choose|w: int| 0 <= w < base.headings.len() && base.headings[w] == sort_heading(self.options.sort);
                assert(base.headings[w] == heading@);
            }
        }
        table.set_sort_column(k);
        if self.options.reverse {
            table.reverse();
        }
        table.sort();
        table.omit_header(self.options.no_header);
        Ok(table)
    }

    /// Ranks and keeps entries as `prepare_entries` does, then renders their
    /// ranked table under a `Command Statistics` title, bold and in
    /// `title_color`. Errors are those of `get_entry_table`.
    pub fn format_entries(
        &mut self,
        bar_color: crossterm::style::Color,
        title_color: crossterm::style::Color,
        bar_width: usize,
    ) -> (r: Result<String, TableError>)
        requires
            100 * bar_width <= usize::MAX,
        ensures
            final(self).options() == old(self).options(),
            final(self).entries() == prepared_entries(old(self).entries(), old(self).options().all, old(self).options().num),
            ({
                let cols = old(self).chosen_columns();
                let sort = old(self).options().sort;
                if cols.contains(TableColumn::Dirs) {
                    r == Err::<String, TableError>(TableError::UnsupportedColumn(TableColumn::Dirs))
                } else if sort is Some && !base_headings(cols).contains(sort_heading(sort)) {
                    r matches Err(TableError::InvalidColumnName(name)) && name@ == sort_heading(sort)
                } else {
                    r matches Ok(text) && exists|t: TableView, shown: Seq<Seq<Seq<char>>>|
                        crate::table::well_formed(t) && shown_rows(t, shown) && text@ == #[trigger] table_text(t, shown)
                            && ranked_from(
                            TableView { title: None, ..t },
                            base_table(final(self).entries(), cols, bar_width as nat, bar_color),
                            sort,
                            old(self).options().reverse,
                            old(self).options().no_header,
                        ) && (t.title matches Some(x) && is_painting(x, "Command Statistics"@))
                }
            }),
    {
        self.prepare_entries();
        let ghost base = base_table(self.entries@, self.options.columns@, bar_width as nat, bar_color);
        assert(base.headings =~= base_headings(self.options.columns@));
        let table = match self.get_entry_table(bar_color, bar_width) {
            Ok(t) => t,
            Err(e) => {
                return Err(e);
            },
        };
        let ghost ranked_table = table@;
        proof {
            reveal_strlit("Command Statistics");
        }
        let colored = paint("Command Statistics", title_color);
        let title = embolden(colored.as_str());
        proof {
            lemma_painting_nests(title@, colored@, "Command Statistics"@);
        }
        let table = table.with_title(title.as_str());
        assert(TableView { title: None, ..table@ } == ranked_table);
        let text = table.render();
        Ok(text)
    }
}

} // verus!
