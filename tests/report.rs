use cmdstat::{CmdKind, CmdStats, Entries, Entry, StatsOptions, TableColumn, TableError};
use crossterm::style::Color;

fn entry(command: &str, count: u32, kind: CmdKind) -> Entry {
    Entry::new(command.to_string(), count, kind, vec![])
}

fn entries(list: &[(&str, u32)]) -> Entries {
    Entries::new(list.iter().map(|(c, n)| entry(c, *n, CmdKind::Command)).collect())
}

fn commands(e: &Entries) -> Vec<String> {
    (0..e.len()).map(|i| e.get(i).command().to_string()).collect()
}

fn options(columns: Vec<TableColumn>, sort: Option<TableColumn>) -> StatsOptions {
    StatsOptions { all: true, num: 20, columns, sort, reverse: false, no_header: false }
}

fn cells(table: &cmdstat::Table, row: usize) -> Vec<String> {
    let r = table.row(row);
    (0..r.len()).map(|j| r.cell(j).content().to_string()).collect()
}

#[test]
fn entries_sort_by_count_descending() {
    let mut e = entries(&[("a", 3), ("b", 9), ("c", 1), ("d", 5)]);
    e.sort_entries();
    assert_eq!(commands(&e), vec!["b", "d", "a", "c"]);
}

#[test]
fn prune_keeps_the_first_entries() {
    let mut e = entries(&[("a", 3), ("b", 9), ("c", 1)]);
    e.prune_entries(2);
    assert_eq!(commands(&e), vec!["a", "b"]);
    e.prune_entries(5);
    assert_eq!(commands(&e), vec!["a", "b"]);
}

#[test]
fn retain_keeps_listed_commands_in_order() {
    let mut e = entries(&[("git", 3), ("ls", 9), ("cd", 1), ("vim", 4)]);
    let wanted = vec!["vim".to_string(), "git".to_string()];
    e.retain_entries(|ent: &Entry| wanted.iter().any(|w| w == ent.command()));
    assert_eq!(commands(&e), vec!["git", "vim"]);
}

#[test]
fn prepare_sorts_then_prunes() {
    let e = entries(&[("a", 3), ("b", 9), ("c", 1), ("d", 5)]);
    let mut opts = options(vec![], None);
    opts.all = false;
    opts.num = 2;
    let mut stats = CmdStats::new(e, opts);
    stats.prepare_entries();
    let table = stats.get_default_table(Color::Green, 10);
    assert_eq!(table.rows_len(), 2);
    assert_eq!(table.row(0).cell(0).content(), "b");
    assert_eq!(table.row(1).cell(0).content(), "d");
}

#[test]
fn default_table_has_four_columns() {
    let stats = CmdStats::new(entries(&[("git", 3), ("ls", 1)]), options(vec![], None));
    let table = stats.get_default_table(Color::Green, 8);
    assert_eq!(table.column_count(), 4);
    assert_eq!(table.heading(0), "Command");
    assert_eq!(table.heading(3), "Usage");
    assert_eq!(cells(&table, 0), vec!["git", "3", "75.0%", "██████▏"]);
    assert_eq!(cells(&table, 1), vec!["ls", "1", "25.0%", "██▏"]);
    assert_eq!(table.row(0).cell(3).color(), Some(Color::Green));
    assert_eq!(table.row(0).cell(0).color(), None);
}

#[test]
fn default_table_rounds_percent_to_a_tenth() {
    let stats = CmdStats::new(entries(&[("a", 1), ("b", 2)]), options(vec![], None));
    let table = stats.get_default_table(Color::Green, 10);
    assert_eq!(table.row(0).cell(2).content(), "33.3%");
    assert_eq!(table.row(1).cell(2).content(), "66.7%");
}

#[test]
fn specified_table_follows_the_chosen_columns() {
    let e = Entries::new(vec![entry("ll", 2, CmdKind::Alias), entry("cd", 6, CmdKind::Builtin)]);
    let stats = CmdStats::new(
        e,
        options(vec![TableColumn::Type, TableColumn::Command, TableColumn::Percent, TableColumn::Count], None),
    );
    let table = stats.get_specified_table(Color::Blue, 10).unwrap();
    assert_eq!(table.heading(0), "Type");
    assert_eq!(table.heading(2), "Percent");
    assert_eq!(cells(&table, 0), vec!["alias", "ll", "25%", "2"]);
    assert_eq!(cells(&table, 1), vec!["builtin", "cd", "75%", "6"]);
}

#[test]
fn dirs_column_is_unsupported() {
    let stats = CmdStats::new(entries(&[("a", 1)]), options(vec![TableColumn::Command, TableColumn::Dirs], None));
    assert_eq!(
        stats.get_specified_table(Color::Green, 10).err(),
        Some(TableError::UnsupportedColumn(TableColumn::Dirs))
    );
    assert_eq!(
        stats.get_entry_table(Color::Green, 10).err(),
        Some(TableError::UnsupportedColumn(TableColumn::Dirs))
    );
}

#[test]
fn entry_table_ranks_by_count_by_default() {
    let stats = CmdStats::new(entries(&[("a", 3), ("b", 9), ("c", 1)]), options(vec![], None));
    let table = stats.get_entry_table(Color::Green, 10).unwrap();
    let order: Vec<String> = (0..3).map(|i| table.row(i).cell(0).content().to_string()).collect();
    assert_eq!(order, vec!["b", "a", "c"]);
}

#[test]
fn entry_table_ranks_by_the_chosen_column() {
    let mut opts = options(vec![TableColumn::Command, TableColumn::Count], Some(TableColumn::Command));
    opts.reverse = true;
    let stats = CmdStats::new(entries(&[("b", 3), ("c", 9), ("a", 1)]), opts);
    let table = stats.get_entry_table(Color::Green, 10).unwrap();
    let order: Vec<String> = (0..3).map(|i| table.row(i).cell(0).content().to_string()).collect();
    assert_eq!(order, vec!["a", "b", "c"]);
}

#[test]
fn ranking_by_a_hidden_column_is_an_error() {
    let stats = CmdStats::new(entries(&[("a", 1)]), options(vec![TableColumn::Command], Some(TableColumn::Count)));
    assert_eq!(
        stats.get_entry_table(Color::Green, 10).err(),
        Some(TableError::InvalidColumnName("Count".to_string()))
    );
}

#[test]
fn format_entries_renders_a_titled_table() {
    let mut opts = options(vec![TableColumn::Command, TableColumn::Count], None);
    opts.no_header = false;
    let mut stats = CmdStats::new(entries(&[("ls", 1), ("git", 12)]), opts);
    let text = stats.format_entries(Color::Green, Color::Cyan, 10).unwrap();
    assert!(text.contains("Command Statistics"));
    assert!(text.ends_with("Command Count \n--------------\ngit     12    \nls      1     \n--------------\n"));
}

#[test]
fn format_entries_without_header_is_just_rows() {
    let mut opts = options(vec![TableColumn::Command, TableColumn::Count], None);
    opts.no_header = true;
    let mut stats = CmdStats::new(entries(&[("ls", 1), ("git", 12)]), opts);
    assert_eq!(stats.format_entries(Color::Green, Color::Cyan, 10).unwrap(), "git 12 \nls  1  \n");
}

#[test]
fn top_dirs_lists_at_most_ten_most_used_first() {
    let dirs: Vec<(String, u32)> = (1..=12).map(|i| (format!("/d{i}"), i)).collect();
    let e = Entry::new("git".to_string(), 78, CmdKind::Command, dirs);
    let top = e.top_dirs();
    assert_eq!(top.len(), 10);
    assert_eq!(top[0], ("/d12".to_string(), 12));
    assert_eq!(top[9], ("/d3".to_string(), 3));
}

#[test]
fn top_dirs_of_few_directories() {
    let e = Entry::new("ls".to_string(), 5, CmdKind::Alias, vec![("/a".to_string(), 1), ("/b".to_string(), 4)]);
    assert_eq!(e.top_dirs(), vec![("/b".to_string(), 4), ("/a".to_string(), 1)]);
}

#[test]
fn title_and_bars_are_styled() {
    let mut stats = CmdStats::new(entries(&[("ls", 1)]), options(vec![], None));
    let text = stats.format_entries(Color::Green, Color::Cyan, 10).unwrap();
    assert!(text.starts_with("\x1b["));
    assert!(text.contains("Command Statistics\x1b["));
}

#[test]
fn equal_counts_keep_their_order() {
    let mut e = entries(&[("a", 2), ("b", 5), ("c", 2), ("d", 5), ("e", 2)]);
    e.sort_entries();
    assert_eq!(commands(&e), vec!["b", "d", "a", "c", "e"]);
}

#[test]
fn pruning_after_a_tie_keeps_the_earlier_entries() {
    let mut opts = options(vec![], None);
    opts.all = false;
    opts.num = 2;
    let mut stats = CmdStats::new(entries(&[("x", 1), ("p", 4), ("q", 4), ("r", 4)]), opts);
    stats.prepare_entries();
    let table = stats.get_default_table(Color::Green, 10);
    assert_eq!(table.rows_len(), 2);
    assert_eq!(table.row(0).cell(0).content(), "p");
    assert_eq!(table.row(1).cell(0).content(), "q");
}

#[test]
fn bar_rest_rounding_to_a_whole_cell_in_a_table() {
    // 97 of 100 runs on a 2-cell bar: 1.94 cells end on a full block.
    let stats = CmdStats::new(entries(&[("a", 97), ("b", 3)]), options(vec![TableColumn::Usage], None));
    let table = stats.get_specified_table(Color::Green, 2).unwrap();
    assert_eq!(table.row(0).cell(0).content(), "██");
    assert_eq!(table.row(1).cell(0).content(), "▏");
}
