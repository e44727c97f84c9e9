use cmdstat::{display_width, Cell, Row, Table};

fn one_column(heading: &str, values: &[&str]) -> Table {
    let mut table = Table::new().with_n_columns(1).with_heading(0, heading);
    for v in values {
        table.add_row(Row::new().with_cell(Cell::new(v)));
    }
    table
}

fn column_values(table: &Table) -> Vec<String> {
    (0..table.rows_len()).map(|i| table.row(i).cell(0).content().to_string()).collect()
}

#[test]
fn width_ignores_color_codes() {
    assert_eq!(display_width("\x1b[32mOK\x1b[0m"), 2);
}

#[test]
fn width_counts_wide_glyphs_twice() {
    assert_eq!(display_width("日本"), 4);
    assert_eq!(display_width("\x1b[1m日本\x1b[0m"), 4);
}

#[test]
fn width_of_empty_text_is_zero() {
    assert_eq!(display_width(""), 0);
}

#[test]
fn numeric_sort_descends_by_default() {
    let mut table = one_column("Count", &["10", "5", "20"]);
    table.set_sort_column(0);
    table.sort();
    assert_eq!(column_values(&table), vec!["20", "10", "5"]);
}

#[test]
fn numeric_sort_reversed_ascends() {
    let mut table = one_column("Count", &["10", "5", "20"]);
    table.set_sort_column(0);
    table.reverse();
    table.sort();
    assert_eq!(column_values(&table), vec!["5", "10", "20"]);
}

#[test]
fn lexical_sort_descends_by_default() {
    let mut table = one_column("Command", &["b", "a", "c"]);
    table.set_sort_column(0);
    table.sort();
    assert_eq!(column_values(&table), vec!["c", "b", "a"]);
}

#[test]
fn lexical_sort_reversed_is_forward() {
    let mut table = one_column("Command", &["b", "a", "c"]);
    table.set_sort_column(0);
    table.reverse();
    table.sort();
    assert_eq!(column_values(&table), vec!["a", "b", "c"]);
}

#[test]
fn usage_column_sorts_by_bar_width() {
    let mut table = one_column("Usage", &["█▏", "███▏", "▏"]);
    table.set_sort_column(0);
    table.sort();
    assert_eq!(column_values(&table), vec!["███▏", "█▏", "▏"]);
    table.reverse();
    table.sort();
    assert_eq!(column_values(&table), vec!["▏", "█▏", "███▏"]);
}

#[test]
fn mixed_cells_sort_as_text() {
    let mut table = one_column("Count", &["7", "x", "10"]);
    table.set_sort_column(0);
    table.sort();
    assert_eq!(table.rows_len(), 3);
    let values = column_values(&table);
    assert!(values.contains(&"x".to_string()));
}

#[test]
fn sort_without_a_chosen_column_uses_the_first() {
    let mut table = Table::new().with_n_columns(2).with_heading(0, "Command").with_heading(1, "Count");
    for (c, n) in [("ls", "3"), ("cd", "9")] {
        table.add_row(Row::new().with_cell(Cell::new(c)).with_cell(Cell::new(n)));
    }
    table.sort();
    assert_eq!(column_values(&table), vec!["ls", "cd"]);
}

#[test]
fn widths_cover_headings_and_cells() {
    let mut table = Table::new().with_n_columns(2).with_heading(0, "A").with_heading(1, "Heading");
    table.add_row(Row::new().with_cell(Cell::new("wide cell")).with_cell(Cell::new("日本")));
    assert_eq!(table.calc_cell_widths(), vec![9, 7]);
    table.omit_header(true);
    assert_eq!(table.calc_cell_widths(), vec![9, 4]);
}

#[test]
fn renders_headings_rules_and_rows() {
    let mut table = Table::new().with_n_columns(2).with_heading(0, "A").with_heading(1, "BB");
    table.add_row(Row::new().with_cell(Cell::new("x")).with_cell(Cell::new("1")));
    assert_eq!(table.render(), "A BB \n-----\nx 1  \n-----\n");
}

#[test]
fn renders_title_above_headings() {
    let mut table = Table::new().with_n_columns(2).with_heading(0, "A").with_heading(1, "BB").with_title("T");
    table.add_row(Row::new().with_cell(Cell::new("x")).with_cell(Cell::new("1")));
    assert_eq!(table.render(), "T\n-----\nA BB \n-----\nx 1  \n-----\n");
}

#[test]
fn omitted_header_hides_title_and_rules() {
    let mut table = Table::new().with_n_columns(2).with_heading(0, "A").with_heading(1, "BB").with_title("T");
    table.add_row(Row::new().with_cell(Cell::new("x")).with_cell(Cell::new("1")));
    table.omit_header(true);
    assert_eq!(table.render(), "x 1 \n");
}

#[test]
fn pads_by_display_width() {
    let mut table = Table::new().with_n_columns(1).with_heading(0, "Name");
    table.add_row(Row::new().with_cell(Cell::new("日本")));
    table.add_row(Row::new().with_cell(Cell::new("a")));
    assert_eq!(table.render(), "Name \n-----\n日本 \na    \n-----\n");
}

#[test]
fn rendering_twice_gives_the_same_text() {
    let mut table = Table::new().with_n_columns(2).with_heading(0, "Command").with_heading(1, "Count");
    table.add_row(Row::new().with_cell(Cell::new("git")).with_cell(Cell::new("12")));
    table.add_row(Row::new().with_cell(Cell::new("ls")).with_cell(Cell::new("7")));
    let first = table.render();
    let second = table.render();
    assert_eq!(first, second);
}

#[test]
fn empty_table_renders_nothing() {
    assert_eq!(Table::new().render(), "");
}

#[test]
fn headings_without_rows_still_render() {
    let table = Table::new().with_n_columns(1).with_heading(0, "Count");
    assert_eq!(table.render(), "Count \n------\n------\n");
}

#[test]
fn colored_cell_keeps_its_padded_text() {
    let mut table = Table::new().with_n_columns(1).with_heading(0, "Usage");
    table.add_row(Row::new().with_cell(Cell::new("██").with_color(crossterm::style::Color::Green)));
    let text = table.render();
    assert!(text.starts_with("Usage \n------\n"));
    assert!(text.contains("██    "));
    assert!(text.ends_with("\n------\n"));
}

#[test]
fn find_col_idx_gives_first_match() {
    let table = Table::new().with_n_columns(3).with_heading(0, "A").with_heading(1, "B").with_heading(2, "B");
    assert_eq!(table.find_col_idx("B"), Some(1));
    assert_eq!(table.find_col_idx("C"), None);
}

#[test]
fn with_heading_inserts_at_position() {
    let table = Table::new().with_n_columns(2).with_heading(0, "B").with_heading(0, "A");
    assert_eq!(table.heading(0), "A");
    assert_eq!(table.heading(1), "B");
}

#[test]
fn cell_as_number_trims_and_parses() {
    assert_eq!(Cell::new(" 42 ").as_number(), Some(42));
    assert_eq!(Cell::new("+7").as_number(), None);
    assert_eq!(Cell::new("-3").as_number(), None);
    assert_eq!(Cell::new("12.5%").as_number(), None);
    assert_eq!(Cell::new("007").as_number(), Some(7));
    assert_eq!(Cell::new("4a").as_number(), None);
    assert_eq!(Cell::new("").as_number(), None);
    assert_eq!(Cell::new("18446744073709551616").as_number(), None);
}

#[test]
fn cell_builders_keep_content() {
    let cell = Cell::new("x").append_spacer(false).truncate_for_space(true).with_color(crossterm::style::Color::Red);
    assert_eq!(cell.content(), "x");
    assert_eq!(cell.color(), Some(crossterm::style::Color::Red));
}

#[test]
fn padded_numbers_sort_as_numbers() {
    let mut table = one_column("Count", &[" 9", "10 ", "+11"]);
    table.set_sort_column(0);
    table.sort();
    // "+11" is not a number, so it ranks against the others as text.
    assert_eq!(table.rows_len(), 3);
    let mut numeric = one_column("Count", &[" 9", "10 ", "100"]);
    numeric.set_sort_column(0);
    numeric.sort();
    assert_eq!(column_values(&numeric), vec!["100", "10 ", " 9"]);
}

#[test]
fn largest_number_still_counts() {
    assert_eq!(Cell::new("18446744073709551615").as_number(), Some(u64::MAX));
    assert_eq!(Cell::new("99999999999999999999").as_number(), None);
}
