use cmdstat::{CmdKind, TableColumn, TableError};

#[test]
fn unknown_column_is_rejected_with_its_name() {
    assert_eq!(
        TableColumn::parse("frobnicate"),
        Err(TableError::InvalidColumnName("frobnicate".to_string()))
    );
}

#[test]
fn column_names_and_aliases_ignore_case() {
    assert_eq!(TableColumn::parse("CMD"), Ok(TableColumn::Command));
    assert_eq!(TableColumn::parse("Command"), Ok(TableColumn::Command));
    assert_eq!(TableColumn::parse("calls"), Ok(TableColumn::Count));
    assert_eq!(TableColumn::parse("Bar"), Ok(TableColumn::Usage));
    assert_eq!(TableColumn::parse("%"), Ok(TableColumn::Percent));
    assert_eq!(TableColumn::parse("PCT"), Ok(TableColumn::Percent));
    assert_eq!(TableColumn::parse("type"), Ok(TableColumn::Type));
}

#[test]
fn dirs_is_not_a_column_name() {
    assert_eq!(
        TableColumn::parse("dirs"),
        Err(TableError::InvalidColumnName("dirs".to_string()))
    );
}

#[test]
fn from_str_reports_the_message() {
    let parsed: Result<TableColumn, String> = "Nope".parse();
    assert_eq!(parsed, Err("cmdstat: invalid column name `Nope'".to_string()));
    let ok: Result<TableColumn, String> = "usage".parse();
    assert_eq!(ok, Ok(TableColumn::Usage));
}

#[test]
fn headings_name_columns() {
    assert_eq!(TableColumn::Command.heading(), "Command");
    assert_eq!(TableColumn::Count.heading(), "Count");
    assert_eq!(TableColumn::Usage.heading(), "Usage");
    assert_eq!(TableColumn::Percent.heading(), "Percent");
    assert_eq!(TableColumn::Dirs.heading(), "Dirs");
    assert_eq!(TableColumn::Type.heading(), "Type");
}

#[test]
fn unsupported_column_message_names_it() {
    assert_eq!(
        TableError::UnsupportedColumn(TableColumn::Dirs).message(),
        "cmdstat: column `Dirs' cannot be shown in a table"
    );
}

#[test]
fn kinds_have_lower_case_names() {
    assert_eq!(CmdKind::Alias.name(), "alias");
    assert_eq!(CmdKind::Function.name(), "function");
    assert_eq!(CmdKind::Builtin.name(), "builtin");
    assert_eq!(CmdKind::Command.name(), "command");
    assert_eq!(CmdKind::Reserved.name(), "reserved");
    assert_eq!(CmdKind::Unknown.name(), "unknown");
}
