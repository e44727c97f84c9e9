//! The columns a table of command statistics can show, their user-facing
//! names and aliases, and the kinds of commands the statistics record.

use vstd::prelude::*;
use vstd::string::*;

verus! {

/// What one column of a statistics table shows.
#[derive(Clone, Copy, Debug, PartialEq, Eq, Structural)]
pub enum TableColumn {
    Command,
    Count,
    Usage,
    Percent,
    Dirs,
    Type,
}

/// What can go wrong while a table of statistics is laid out.
#[derive(Debug, PartialEq, Eq)]
pub enum TableError {
    /// A column name that names no column, as the user wrote it.
    InvalidColumnName(String),
    /// A column that cannot be shown in a table.
    UnsupportedColumn(TableColumn),
}

/// What kind of thing a recorded command was.
#[derive(Clone, Copy, Debug, PartialEq, Eq, Structural)]
pub enum CmdKind {
    Alias,
    Function,
    Builtin,
    Command,
    Reserved,
    Unknown,
}

/// The text of `s` in lower case, by Unicode's case mapping.
pub uninterp spec fn lower_of(s: Seq<char>) -> Seq<char>;

/// Relies on `str::to_lowercase`: the lower-case form of the text, which
/// depends on the characters alone; empty text stays empty.
#[verifier::external_body]
fn lowercase(s: &str) -> (r: String)
    ensures
        r@ == lower_of(s@),
        s@.len() == 0 ==> r@.len() == 0,
{
    s.to_lowercase()
}

/// The column that a lower-case name or alias stands for.
pub open spec fn column_named(l: Seq<char>) -> Option<TableColumn> {
    if l == "command"@ || l == "cmd"@ {
        Some(TableColumn::Command)
    } else if l == "count"@ || l == "calls"@ {
        Some(TableColumn::Count)
    } else if l == "usage"@ || l == "bar"@ {
        Some(TableColumn::Usage)
    } else if l == "percent"@ || l == "pct"@ || l == "%"@ {
        Some(TableColumn::Percent)
    } else if l == "type"@ {
        Some(TableColumn::Type)
    } else {
        None
    }
}

/// The heading shown above a column.
pub open spec fn heading_of(c: TableColumn) -> Seq<char> {
    match c {
        TableColumn::Command => "Command"@,
        TableColumn::Count => "Count"@,
        TableColumn::Usage => "Usage"@,
        TableColumn::Percent => "Percent"@,
        TableColumn::Dirs => "Dirs"@,
        TableColumn::Type => "Type"@,
    }
}

/// Whether two pieces of text are the same characters.
pub fn same_text(a: &str, b: &str) -> (r: bool)
    ensures
        r == (a@ == b@),
{
    let n = a.unicode_len();
    if n != b.unicode_len() {
        return false;
    }
    let mut i: usize = 0;
    while i < n
        invariant
            n == a@.len(),
            n == b@.len(),
            i <= n,
            a@.subrange(0, i as int) == b@.subrange(0, i as int),
        decreases n - i,
    {
        if a.get_char(i) != b.get_char(i) {
            return false;
        }
        assert(a@.subrange(0, i + 1) =~= a@.subrange(0, i as int).push(a@[i as int]));
        assert(b@.subrange(0, i + 1) =~= b@.subrange(0, i as int).push(b@[i as int]));
        i = i + 1;
    }
    assert(a@ =~= a@.subrange(0, n as int));
    assert(b@ =~= b@.subrange(0, n as int));
    true
}

impl TableColumn {
    /// The column that a name or alias already in lower case stands for:
    /// `command`/`cmd`, `count`/`calls`, `usage`/`bar`, `percent`/`pct`/`%`,
    /// or `type`.
    pub fn from_lowercase(l: &str) -> (r: Option<TableColumn>)
        ensures
            r == column_named(l@),
    {
        proof {
            reveal_strlit("command");
            reveal_strlit("cmd");
            reveal_strlit("count");
            reveal_strlit("calls");
            reveal_strlit("usage");
            reveal_strlit("bar");
            reveal_strlit("percent");
            reveal_strlit("pct");
            reveal_strlit("%");
            reveal_strlit("type");
        }
        if same_text(l, "command") || same_text(l, "cmd") {
            Some(TableColumn::Command)
        } else if same_text(l, "count") || same_text(l, "calls") {
            Some(TableColumn::Count)
        } else if same_text(l, "usage") || same_text(l, "bar") {
            Some(TableColumn::Usage)
        } else if same_text(l, "percent") || same_text(l, "pct") || same_text(l, "%") {
            Some(TableColumn::Percent)
        } else if same_text(l, "type") {
            Some(TableColumn::Type)
        } else {
            None
        }
    }

    /// The column that a name or alias stands for, whatever its case; a name
    /// that stands for none is an error that carries it as written.
    pub fn parse(s: &str) -> (r: Result<TableColumn, TableError>)
        ensures
            column_named(lower_of(s@)) matches Some(c) ==> r == Ok::<TableColumn, TableError>(c),
            column_named(lower_of(s@)) is None ==> (r matches Err(TableError::InvalidColumnName(n))
                && n@ == s@),
    {
        let lowered = lowercase(s);
        match TableColumn::from_lowercase(lowered.as_str()) {
            Some(c) => Ok(c),
            None => Err(TableError::InvalidColumnName(s.to_string())),
        }
    }

    /// The heading shown above this column.
    pub fn heading(&self) -> (r: &'static str)
        ensures
            r@ == heading_of(*self),
    {
        match self {
            TableColumn::Command => {
                proof { reveal_strlit("Command"); }
                "Command"
            },
            TableColumn::Count => {
                proof { reveal_strlit("Count"); }
                "Count"
            },
            TableColumn::Usage => {
                proof { reveal_strlit("Usage"); }
                "Usage"
            },
            TableColumn::Percent => {
                proof { reveal_strlit("Percent"); }
                "Percent"
            },
            TableColumn::Dirs => {
                proof { reveal_strlit("Dirs"); }
                "Dirs"
            },
            TableColumn::Type => {
                proof { reveal_strlit("Type"); }
                "Type"
            },
        }
    }
}

/// The lower-case name of a kind of command.
pub open spec fn kind_name_of(k: CmdKind) -> Seq<char> {
    match k {
        CmdKind::Alias => "alias"@,
        CmdKind::Function => "function"@,
        CmdKind::Builtin => "builtin"@,
        CmdKind::Command => "command"@,
        CmdKind::Reserved => "reserved"@,
        CmdKind::Unknown => "unknown"@,
    }
}

impl CmdKind {
    /// The lower-case name of this kind.
    pub fn name(&self) -> (r: &'static str)
        ensures
            r@ == kind_name_of(*self),
    {
        match self {
            CmdKind::Alias => {
                proof { reveal_strlit("alias"); }
                "alias"
            },
            CmdKind::Function => {
                proof { reveal_strlit("function"); }
                "function"
            },
            CmdKind::Builtin => {
                proof { reveal_strlit("builtin"); }
                "builtin"
            },
            CmdKind::Command => {
                proof { reveal_strlit("command"); }
                "command"
            },
            CmdKind::Reserved => {
                proof { reveal_strlit("reserved"); }
                "reserved"
            },
            CmdKind::Unknown => {
                proof { reveal_strlit("unknown"); }
                "unknown"
            },
        }
    }
}

/// The message that reports an error to the user.
pub open spec fn message_of(e: TableError) -> Seq<char> {
    match e {
        TableError::InvalidColumnName(n) => "cmdstat: invalid column name `"@ + n@ + "'"@,
        TableError::UnsupportedColumn(c) => "cmdstat: column `"@ + heading_of(c) + "' cannot be shown in a table"@,
    }
}

impl TableError {
    /// The message that reports this error to the user, naming the column.
    pub fn message(&self) -> (r: String)
        ensures
            r@ == message_of(*self),
    {
        match self {
            TableError::InvalidColumnName(n) => {
                proof {
                    reveal_strlit("cmdstat: invalid column name `");
                    reveal_strlit("'");
                }
                let mut m = String::from_str("cmdstat: invalid column name `");
                m.append(n.as_str());
                m.append("'");
                m
            },
            TableError::UnsupportedColumn(c) => {
                proof {
                    reveal_strlit("cmdstat: column `");
                    reveal_strlit("' cannot be shown in a table");
                }
                let mut m = String::from_str("cmdstat: column `");
                m.append(c.heading());
                m.append("' cannot be shown in a table");
                m
            },
        }
    }
}

impl std::str::FromStr for TableColumn {
    type Err = String;

    fn from_str(s: &str) -> Result<TableColumn, String> {
        match TableColumn::parse(s) {
            Ok(c) => Ok(c),
            Err(e) => Err(e.message()),
        }
    }
}

} // verus!
