//! Aligned terminal tables of command-usage statistics: display width of
//! styled text, proportional usage bars, column names, and a table that
//! measures, ranks and renders its rows.

pub mod bar;
pub mod cell;
pub mod color;
pub mod column;
pub mod render;
pub mod report;
pub mod stats;
pub mod table;
pub mod width;

pub use bar::{bar_width, get_bar};
pub use cell::{Cell, Row};
pub use column::{CmdKind, TableColumn, TableError};
pub use report::{CmdStats, StatsOptions};
pub use stats::{Entries, Entry};
pub use table::Table;
pub use width::display_width;
