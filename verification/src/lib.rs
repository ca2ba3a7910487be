//! Conversion between printable ASCII characters and their codepoints, and
//! the reference table of the printable range.

pub mod base;
pub mod cli;
pub mod convert;
pub mod numeral;
pub mod table;
pub mod text;

pub use base::Base;
pub use cli::{report, run, Cli, Mode, Report};
pub use convert::{convert, ConversionError, Convert};
pub use table::{ascii_table, table_text};
