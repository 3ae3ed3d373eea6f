//! Merging and converting plain-text tables: a typed cell model, a rectangular table with
//! horizontal and vertical merges, per-column decoration rules and a set of text codecs.
pub mod text;
pub mod range;
pub mod cli;
pub mod format;
pub mod cell;
pub mod table;
pub mod error;
pub mod render;
pub mod dat;
pub mod delimited;
pub mod json;
pub mod matrix;
pub mod markdown;
pub mod latex;

pub use cell::Cell;
pub use cli::{parse_file_path, parse_fix, Args, DecimalSeparator, OutTypes, ParseFixError};
pub use error::{ParseMTableError, ParseTableError};
pub use format::FormatOptions;
pub use range::{AnyRange, ParseAnyRangeError};
pub use table::Table;
pub mod number;
