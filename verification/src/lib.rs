//! Fixed-precision normalisation of the coordinate columns of delimited
//! transit-feed tables.
//!
//! A feed file such as `stops.txt` is a comma-separated table whose first
//! row names its columns.  Rewriting it formats the latitude and the
//! longitude of every row with a fixed number of decimal places and leaves
//! everything else as it is.
//!
//! - [`coordinate`] formats one field; [`numeral`], [`fixed`] and
//!   [`digits`] hold the grammar and the decimal arithmetic beneath it.
//! - [`columns`] finds the two coordinate columns from the header.
//! - [`table`] rewrites the rows of a table.
//! - [`codec`] reads and writes tables as comma-separated text.
//! - [`rewrite`] takes the bytes of a file to the bytes that replace them.
//! - [`replace`] orders the steps by which a file is replaced.
//!
//! The library reads and writes no file itself: its caller does, and is
//! told what to do.

pub mod codec;
pub mod columns;
pub mod coordinate;
pub mod digits;
pub mod error;
pub mod fixed;
pub mod numeral;
pub mod replace;
pub mod rewrite;
pub mod table;
pub mod text;

pub use columns::{find_column_indices, resolve_columns, ColumnIndex, ColumnSelector};
pub use coordinate::{format_coordinate, format_fixed, COORDINATE_PRECISION};
pub use error::RewriteError;
pub use rewrite::{
    process_gtfs_file, rewrite_bytes, FileOutcome, MissingFilePolicy, RewriteConfig,
    RewrittenFile,
};
pub use table::{rewrite_table, transform_row, Rewritten, SkippedRow};
