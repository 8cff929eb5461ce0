//! Rewriting one file: from what was read of it to what is to be written.
//!
//! Nothing here touches a file.  The caller reads the file, or finds that
//! it is not there, and hands over what it found; it gets back the bytes to
//! write to a temporary file beside the file, which it then renames over
//! the file once every byte is written and flushed.

use vstd::prelude::*;
use vstd::string::StringExecFns;
use crate::codec::{csv_records, csv_text, decode, describe, encode};
use crate::columns::{resolved, ColumnIndex, ColumnSelector};
use crate::coordinate::COORDINATE_PRECISION;
use crate::error::{Failure, RewriteError};
use crate::table::{
    data_rows, header_of, kept_rows, law_rewrite_idempotent, rewrite_table, rewritten_table,
    skipped_rows, SkippedRow,
};

verus! {

/// What to make of a file that is not there.
#[derive(Clone, Copy, Debug, PartialEq, Eq, Structural)]
pub enum MissingFilePolicy {
    /// The file is optional: its absence is no error and nothing is done.
    Skip,
    /// The file is mandatory: its absence is an error.
    Fail,
}

/// What is to be done to one file.
#[derive(Debug)]
pub struct RewriteConfig {
    /// The name of the file within its directory.
    pub filename: String,
    /// How its coordinate columns are chosen.
    pub selector: ColumnSelector,
    /// The number of digits after the decimal point of a coordinate.
    pub precision: usize,
    /// What to make of the file where it is not there.
    pub missing: MissingFilePolicy,
}

impl RewriteConfig {
    /// A configuration for a file whose coordinates get eight decimal
    /// places.
    pub fn new(filename: String, selector: ColumnSelector, missing: MissingFilePolicy) -> (r:
        RewriteConfig)
        ensures
            r.filename == filename,
            r.selector == selector,
            r.missing == missing,
            r.precision == COORDINATE_PRECISION,
    {
        RewriteConfig { filename, selector, precision: COORDINATE_PRECISION, missing }
    }
}

/// The new content of a file with what there is to report of it.
#[derive(Debug)]
pub struct RewrittenFile {
    /// The bytes to write.
    pub bytes: Vec<u8>,
    /// The coordinate columns that were rewritten.
    pub columns: ColumnIndex,
    /// The number of rows that were rewritten.
    pub processed: usize,
    /// The rows that were left out, in their order.
    pub skipped: Vec<SkippedRow>,
}

/// What the caller is to do with a file.
#[derive(Debug)]
pub enum FileOutcome {
    /// The file is not there and need not be: nothing is to be written.
    Skipped,
    /// Write the new content to the temporary file of this name, in the
    /// directory of the file, then rename that over the file.
    Replace { temp_name: String, file: RewrittenFile },
}

/// What is appended to a file's name to name its temporary file.
pub open spec fn temp_suffix() -> Seq<char> {
    ".tmp"@
}

/// The bytes that rewriting makes of the bytes of a file, or how it fails:
/// where the bytes cannot be decoded, where the header lacks a column that
/// is asked for by name, or where the rewritten table cannot be encoded.
pub open spec fn rewritten_file(data: Seq<u8>, selector: ColumnSelector, precision: nat) -> Result<
    Seq<u8>,
    Failure,
> {
    match csv_records(data) {
        None => Err(Failure::Io),
        Some(table) => match rewritten_table(table, selector, precision) {
            Err(missing) => Err(Failure::ColumnNotFound(missing)),
            Ok(out) => match csv_text(out) {
                None => Err(Failure::Io),
                Some(bytes) => Ok(bytes),
            },
        },
    }
}

/// The rows after the header that the bytes of a file hold.
pub open spec fn file_rows(data: Seq<u8>) -> Seq<Seq<Seq<char>>> {
    data_rows(csv_records(data)->0)
}

/// The name of the temporary file for `filename`.
pub fn temp_file_name(filename: &str) -> (r: String)
    ensures
        r@ == filename@ + temp_suffix(),
{
    let mut r = String::from_str(filename);
    r.append(".tmp");
    r
}

/// Rewrites the bytes of a file: decodes them, rewrites the table, and
/// encodes the result.
pub fn rewrite_bytes(data: &[u8], selector: &ColumnSelector, precision: usize) -> (r: Result<
    RewrittenFile,
    RewriteError,
>)
    ensures
        match rewritten_file(data@, *selector, precision as nat) {
            Err(failure) => r matches Err(e) && e.kind() == failure,
            Ok(bytes) => r matches Ok(w) && w.bytes@ == bytes && ({
                let idx = resolved(header_of(csv_records(data@)->0), *selector)->Ok_0;
                &&& w.columns == idx
                &&& w.processed == kept_rows(file_rows(data@), idx).len()
                &&& w.skipped@ == skipped_rows(file_rows(data@), idx)
            }),
        },
{
    let table = match decode(data) {
        Ok(table) => table,
        Err(e) => {
            return Err(RewriteError::IoFailure(describe(&e)));
        },
    };
    let rewritten = match rewrite_table(&table, selector, precision) {
        Ok(rewritten) => rewritten,
        Err(e) => {
            return Err(e);
        },
    };
    match encode(&rewritten.table) {
        Ok(bytes) => Ok(
            RewrittenFile {
                bytes,
                columns: rewritten.columns,
                processed: rewritten.processed,
                skipped: rewritten.skipped,
            },
        ),
        Err(e) => Err(RewriteError::IoFailure(describe(&e))),
    }
}

/// Decides what is to be done to a file from what was found of it:
/// `content` holds the bytes of the file, or `None` where the file is not
/// there.
///
/// A file that is not there is passed over or is an error, as the
/// configuration says.  A file that is there is rewritten; where that
/// fails nothing is to be written, so the file stays as it is.
pub fn process_gtfs_file(content: Option<&[u8]>, config: &RewriteConfig) -> (r: Result<
    FileOutcome,
    RewriteError,
>)
    ensures
        match content {
            None => match config.missing {
                MissingFilePolicy::Skip => r matches Ok(FileOutcome::Skipped),
                MissingFilePolicy::Fail => r matches Err(RewriteError::FileNotFound),
            },
            Some(data) => match rewritten_file(data@, config.selector, config.precision as nat) {
                Err(failure) => r matches Err(e) && e.kind() == failure,
                Ok(bytes) => r matches Ok(FileOutcome::Replace { temp_name, file }) && temp_name@
                    == config.filename@ + temp_suffix() && file.bytes@ == bytes && ({
                    let idx = resolved(header_of(csv_records(data@)->0), config.selector)->Ok_0;
                    &&& file.columns == idx
                    &&& file.processed == kept_rows(file_rows(data@), idx).len()
                    &&& file.skipped@ == skipped_rows(file_rows(data@), idx)
                }),
            },
        },
{
    match content {
        None => match config.missing {
            MissingFilePolicy::Skip => Ok(FileOutcome::Skipped),
            MissingFilePolicy::Fail => Err(RewriteError::FileNotFound),
        },
        Some(data) => match rewrite_bytes(data, &config.selector, config.precision) {
            Ok(file) => Ok(
                FileOutcome::Replace { temp_name: temp_file_name(config.filename.as_str()), file },
            ),
            Err(e) => Err(e),
        },
    }
}

/// Where the bytes that rewriting gives read back as the table that they
/// were written from, rewriting them gives the same bytes again.
pub proof fn law_rewritten_file_is_stable(
    data: Seq<u8>,
    selector: ColumnSelector,
    precision: nat,
)
    ensures
        rewritten_file(data, selector, precision) matches Ok(bytes) ==> (csv_records(bytes)
            == Some(rewritten_table(csv_records(data)->0, selector, precision)->Ok_0)
            ==> rewritten_file(bytes, selector, precision) == Ok::<Seq<u8>, Failure>(bytes)),
{
    if rewritten_file(data, selector, precision) is Ok {
        law_rewrite_idempotent(csv_records(data)->0, selector, precision);
    }
}

} // verus!
