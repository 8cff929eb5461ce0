//! Tables as comma-separated text, read and written by the `csv` crate.
//!
//! Records may differ in their number of fields, on reading and on
//! writing: a short row is for the rewriting to leave out, not a reason to
//! give up the file.

use vstd::prelude::*;
use crate::table::table_texts;

verus! {

/// `csv::Error`: what the reader and the writer of the `csv` crate report.
/// Nothing is known of what is inside one.
#[verifier::external_type_specification]
#[verifier::external_body]
pub struct ExCsvError(csv::Error);

/// The records that the `csv` reader finds in a text, the header as the
/// first of them; `None` where it reports an error.
pub uninterp spec fn csv_records(data: Seq<u8>) -> Option<Seq<Seq<Seq<char>>>>;

/// The text that the `csv` writer makes of records; `None` where it
/// reports an error.
pub uninterp spec fn csv_text(table: Seq<Seq<Seq<char>>>) -> Option<Seq<u8>>;

/// `csv::Reader::records` on a reader over `data` that takes the first
/// record as a record like the others and accepts records of any length.
/// What comes back depends on `data` alone: every record in order, or the
/// first error.
#[verifier::external_body]
pub(crate) fn decode(data: &[u8]) -> (r: Result<Vec<Vec<String>>, csv::Error>)
    ensures
        match r {
            Ok(table) => csv_records(data@) == Some(table_texts(table@)),
            Err(_) => csv_records(data@) is None,
        },
{
    let mut reader = csv::ReaderBuilder::new().has_headers(false).flexible(true).from_reader(data);
    let mut table = Vec::new();
    for record in reader.records() {
        let record = record?;
        let mut row = Vec::new();
        for field in record.iter() {
            row.push(field.to_string());
        }
        table.push(row);
    }
    Ok(table)
}

/// `csv::Writer::write_record` for each row in turn, on a writer into
/// memory that accepts records of any length, and then
/// `csv::Writer::into_inner`.  What comes back depends on the rows alone:
/// the text written, or the first error.
#[verifier::external_body]
pub(crate) fn encode(table: &Vec<Vec<String>>) -> (r: Result<Vec<u8>, csv::Error>)
    ensures
        match r {
            Ok(bytes) => csv_text(table_texts(table@)) == Some(bytes@),
            Err(_) => csv_text(table_texts(table@)) is None,
        },
{
    let mut writer = csv::WriterBuilder::new().flexible(true).from_writer(Vec::new());
    for row in table.iter() {
        writer.write_record(row)?;
    }
    match writer.into_inner() {
        Ok(bytes) => Ok(bytes),
        Err(e) => Err(csv::Error::from(e.into_error())),
    }
}

/// The message of a `csv` error, as its `Display` gives it.  Nothing is
/// claimed of the text.
#[verifier::external_body]
pub(crate) fn describe(e: &csv::Error) -> (r: String) {
    e.to_string()
}

} // verus!
