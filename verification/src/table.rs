//! Reading and writing comma-separated tables through the `csv` crate.
//!
//! Both the AltSound csv and the PUP tables are read the same way: the first
//! line is the header, and rows may have any number of fields.

use vstd::prelude::*;

use crate::text::{is_trim_of, trim_keeps_the_inner_text, trim_spec};

verus! {

/// Field `col` of a row, trimmed; empty when the row is too short to have it.
pub open spec fn field_text(row: Seq<Seq<char>>, col: int) -> Seq<char> {
    if 0 <= col < row.len() {
        trim_spec(row[col])
    } else {
        seq![]
    }
}

/// A field is read as written, with only the white space at its ends cut
/// away; a row too short to have it reads as empty.
pub proof fn field_text_is_the_field_trimmed(row: Seq<Seq<char>>, col: int)
    ensures
        0 <= col < row.len() ==> is_trim_of(field_text(row, col), row[col]),
        !(0 <= col < row.len()) ==> field_text(row, col).len() == 0,
{
    if 0 <= col < row.len() {
        trim_keeps_the_inner_text(row[col]);
    }
}

/// The `csv` crate's error, carried through unopened.
#[verifier::external_type_specification]
#[verifier::external_body]
pub struct ExCsvError(csv::Error);

/// The header row of a csv document as the `csv` crate reads it, or `None`
/// when it cannot be read.
pub uninterp spec fn csv_header_row(bytes: Seq<u8>) -> Option<Seq<Seq<char>>>;

/// The rows after the header of a csv document, each a list of fields, as the
/// `csv` crate reads them with varying row lengths allowed, or `None` when a
/// row cannot be read.
pub uninterp spec fn csv_data_rows(bytes: Seq<u8>) -> Option<Seq<Seq<Seq<char>>>>;

/// The bytes the `csv` crate writes for a header row followed by rows, with
/// its default writer settings, or `None` when it refuses them.
pub uninterp spec fn csv_document(header: Seq<Seq<char>>, rows: Seq<Seq<Seq<char>>>) -> Option<
    Seq<u8>,
>;

/// `csv::Reader::headers` on a reader over `bytes` that allows rows of any
/// length: the first row, field by field. The contract claims that the outcome
/// depends on the bytes alone, through `csv_header_row`.
#[verifier::external_body]
pub(crate) fn read_header_row(bytes: &[u8]) -> (header: Result<Vec<String>, csv::Error>)
    ensures
        match header {
            Ok(h) => csv_header_row(bytes@) == Some(h.deep_view()),
            Err(_) => csv_header_row(bytes@) is None,
        },
{
    let mut reader = csv::ReaderBuilder::new().flexible(true).from_reader(bytes);
    Ok(reader.headers()?.iter().map(String::from).collect())
}

/// `csv::Reader::records` on a reader over `bytes` that allows rows of any
/// length, collected until the first error. The contract claims that the
/// outcome depends on the bytes alone, through `csv_data_rows`.
#[verifier::external_body]
pub(crate) fn read_data_rows(bytes: &[u8]) -> (rows: Result<Vec<Vec<String>>, csv::Error>)
    ensures
        match rows {
            Ok(r) => csv_data_rows(bytes@) == Some(r.deep_view()),
            Err(_) => csv_data_rows(bytes@) is None,
        },
{
    let mut reader = csv::ReaderBuilder::new().flexible(true).from_reader(bytes);
    let mut rows = Vec::new();
    for record in reader.records() {
        rows.push(record?.iter().map(String::from).collect());
    }
    Ok(rows)
}

/// `csv::Writer::write_record` for the header and then each row, on a default
/// writer over a buffer, and `into_inner` to get the bytes back. The contract
/// claims that the outcome depends on the rows alone, through `csv_document`.
#[verifier::external_body]
pub(crate) fn write_document(header: &[String], rows: &[Vec<String>]) -> (bytes: Result<
    Vec<u8>,
    csv::Error,
>)
    ensures
        match bytes {
            Ok(b) => csv_document(header.deep_view(), rows.deep_view()) == Some(b@),
            Err(_) => csv_document(header.deep_view(), rows.deep_view()) is None,
        },
{
    let mut writer = csv::Writer::from_writer(Vec::new());
    writer.write_record(header)?;
    for row in rows {
        writer.write_record(row)?;
    }
    match writer.into_inner() {
        Ok(buffer) => Ok(buffer),
        Err(e) => Err(csv::Error::from(e.into_error())),
    }
}

} // verus!
