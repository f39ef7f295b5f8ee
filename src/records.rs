//! The delimited record format of the schedule file, read and written by the
//! `csv` crate with comma delimiters, double quotes, no header handling, and
//! records of any length.

use vstd::prelude::*;

verus! {

#[verifier::external_type_specification]
#[verifier::external_body]
pub struct ExCsvError(csv::Error);

/// A parsed file: a sequence of records, each a sequence of fields.
pub type Records = Seq<Seq<Seq<char>>>;

/// Every record has at least one field.
pub open spec fn no_empty_record(recs: Records) -> bool {
    forall|i: int| 0 <= i < recs.len() ==> #[trigger] recs[i].len() > 0
}

/// The records that the `csv` reader finds in `bytes`, or `None` where it
/// reports an error.
pub uninterp spec fn csv_records(bytes: Seq<u8>) -> Option<Records>;

/// The bytes that the `csv` writer produces for `recs`.
pub uninterp spec fn csv_text(recs: Records) -> Seq<u8>;

/// Relies on `csv::ReaderBuilder::new().has_headers(false).flexible(true)
/// .from_reader` and `Reader::records`: every record of `bytes` as strings, in
/// order, whatever their lengths. Empty lines are skipped, so every record
/// has a field, and empty input holds no record.
#[verifier::external_body]
pub(crate) fn read_records(bytes: &[u8]) -> (r: Result<Vec<Vec<String>>, csv::Error>)
    ensures
        r is Ok <==> csv_records(bytes@) is Some,
        r is Ok ==> r->Ok_0.deep_view() == csv_records(bytes@)->0,
        r is Ok ==> no_empty_record(r->Ok_0.deep_view()),
        bytes@.len() == 0 ==> r is Ok && r->Ok_0@.len() == 0,
{
    let mut rdr = csv::ReaderBuilder::new().has_headers(false).flexible(true).from_reader(bytes);
    let mut raw: Vec<Vec<String>> = Vec::new();
    for result in rdr.records() {
        raw.push(result?.iter().map(|s| s.to_string()).collect());
    }
    Ok(raw)
}

/// Relies on `csv::WriterBuilder::new().flexible(true).from_writer`,
/// `Writer::write_record` and `Writer::into_inner`: the records written one
/// after another into memory. A flexible writer accepts records of any
/// length and writing into a `Vec` does not fail, so this always succeeds.
#[verifier::external_body]
pub(crate) fn write_records(recs: &Vec<Vec<String>>) -> (r: Result<Vec<u8>, csv::Error>)
    ensures
        r is Ok,
        r is Ok ==> r->Ok_0@ == csv_text(recs.deep_view()),
{
    let mut wtr = csv::WriterBuilder::new().flexible(true).from_writer(Vec::new());
    for rec in recs {
        wtr.write_record(rec)?;
    }
    match wtr.into_inner() {
        Ok(bytes) => Ok(bytes),
        Err(e) => Err(csv::Error::from(e.into_error())),
    }
}

} // verus!
