//! The full transform pass over in-memory CSV bytes: parse with the csv
//! crate, normalize the table, render with the csv crate. File I/O stays
//! with the caller.

use vstd::prelude::*;
use vstd::pervasive::unreached;
use crate::table::{normalize_rows, normalize_rows_spec};

verus! {

#[verifier::external_type_specification]
#[verifier::external_body]
pub struct ExCsvError(csv::Error);

/// The table of records that the csv crate's comma-delimited, flexible
/// reader yields for the given bytes (every row, the header row included),
/// or nothing where reading fails; a function of the bytes alone.
pub uninterp spec fn csv_table(data: Seq<u8>) -> Option<Seq<Seq<Seq<char>>>>;

/// The bytes that the csv crate's flexible writer renders for the given
/// records, one comma-delimited line per record; a function of the records
/// alone.
pub uninterp spec fn csv_bytes(rows: Seq<Seq<Seq<char>>>) -> Seq<u8>;

/// Relies on csv::ReaderBuilder / csv::Reader::records with the flexible
/// option and no header treatment: yields every comma-delimited record of
/// the in-memory input in order, tolerating ragged rows, and fails only as
/// a function of the input bytes (in practice, on a field that is not valid
/// UTF-8).
#[verifier::external_body]
fn read_table(data: &Vec<u8>) -> (r: Result<Vec<Vec<Vec<char>>>, csv::Error>)
    ensures
        match r {
            Ok(rows) => csv_table(data@) == Some(rows.deep_view()),
            Err(_) => csv_table(data@) is None,
        },
{
    let mut rdr =
        csv::ReaderBuilder::new().has_headers(false).flexible(true).from_reader(data.as_slice());
    let mut rows = Vec::new();
    for record in rdr.records() {
        let record = record?;
        rows.push(record.iter().map(|f| f.chars().collect()).collect());
    }
    Ok(rows)
}

/// Relies on csv::WriterBuilder / csv::Writer::write_record with the
/// flexible option, writing into an in-memory buffer: renders each record
/// as one comma-delimited line, quoting fields where the dialect requires
/// it. This writer cannot fail: the flexible option turns off the only
/// record-level check (unequal lengths), and writing or flushing into an
/// in-memory `Vec<u8>` never yields an error, so the result is always `Ok`.
#[verifier::external_body]
fn write_table(rows: &Vec<Vec<Vec<char>>>) -> (r: Result<Vec<u8>, csv::Error>)
    ensures
        r is Ok,
        r matches Ok(out) ==> out@ == csv_bytes(rows.deep_view()),
{
    let mut w = csv::WriterBuilder::new().flexible(true).from_writer(Vec::new());
    for row in rows {
        let fields: Vec<String> = row.iter().map(|f| f.iter().collect()).collect();
        w.write_record(&fields)?;
    }
    w.into_inner().map_err(|e| csv::Error::from(e.into_error()))
}

/// Why a run over one input failed. File I/O stays with the caller, and
/// rendering into memory cannot fail, so reading the input as CSV is the
/// one thing that can go wrong here.
#[derive(Debug)]
pub enum ProcessError {
    /// The input bytes could not be read as CSV records.
    Parse(csv::Error),
}

/// The whole normalization pass on in-memory bytes: reads the input as
/// comma-delimited records (ragged rows permitted), keeps the first record
/// verbatim as the header, normalizes every later record column by column,
/// and renders the result in the same dialect. Succeeds, with exactly the
/// rendered normalized table, on every input the reader yields a table
/// for, and fails with `Parse` exactly where it yields none.
pub fn process_csv(input: &Vec<u8>) -> (r: Result<Vec<u8>, ProcessError>)
    ensures
        match csv_table(input@) {
            Some(rows) => r matches Ok(out) && out@ == csv_bytes(normalize_rows_spec(rows)),
            None => r matches Err(e) && e is Parse,
        },
{
    match read_table(input) {
        Ok(rows) => {
            let normalized = normalize_rows(&rows);
            match write_table(&normalized) {
                Ok(out) => Ok(out),
                Err(_) => unreached(),
            }
        },
        Err(e) => Err(ProcessError::Parse(e)),
    }
}

} // verus!
