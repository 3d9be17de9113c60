//! Delimited text read into rows of fields.

use vstd::prelude::*;
use crate::outside::{delimited_records, read_records, texts};

verus! {

/// The fields of a row that was read, `None` for a row that was not.
pub open spec fn row_texts(row: Result<Vec<String>, String>) -> Option<Seq<Seq<char>>> {
    match row {
        Ok(fields) => Some(texts(fields@)),
        Err(_) => None,
    }
}

/// [`row_texts`] of each row.
pub open spec fn rows_texts(rows: Seq<Result<Vec<String>, String>>) -> Seq<Option<Seq<Seq<char>>>> {
    Seq::new(rows.len(), |i: int| row_texts(rows[i]))
}

/// Reads `data` as delimited text and returns its records after the
/// header line, in order. A record that cannot be read stands as `Err`
/// with the reader's complaint; reading goes on after it.
pub fn read_rows(data: &[u8], delimiter: u8) -> (rows: Vec<Result<Vec<String>, String>>)
    ensures
        rows_texts(rows@) == delimited_records(data@, delimiter),
{
    let records = read_records(data, delimiter);
    let ghost read = records@;
    let mut rows: Vec<Result<Vec<String>, String>> = Vec::new();
    for record in it: records
        invariant
            it.seq() == read,
            rows.len() == it.index(),
            forall|i: int|
                0 <= i < rows.len() ==> (#[trigger] row_texts(rows@[i])) == (match read[i] {
                    Ok(fields) => Some(texts(fields@)),
                    Err(_) => None,
                }),
    {
        let row = match record {
            Ok(fields) => Ok(fields),
            Err(complaint) => Err(complaint.to_string()),
        };
        rows.push(row);
    }
    assert(rows_texts(rows@) =~= delimited_records(data@, delimiter));
    rows
}

} // verus!
