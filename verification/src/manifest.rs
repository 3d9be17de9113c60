//! The remote status document: which snapshot of the dataset is on offer.

use vstd::prelude::*;
use crate::error::{ErrorKind, RefreshError};
use crate::outside::{delimited_records, texts};
use crate::rows::{read_rows, row_texts, rows_texts};
use crate::text::{count_value, parse_count, starts_with};

verus! {

/// The beginning of the first field of the row that describes the dataset.
pub const DATASET_KEY: &'static str = "nl/countrywide.json";

/// The status document separates its fields by tabs.
pub const FIELD_DELIMITER: u8 = 9;

/// The position of the record count in a row of the status document.
pub const COUNT_FIELD: usize = 4;

/// The position of the archive's address.
pub const URL_FIELD: usize = 8;

/// The position of the archive's content hash.
pub const HASH_FIELD: usize = 10;

/// The position of the snapshot's version.
pub const VERSION_FIELD: usize = 15;

/// One snapshot of the dataset, as the status document describes it.
#[derive(Debug)]
pub struct StateInfo {
    pub url: String,
    pub hash: String,
    pub version: String,
    pub address_count: usize,
}

/// What a [`StateInfo`] holds.
pub struct StateInfoView {
    pub url: Seq<char>,
    pub hash: Seq<char>,
    pub version: Seq<char>,
    pub address_count: nat,
}

impl View for StateInfo {
    type V = StateInfoView;

    open spec fn view(&self) -> StateInfoView {
        StateInfoView {
            url: self.url@,
            hash: self.hash@,
            version: self.version@,
            address_count: self.address_count as nat,
        }
    }
}

/// Whether a row describes the dataset: its first field begins with
/// [`DATASET_KEY`].
pub open spec fn names_dataset(fields: Seq<Seq<char>>) -> bool {
    fields.len() > 0 && DATASET_KEY@.is_prefix_of(fields[0])
}

/// The snapshot that a row describes, where the row has all the fields
/// and its count can be read.
pub open spec fn entry_of(fields: Seq<Seq<char>>) -> Option<StateInfoView> {
    if fields.len() > VERSION_FIELD && count_value(fields[COUNT_FIELD as int]) is Some {
        Some(
            StateInfoView {
                url: fields[URL_FIELD as int],
                hash: fields[HASH_FIELD as int],
                version: fields[VERSION_FIELD as int],
                address_count: count_value(fields[COUNT_FIELD as int])->0,
            },
        )
    } else {
        None
    }
}

/// Whether the scan of the document ends at this row: the row could not
/// be read, or it describes the dataset.
pub open spec fn decides(row: Option<Seq<Seq<char>>>) -> bool {
    match row {
        None => true,
        Some(fields) => names_dataset(fields),
    }
}

/// The position of the first row at or after `from` at which the scan
/// ends, or the number of rows if there is none.
pub open spec fn first_deciding(rows: Seq<Option<Seq<Seq<char>>>>, from: int) -> int
    decreases rows.len() - from,
{
    if from < 0 || from >= rows.len() {
        rows.len() as int
    } else if decides(rows[from]) {
        from
    } else {
        first_deciding(rows, from + 1)
    }
}

/// What a row at which the scan ends gives.
pub open spec fn decision(row: Option<Seq<Seq<char>>>) -> Result<Option<StateInfoView>, ErrorKind> {
    match row {
        None => Err(ErrorKind::InvalidData),
        Some(fields) => match entry_of(fields) {
            Some(entry) => Ok(Some(entry)),
            None => Err(ErrorKind::InvalidData),
        },
    }
}

/// What the rows of a status document say of the dataset: the snapshot of
/// the first row that describes it; nothing if no row does; a data error
/// if a row before that one cannot be read, or if that row is short of
/// fields or its count is no number.
pub open spec fn manifest_entry(rows: Seq<Option<Seq<Seq<char>>>>) -> Result<
    Option<StateInfoView>,
    ErrorKind,
> {
    let at = first_deciding(rows, 0);
    if at >= rows.len() {
        Ok(None)
    } else {
        decision(rows[at])
    }
}

/// The outcome of a scan, by its view.
pub open spec fn outcome_view(outcome: Result<Option<StateInfo>, RefreshError>) -> Result<
    Option<StateInfoView>,
    ErrorKind,
> {
    match outcome {
        Ok(Some(info)) => Ok(Some(info@)),
        Ok(None) => Ok(None),
        Err(error) => Err(error.kind()),
    }
}

/// Where the scan of `rows` ends at row `at`, the document gives what
/// that row gives: the scan never looks past the first row that names the
/// dataset or cannot be read.
pub proof fn lemma_scan_ends_at_first(rows: Seq<Option<Seq<Seq<char>>>>, at: int)
    requires
        0 <= at < rows.len(),
        decides(rows[at]),
        forall|i: int| 0 <= i < at ==> !decides(#[trigger] rows[i]),
    ensures
        manifest_entry(rows) == decision(rows[at]),
{
    lemma_first_deciding(rows, 0, at);
}

/// Where every row can be read and none names the dataset, the document
/// gives nothing, and only then.
pub proof fn lemma_no_entry(rows: Seq<Option<Seq<Seq<char>>>>)
    ensures
        manifest_entry(rows) == Ok::<Option<StateInfoView>, ErrorKind>(None) <==> forall|i: int|
            0 <= i < rows.len() ==> !decides(#[trigger] rows[i]),
{
    lemma_first_deciding_is_first(rows, 0);
    let at = first_deciding(rows, 0);
    if at < rows.len() {
        assert(decides(rows[at]));
    } else {
        assert forall|i: int| 0 <= i < rows.len() implies !decides(#[trigger] rows[i]) by {}
    }
}

proof fn lemma_first_deciding(rows: Seq<Option<Seq<Seq<char>>>>, from: int, at: int)
    requires
        0 <= from <= at < rows.len(),
        decides(rows[at]),
        forall|i: int| from <= i < at ==> !decides(#[trigger] rows[i]),
    ensures
        first_deciding(rows, from) == at,
    decreases at - from,
{
    if from < at {
        lemma_first_deciding(rows, from + 1, at);
    }
}

proof fn lemma_first_deciding_is_first(rows: Seq<Option<Seq<Seq<char>>>>, from: int)
    requires
        0 <= from,
    ensures
        from <= first_deciding(rows, from) || first_deciding(rows, from) == rows.len(),
        first_deciding(rows, from) <= rows.len(),
        first_deciding(rows, from) < rows.len() ==> decides(rows[first_deciding(rows, from)]),
        forall|i: int| from <= i < first_deciding(rows, from) ==> !decides(#[trigger] rows[i]),
    decreases rows.len() - from,
{
    if from < rows.len() && !decides(rows[from]) {
        lemma_first_deciding_is_first(rows, from + 1);
    }
}

/// Reads the snapshot that a row describes.
fn read_entry(fields: &Vec<String>) -> (result: Result<Option<StateInfo>, RefreshError>)
    ensures
        outcome_view(result) == decision(Some(texts(fields@))),
{
    if fields.len() <= VERSION_FIELD {
        return Err(RefreshError::InvalidData("the row of the dataset is short of fields".to_owned()));
    }
    match parse_count(fields[COUNT_FIELD].as_str()) {
        Some(address_count) => Ok(
            Some(
                StateInfo {
                    url: fields[URL_FIELD].clone(),
                    hash: fields[HASH_FIELD].clone(),
                    version: fields[VERSION_FIELD].clone(),
                    address_count,
                },
            ),
        ),
        None => Err(RefreshError::InvalidData("the record count is not a number".to_owned())),
    }
}

/// Scans the rows of a status document, in order, for the row of the
/// dataset, and reads the snapshot that it describes.
pub fn select_state_info(rows: &Vec<Result<Vec<String>, String>>) -> (result: Result<
    Option<StateInfo>,
    RefreshError,
>)
    ensures
        outcome_view(result) == manifest_entry(rows_texts(rows@)),
{
    let ghost read = rows_texts(rows@);
    let mut at: usize = 0;
    while at < rows.len()
        invariant
            at <= rows.len(),
            read == rows_texts(rows@),
            forall|i: int| 0 <= i < at ==> !decides(#[trigger] read[i]),
        decreases rows.len() - at,
    {
        assert(read[at as int] == row_texts(rows@[at as int]));
        match &rows[at] {
            Err(complaint) => {
                proof {
                    lemma_scan_ends_at_first(read, at as int);
                }
                return Err(RefreshError::InvalidData(complaint.clone()));
            },
            Ok(fields) => {
                if fields.len() > 0 && starts_with(fields[0].as_str(), DATASET_KEY) {
                    proof {
                        lemma_scan_ends_at_first(read, at as int);
                    }
                    return read_entry(fields);
                }
            },
        }
        at += 1;
    }
    proof {
        lemma_no_entry(read);
    }
    Ok(None)
}

/// Reads a status document and returns the snapshot of the dataset that
/// it describes, if it describes one.
pub fn get_state_info(response: &[u8]) -> (result: Result<Option<StateInfo>, RefreshError>)
    ensures
        outcome_view(result) == manifest_entry(delimited_records(response@, FIELD_DELIMITER)),
{
    let rows = read_rows(response, FIELD_DELIMITER);
    select_state_info(&rows)
}

} // verus!
