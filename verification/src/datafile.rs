//! The data file of the archive: delimited text with a header line, one
//! record of the dataset on each line after it.
//!
//! The file is read whole: [`read_data_file`] holds every row in memory
//! before the first record is made, and a row that cannot be read stands
//! among the others as an error, to be met when its turn comes.
//!
//! The columns are found by the names of the header, whatever the case of
//! their letters. The two coordinate columns hold decimal numbers; reading
//! such a number is left to the caller, who hands in the bit pattern of
//! each, or nothing where the text is no number.

use vstd::prelude::*;
use crate::archive::{locate_data_file, located};
use crate::error::{ErrorKind, RefreshError};
use crate::models::{AddressRecord, AddressRecordView};
use crate::outside::{delimited_header, delimited_records, read_header, texts};
use crate::rows::{read_rows, row_texts, rows_texts};
use crate::text::{eq_ignore_case, fold};

verus! {

/// The data file separates its fields by commas.
pub const RECORD_DELIMITER: u8 = 44;

/// Where in a row each field of a record stands.
#[derive(Clone, Copy, Debug, PartialEq, Eq, Structural)]
pub struct Columns {
    pub lon: usize,
    pub lat: usize,
    pub number: usize,
    pub street: usize,
    pub city: usize,
    pub region: usize,
    pub postcode: usize,
}

/// Whether a field of the header names the column `name`.
pub open spec fn names_column(field: Seq<char>, name: Seq<char>) -> bool {
    fold(field) == fold(name)
}

/// Whether the column `name` stands at position `at` of the header: the
/// field there names it and no other field does.
pub open spec fn column_at(header: Seq<Seq<char>>, name: Seq<char>, at: int) -> bool {
    &&& 0 <= at < header.len()
    &&& names_column(header[at], name)
    &&& forall|other: int|
        0 <= other < header.len() && other != at ==> !names_column(#[trigger] header[other], name)
}

/// Whether `columns` gives the place of every column in the header.
pub open spec fn columns_fit(header: Seq<Seq<char>>, columns: Columns) -> bool {
    &&& column_at(header, "LON"@, columns.lon as int)
    &&& column_at(header, "LAT"@, columns.lat as int)
    &&& column_at(header, "NUMBER"@, columns.number as int)
    &&& column_at(header, "STREET"@, columns.street as int)
    &&& column_at(header, "CITY"@, columns.city as int)
    &&& column_at(header, "REGION"@, columns.region as int)
    &&& column_at(header, "POSTCODE"@, columns.postcode as int)
}

/// Finds the column `name` in the header. There is none where no field
/// names it, and none where two do.
pub fn find_column(header: &Vec<String>, name: &str) -> (found: Option<usize>)
    ensures
        match found {
            Some(at) => column_at(texts(header@), name@, at as int),
            None => forall|at: int| !column_at(texts(header@), name@, at),
        },
{
    let ghost fields = texts(header@);
    let mut found: Option<usize> = None;
    let mut at: usize = 0;
    while at < header.len()
        invariant
            at <= header.len(),
            fields == texts(header@),
            match found {
                Some(first) => first < at && names_column(fields[first as int], name@)
                    && forall|other: int|
                    0 <= other < at && other != first ==> !names_column(
                        #[trigger] fields[other],
                        name@,
                    ),
                None => forall|other: int|
                    0 <= other < at ==> !names_column(#[trigger] fields[other], name@),
            },
        decreases header.len() - at,
    {
        assert(fields[at as int] == header@[at as int]@);
        if eq_ignore_case(header[at].as_str(), name) {
            match found {
                Some(first) => {
                    assert forall|place: int| !column_at(fields, name@, place) by {
                        if column_at(fields, name@, place) {
                            if place == first {
                                assert(!names_column(fields[at as int], name@));
                            } else {
                                assert(!names_column(fields[first as int], name@));
                            }
                        }
                    }
                    return None;
                },
                None => {
                    found = Some(at);
                },
            }
        }
        at += 1;
    }
    proof {
        if found is None {
            assert forall|place: int| !column_at(fields, name@, place) by {
                if column_at(fields, name@, place) {
                    assert(!names_column(fields[place], name@));
                }
            }
        }
    }
    found
}

/// Finds every column of a record in the header, or nothing where one
/// of them is missing or named twice.
pub fn find_columns(header: &Vec<String>) -> (found: Option<Columns>)
    ensures
        match found {
            Some(columns) => columns_fit(texts(header@), columns),
            None => forall|columns: Columns| !columns_fit(texts(header@), columns),
        },
{
    let lon = find_column(header, "LON");
    let lat = find_column(header, "LAT");
    let number = find_column(header, "NUMBER");
    let street = find_column(header, "STREET");
    let city = find_column(header, "CITY");
    let region = find_column(header, "REGION");
    let postcode = find_column(header, "POSTCODE");
    match (lon, lat, number, street, city, region, postcode) {
        (
            Some(lon),
            Some(lat),
            Some(number),
            Some(street),
            Some(city),
            Some(region),
            Some(postcode),
        ) => Some(Columns { lon, lat, number, street, city, region, postcode }),
        _ => None,
    }
}

/// Whether a row has a field for every column.
pub open spec fn row_fits(fields: Seq<Seq<char>>, columns: Columns) -> bool {
    &&& columns.lon < fields.len()
    &&& columns.lat < fields.len()
    &&& columns.number < fields.len()
    &&& columns.street < fields.len()
    &&& columns.city < fields.len()
    &&& columns.region < fields.len()
    &&& columns.postcode < fields.len()
}

/// The record that a row holds, with the coordinates `lon` and `lat`.
pub open spec fn record_of(fields: Seq<Seq<char>>, columns: Columns, lon: u32, lat: u32) -> AddressRecordView {
    AddressRecordView {
        lon,
        lat,
        number: fields[columns.number as int],
        street: fields[columns.street as int],
        city: fields[columns.city as int],
        region: fields[columns.region as int],
        postcode: fields[columns.postcode as int],
    }
}

/// The record of a row of the data file, or nothing where the row is
/// malformed: the header does not give the columns, the row could not be
/// read or is short of fields, or a coordinate is no number.
pub open spec fn row_record(
    columns: Option<Columns>,
    row: Option<Seq<Seq<char>>>,
    coordinates: Option<(u32, u32)>,
) -> Option<AddressRecordView> {
    match (columns, row, coordinates) {
        (Some(columns), Some(fields), Some((lon, lat))) => if row_fits(fields, columns) {
            Some(record_of(fields, columns, lon, lat))
        } else {
            None
        },
        _ => None,
    }
}

/// The texts of the two coordinates of a row, longitude first, where
/// the row has them.
pub open spec fn row_coordinates(columns: Option<Columns>, row: Option<Seq<Seq<char>>>) -> Option<
    (Seq<char>, Seq<char>),
> {
    match (columns, row) {
        (Some(columns), Some(fields)) => if columns.lon < fields.len() && columns.lat
            < fields.len() {
            Some((fields[columns.lon as int], fields[columns.lat as int]))
        } else {
            None
        },
        _ => None,
    }
}

/// A data file that has been read: the columns that its header gives,
/// and its rows in order.
#[derive(Debug)]
pub struct DataFile {
    pub columns: Option<Columns>,
    pub rows: Vec<Result<Vec<String>, String>>,
}

/// The columns that a header gives; none where the header could not be
/// read.
pub open spec fn header_columns(header: Option<Seq<Seq<char>>>, columns: Option<Columns>) -> bool {
    match (header, columns) {
        (Some(fields), Some(found)) => columns_fit(fields, found),
        (Some(fields), None) => forall|any: Columns| !columns_fit(fields, any),
        (None, found) => found is None,
    }
}

/// Reads the content of a data file: the header for the columns, and
/// the rows after it.
pub fn read_data_file(content: &[u8]) -> (file: DataFile)
    ensures
        header_columns(delimited_header(content@, RECORD_DELIMITER), file.columns),
        rows_texts(file.rows@) == delimited_records(content@, RECORD_DELIMITER),
{
    let columns = match read_header(content, RECORD_DELIMITER) {
        Ok(header) => find_columns(&header),
        Err(_) => None,
    };
    DataFile { columns, rows: read_rows(content, RECORD_DELIMITER) }
}

/// Opens the archive, finds the data file in it and reads it.
pub fn open_data_file(archive: Vec<u8>) -> (result: Result<DataFile, RefreshError>)
    ensures
        match result {
            Ok(file) => located(archive@) matches Ok(content) && header_columns(
                delimited_header(content, RECORD_DELIMITER),
                file.columns,
            ) && rows_texts(file.rows@) == delimited_records(content, RECORD_DELIMITER),
            Err(error) => located(archive@) == Err::<Seq<u8>, ErrorKind>(
                error.kind(),
            ),
        },
{
    let content = locate_data_file(archive)?;
    Ok(read_data_file(content.as_slice()))
}

impl DataFile {
    /// The number of rows.
    pub fn len(&self) -> (count: usize)
        ensures
            count == self.rows@.len(),
    {
        self.rows.len()
    }

    /// The texts of the coordinates of row `row`, longitude first, for
    /// the caller to read as numbers. There are none where the row is out
    /// of range or malformed.
    pub fn coordinate_texts(&self, row: usize) -> (pair: Option<(&str, &str)>)
        ensures
            match pair {
                Some((lon, lat)) => row < self.rows@.len() && row_coordinates(
                    self.columns,
                    row_texts(self.rows@[row as int]),
                ) == Some((lon@, lat@)),
                None => row >= self.rows@.len() || row_coordinates(
                    self.columns,
                    row_texts(self.rows@[row as int]),
                ) is None,
            },
    {
        if row >= self.rows.len() {
            return None;
        }
        match (&self.columns, &self.rows[row]) {
            (Some(columns), Ok(fields)) => {
                if columns.lon < fields.len() && columns.lat < fields.len() {
                    Some((fields[columns.lon].as_str(), fields[columns.lat].as_str()))
                } else {
                    None
                }
            },
            _ => None,
        }
    }

    /// The record of row `row`, with the coordinates that the caller
    /// read from it, longitude first. A malformed row, one whose
    /// coordinates are no numbers and a position beyond the last row give
    /// a data error.
    pub fn record(&self, row: usize, coordinates: Option<(u32, u32)>) -> (result: Result<
        AddressRecord,
        RefreshError,
    >)
        ensures
            match result {
                Ok(record) => row < self.rows@.len() && row_record(
                    self.columns,
                    row_texts(self.rows@[row as int]),
                    coordinates,
                ) == Some(record@),
                Err(error) => error.kind() == ErrorKind::InvalidData && (row >= self.rows@.len()
                    || row_record(self.columns, row_texts(self.rows@[row as int]), coordinates)
                    is None),
            },
    {
        if row >= self.rows.len() {
            return Err(RefreshError::InvalidData("there is no such row".to_owned()));
        }
        let columns = match &self.columns {
            Some(columns) => columns,
            None => {
                return Err(
                    RefreshError::InvalidData(
                        "the header does not name each column once".to_owned(),
                    ),
                );
            },
        };
        let fields = match &self.rows[row] {
            Ok(fields) => fields,
            Err(complaint) => {
                return Err(RefreshError::InvalidData(complaint.clone()));
            },
        };
        let (lon, lat) = match coordinates {
            Some(pair) => pair,
            None => {
                return Err(RefreshError::InvalidData("a coordinate is not a number".to_owned()));
            },
        };
        if !(columns.lon < fields.len() && columns.lat < fields.len() && columns.number
            < fields.len() && columns.street < fields.len() && columns.city < fields.len()
            && columns.region < fields.len() && columns.postcode < fields.len()) {
            return Err(RefreshError::InvalidData("the row is short of fields".to_owned()));
        }
        Ok(
            AddressRecord {
                lon,
                lat,
                number: fields[columns.number].clone(),
                street: fields[columns.street].clone(),
                city: fields[columns.city].clone(),
                region: fields[columns.region].clone(),
                postcode: fields[columns.postcode].clone(),
            },
        )
    }
}

} // verus!
