use address_sync::datafile::{find_column, find_columns, read_data_file, Columns};
use address_sync::error::{ErrorKind, RefreshError};
use address_sync::models::AddressRecord;

fn names(header: &[&str]) -> Vec<String> {
    header.iter().map(|name| name.to_string()).collect()
}

fn kind(result: Result<AddressRecord, RefreshError>) -> ErrorKind {
    match result {
        Err(error) => error.kind(),
        Ok(found) => panic!("no error, but {:?}", found),
    }
}

fn bits(lon: f32, lat: f32) -> Option<(u32, u32)> {
    Some((lon.to_bits(), lat.to_bits()))
}

#[test]
fn find_column_takes_the_name_in_any_case() {
    let header = names(&["lon", "Lat", "NUMBER"]);
    assert_eq!(find_column(&header, "LON"), Some(0));
    assert_eq!(find_column(&header, "LAT"), Some(1));
    assert_eq!(find_column(&header, "number"), Some(2));
}

#[test]
fn find_column_finds_no_column_that_is_missing_or_named_twice() {
    let header = names(&["LON", "LAT", "lon"]);
    assert_eq!(find_column(&header, "STREET"), None);
    assert_eq!(find_column(&header, "LON"), None);
    assert_eq!(find_column(&Vec::new(), "LON"), None);
}

#[test]
fn find_columns_gives_the_place_of_each_column() {
    let header = names(&["postcode", "region", "city", "street", "number", "lat", "lon", "hash"]);
    assert_eq!(
        find_columns(&header),
        Some(Columns { lon: 6, lat: 5, number: 4, street: 3, city: 2, region: 1, postcode: 0 })
    );
}

#[test]
fn find_columns_needs_every_column() {
    assert_eq!(find_columns(&names(&["LON", "LAT", "NUMBER", "STREET", "CITY", "REGION"])), None);
    assert_eq!(
        find_columns(&names(&["LON", "LAT", "NUMBER", "STREET", "CITY", "REGION", "POSTCODE", "LAT"])),
        None
    );
}

#[test]
fn read_data_file_makes_a_record_of_each_row() {
    let file = read_data_file(
        b"LON,LAT,NUMBER,STREET,UNIT,CITY,DISTRICT,REGION,POSTCODE,ID,HASH\n\
4.6863255,52.3094285,1115,Kruisweg,,Hoofddorp,,Noord-Holland,2131CV,,7c3c022a3d3d5f99\n\
4.6863538,52.3094487,1115,\"Kruisweg, noord\",,Hoofddorp,,Noord-Holland,2131CV,,857b39c71594b270\n",
    );
    assert_eq!(file.len(), 2);
    assert_eq!(file.coordinate_texts(1), Some(("4.6863538", "52.3094487")));
    let record = file.record(1, bits(4.6863538, 52.3094487)).unwrap();
    assert_eq!(f32::from_bits(record.lon), 4.6863538);
    assert_eq!(f32::from_bits(record.lat), 52.3094487);
    assert_eq!(record.number, "1115");
    assert_eq!(record.street, "Kruisweg, noord");
    assert_eq!(record.city, "Hoofddorp");
    assert_eq!(record.region, "Noord-Holland");
    assert_eq!(record.postcode, "2131CV");
    assert_eq!(file.record(0, bits(4.6863255, 52.3094285)).unwrap().street, "Kruisweg");
}

#[test]
fn read_data_file_takes_the_header_in_any_case_and_order() {
    let file = read_data_file(b"Postcode,number,Street,city,region,lat,lon\n2222AA,2A,Street,City,Region,3.0,2.0\n");
    assert_eq!(file.coordinate_texts(0), Some(("2.0", "3.0")));
    let record = file.record(0, bits(2.0, 3.0)).unwrap();
    assert_eq!((record.postcode.as_str(), record.number.as_str()), ("2222AA", "2A"));
    assert_eq!((f32::from_bits(record.lon), f32::from_bits(record.lat)), (2.0, 3.0));
}

#[test]
fn a_row_whose_coordinates_are_no_numbers_is_invalid_data() {
    let file = read_data_file(b"LON,LAT,NUMBER,STREET,CITY,REGION,POSTCODE\neast,north,1,S,C,R,2222AA\n");
    assert_eq!(file.coordinate_texts(0), Some(("east", "north")));
    assert_eq!(kind(file.record(0, None)), ErrorKind::InvalidData);
}

#[test]
fn a_row_of_another_length_is_invalid_data() {
    let file = read_data_file(
        b"LON,LAT,NUMBER,STREET,CITY,REGION,POSTCODE\n1.0,2.0,1,S,C,R\n1.0,2.0,2,S,C,R,2222AA\n",
    );
    assert_eq!(file.len(), 2);
    assert_eq!(file.coordinate_texts(0), None);
    assert_eq!(kind(file.record(0, bits(1.0, 2.0))), ErrorKind::InvalidData);
    assert_eq!(file.record(1, bits(1.0, 2.0)).unwrap().number, "2");
}

#[test]
fn a_file_without_a_column_has_no_records() {
    let file = read_data_file(b"LON,LAT,NUMBER,STREET,CITY,REGION\n1.0,2.0,1,S,C,R\n");
    assert!(file.columns.is_none());
    assert_eq!(file.coordinate_texts(0), None);
    assert_eq!(kind(file.record(0, bits(1.0, 2.0))), ErrorKind::InvalidData);
}

#[test]
fn a_row_beyond_the_last_is_invalid_data() {
    let file = read_data_file(b"LON,LAT,NUMBER,STREET,CITY,REGION,POSTCODE\n");
    assert_eq!(file.len(), 0);
    assert_eq!(file.coordinate_texts(0), None);
    assert_eq!(kind(file.record(0, bits(1.0, 2.0))), ErrorKind::InvalidData);
}
