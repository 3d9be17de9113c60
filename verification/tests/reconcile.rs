use address_sync::addresses::{create_or_update_addresses, new_addresses, AddressTable};
use address_sync::models::{AddressRecord, NewAddress};
use address_sync::reconcile::deduplicate;

fn record(postcode: &str, number: &str, lon: f32, lat: f32, street: &str) -> AddressRecord {
    AddressRecord {
        lon: lon.to_bits(),
        lat: lat.to_bits(),
        number: number.to_string(),
        street: street.to_string(),
        city: "Hoofddorp".to_string(),
        region: "Noord-Holland".to_string(),
        postcode: postcode.to_string(),
    }
}

fn columns(table: &AddressTable) -> Vec<(u128, u32, u32, String, String, String, String, String)> {
    table
        .rows()
        .iter()
        .map(|row| {
            (
                row.id,
                row.lat,
                row.lon,
                row.number.clone(),
                row.street.clone(),
                row.city.clone(),
                row.region.clone(),
                row.postcode.clone(),
            )
        })
        .collect()
}

#[test]
fn of_two_records_for_one_address_the_later_stands() {
    let batch = vec![
        record("2131CV", "1115", 4.6863255, 52.3094285, "Kruisweg"),
        record("2131CV", "1115", 4.6863538, 52.3094487, "Kruisweg"),
    ];
    let kept = deduplicate(&batch);
    assert_eq!(kept.len(), 1);
    assert_eq!(f32::from_bits(kept[0].lon), 4.6863538);
    assert_eq!(f32::from_bits(kept[0].lat), 52.3094487);
}

#[test]
fn deduplicate_keeps_the_order_of_the_batch() {
    let batch = vec![
        record("1000AA", "1", 1.0, 1.0, "first"),
        record("1000AA", "2", 2.0, 2.0, "second"),
        record("1000AA", "1", 3.0, 3.0, "third"),
        record("1000AB", "1", 4.0, 4.0, "fourth"),
        record("1000AA", "2", 5.0, 5.0, "fifth"),
    ];
    let kept: Vec<&str> = deduplicate(&batch).iter().map(|kept| kept.street.as_str()).collect();
    assert_eq!(kept, vec!["third", "fourth", "fifth"]);
}

#[test]
fn deduplicate_tells_postcode_and_number_apart() {
    let batch = vec![
        record("1000AA", "1", 1.0, 1.0, "a"),
        record("1000AA", "1A", 1.0, 1.0, "b"),
        record("1000AB", "1", 1.0, 1.0, "c"),
        record("1000aa", "1", 1.0, 1.0, "d"),
    ];
    assert_eq!(deduplicate(&batch).len(), 4);
    assert_eq!(deduplicate(&Vec::new()).len(), 0);
}

#[test]
fn new_addresses_makes_a_row_of_each_record_that_stands() {
    let batch = vec![
        record("1000AA", "1", 1.0, 2.0, "old"),
        record("1000AA", "2", 3.0, 4.0, "other"),
        record("1000AA", "1", 5.0, 6.0, "new"),
    ];
    let rows = new_addresses(&batch);
    assert_eq!(rows.len(), 2);
    assert_eq!((rows[0].street, rows[0].number, rows[0].postcode), ("other", "2", "1000AA"));
    assert_eq!((rows[1].street, rows[1].number), ("new", "1"));
    assert_eq!((rows[1].lon, rows[1].lat), (5.0f32.to_bits(), 6.0f32.to_bits()));
    assert_eq!((rows[1].city, rows[1].region), ("Hoofddorp", "Noord-Holland"));
    assert_ne!(rows[0].id, rows[1].id);
}

#[test]
fn a_batch_with_duplicates_writes_one_row_for_each_address() {
    let mut table = AddressTable::new();
    let batch = vec![
        record("2131CV", "1115", 4.6863255, 52.3094285, "Kruisweg"),
        record("2131CV", "1115", 4.6863538, 52.3094487, "Kruisweg"),
    ];
    assert_eq!(create_or_update_addresses(&mut table, &batch), 1);
    assert_eq!(table.len(), 1);
    let row = &table.rows()[0];
    assert_eq!(f32::from_bits(row.lon), 4.6863538);
    assert_eq!(f32::from_bits(row.lat), 52.3094487);
    assert_eq!((row.postcode.as_str(), row.number.as_str()), ("2131CV", "1115"));
}

#[test]
fn applying_a_batch_twice_changes_nothing() {
    let mut table = AddressTable::new();
    let batch = vec![
        record("1000AA", "1", 1.0, 2.0, "a"),
        record("1000AA", "2", 3.0, 4.0, "b"),
        record("1000AA", "1", 5.0, 6.0, "c"),
        record("1000AB", "7", 7.0, 8.0, "d"),
    ];
    assert_eq!(create_or_update_addresses(&mut table, &batch), 3);
    let once = columns(&table);
    assert_eq!(once.len(), 3);
    assert_eq!(create_or_update_addresses(&mut table, &batch), 3);
    assert_eq!(columns(&table), once);
}

#[test]
fn an_update_keeps_the_identifier_and_the_key() {
    let mut table = AddressTable::new();
    create_or_update_addresses(&mut table, &vec![record("1000AA", "1", 1.0, 2.0, "before")]);
    let id = table.rows()[0].id;
    let mut moved = record("1000AA", "1", 9.0, 8.0, "after");
    moved.city = "Elsewhere".to_string();
    moved.region = "Zeeland".to_string();
    assert_eq!(create_or_update_addresses(&mut table, &vec![moved]), 1);
    assert_eq!(table.len(), 1);
    let row = &table.rows()[0];
    assert_eq!(row.id, id);
    assert_eq!((row.postcode.as_str(), row.number.as_str()), ("1000AA", "1"));
    assert_eq!((row.lon, row.lat), (9.0f32.to_bits(), 8.0f32.to_bits()));
    assert_eq!((row.street.as_str(), row.city.as_str(), row.region.as_str()), ("after", "Elsewhere", "Zeeland"));
}

#[test]
fn upsert_writes_the_row_that_it_is_given() {
    let mut table = AddressTable::new();
    let first = NewAddress {
        id: 7,
        lat: 1,
        lon: 2,
        number: "1",
        street: "Street",
        city: "City",
        region: "Region",
        postcode: "1000AA",
    };
    table.upsert(&first);
    let second = NewAddress { id: 8, lat: 3, lon: 4, street: "Lane", ..first };
    let third = NewAddress { id: 9, number: "2", ..first };
    assert_eq!(table.upsert_all(&vec![second, third]), 2);
    let rows = table.rows();
    assert_eq!(rows.len(), 2);
    assert_eq!((rows[0].id, rows[0].lat, rows[0].lon, rows[0].street.as_str()), (7, 3, 4, "Lane"));
    assert_eq!((rows[1].id, rows[1].number.as_str(), rows[1].street.as_str()), (9, "2", "Street"));
}

#[test]
fn an_empty_batch_writes_nothing() {
    let mut table = AddressTable::new();
    assert_eq!(create_or_update_addresses(&mut table, &Vec::new()), 0);
    assert_eq!(table.len(), 0);
}

#[test]
fn a_new_row_gets_the_number_of_a_random_uuid() {
    let batch = vec![
        record("1000AA", "1", 1.0, 2.0, "a"),
        record("1000AA", "2", 3.0, 4.0, "b"),
    ];
    for row in new_addresses(&batch) {
        assert_eq!((row.id >> 76) & 0xF, 4);
        assert_eq!((row.id >> 62) & 0x3, 2);
        assert_eq!(uuid::Uuid::from_u128(row.id).get_version_num(), 4);
    }
    let mut table = AddressTable::new();
    create_or_update_addresses(&mut table, &batch);
    for row in table.rows() {
        assert_eq!(row.id & 0xF000_C000_0000_0000_0000, 0x4000_8000_0000_0000_0000);
    }
}
