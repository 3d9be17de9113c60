use address_sync::error::{ErrorKind, RefreshError};
use address_sync::manifest::{
    get_state_info, select_state_info, StateInfo, COUNT_FIELD, DATASET_KEY, HASH_FIELD, URL_FIELD,
    VERSION_FIELD,
};

const WIDTH: usize = 16;

fn line(source: &str, count: &str, url: &str, hash: &str, version: &str) -> String {
    let mut fields = vec![String::new(); WIDTH];
    fields[0] = source.to_string();
    fields[COUNT_FIELD] = count.to_string();
    fields[URL_FIELD] = url.to_string();
    fields[HASH_FIELD] = hash.to_string();
    fields[VERSION_FIELD] = version.to_string();
    fields.join("\t")
}

fn header() -> String {
    let names: Vec<String> = (0..WIDTH).map(|i| format!("h{}", i)).collect();
    names.join("\t")
}

fn document(lines: &[String]) -> Vec<u8> {
    let mut text = header();
    for line in lines {
        text.push('\n');
        text.push_str(line);
    }
    text.push('\n');
    text.into_bytes()
}

fn kind(result: Result<Option<StateInfo>, RefreshError>) -> ErrorKind {
    match result {
        Err(error) => error.kind(),
        Ok(found) => panic!("no error, but {:?}", found),
    }
}

#[test]
fn the_dataset_key_is_the_countrywide_source() {
    assert_eq!(DATASET_KEY, "nl/countrywide.json");
    assert_eq!((COUNT_FIELD, URL_FIELD, HASH_FIELD, VERSION_FIELD), (4, 8, 10, 15));
}

#[test]
fn get_state_info_reads_the_row_of_the_dataset() {
    let bytes = document(&[
        line("be/flanders.json", "3", "http://x/be.zip", "aa", "1"),
        line("nl/countrywide.json", "9578772", "http://x/nl.zip", "0123abcd", "20200112"),
        line("us/ny.json", "5", "http://x/ny.zip", "bb", "2"),
    ]);
    let info = get_state_info(&bytes).unwrap().unwrap();
    assert_eq!(info.address_count, 9578772);
    assert_eq!(info.url, "http://x/nl.zip");
    assert_eq!(info.hash, "0123abcd");
    assert_eq!(info.version, "20200112");
}

#[test]
fn get_state_info_takes_the_first_row_that_matches() {
    let bytes = document(&[
        line("nl/countrywide.json", "1", "first", "h1", "v1"),
        line("nl/countrywide.json", "2", "second", "h2", "v2"),
    ]);
    let info = get_state_info(&bytes).unwrap().unwrap();
    assert_eq!(info.url, "first");
    assert_eq!(info.address_count, 1);
}

#[test]
fn get_state_info_matches_the_beginning_of_the_first_field() {
    let bytes = document(&[
        line("xnl/countrywide.json", "1", "inside", "h", "v"),
        line("nl/countrywide.json-extra", "2", "prefix", "h", "v"),
    ]);
    assert_eq!(get_state_info(&bytes).unwrap().unwrap().url, "prefix");
}

#[test]
fn get_state_info_does_not_look_for_the_key_in_other_fields() {
    let mut fields = vec![String::new(); WIDTH];
    fields[0] = "nl".to_string();
    fields[1] = "/countrywide.json".to_string();
    fields[COUNT_FIELD] = "1".to_string();
    let bytes = document(&[fields.join("\t")]);
    assert!(get_state_info(&bytes).unwrap().is_none());
}

#[test]
fn get_state_info_without_the_dataset_gives_nothing() {
    let bytes = document(&[line("be/flanders.json", "3", "u", "h", "v")]);
    assert!(get_state_info(&bytes).unwrap().is_none());
    assert!(get_state_info(&document(&[])).unwrap().is_none());
    assert!(get_state_info(b"").unwrap().is_none());
}

#[test]
fn get_state_info_skips_the_header_line() {
    let mut text = line("nl/countrywide.json", "1", "in the header", "h", "v");
    text.push('\n');
    assert!(get_state_info(text.as_bytes()).unwrap().is_none());
}

#[test]
fn get_state_info_with_a_count_that_is_no_number_is_invalid_data() {
    for count in ["", "many", "12.5", "-3"] {
        let bytes = document(&[line("nl/countrywide.json", count, "u", "h", "v")]);
        assert_eq!(kind(get_state_info(&bytes)), ErrorKind::InvalidData, "{:?}", count);
    }
}

#[test]
fn get_state_info_stops_at_a_row_that_cannot_be_read() {
    let bytes = document(&[
        "too\tshort".to_string(),
        line("nl/countrywide.json", "1", "u", "h", "v"),
    ]);
    assert_eq!(kind(get_state_info(&bytes)), ErrorKind::InvalidData);
}

#[test]
fn get_state_info_does_not_read_past_the_row_of_the_dataset() {
    let bytes = document(&[
        line("nl/countrywide.json", "1", "u", "h", "v"),
        "too\tshort".to_string(),
    ]);
    assert_eq!(get_state_info(&bytes).unwrap().unwrap().url, "u");
}

#[test]
fn get_state_info_with_a_short_row_of_the_dataset_is_invalid_data() {
    let bytes = b"a\tb\tc\nnl/countrywide.json\t1\t2\n".to_vec();
    assert_eq!(kind(get_state_info(&bytes)), ErrorKind::InvalidData);
}

#[test]
fn select_state_info_scans_the_rows_in_order() {
    let row = |text: String| -> Result<Vec<String>, String> {
        Ok(text.split('\t').map(|field| field.to_string()).collect())
    };
    let rows = vec![
        row(line("be/flanders.json", "3", "u0", "h0", "v0")),
        row(line("nl/countrywide.json", "+25", "u1", "h1", "v1")),
        Err("not looked at".to_string()),
    ];
    let info = select_state_info(&rows).unwrap().unwrap();
    assert_eq!(info.address_count, 25);
    assert_eq!(info.version, "v1");

    let rows = vec![
        row(line("be/flanders.json", "3", "u0", "h0", "v0")),
        Err("unreadable".to_string()),
        row(line("nl/countrywide.json", "25", "u1", "h1", "v1")),
    ];
    match select_state_info(&rows) {
        Err(RefreshError::InvalidData(detail)) => assert_eq!(detail, "unreadable"),
        other => panic!("{:?}", other),
    }

    let rows = vec![row(line("be/flanders.json", "3", "u0", "h0", "v0")), Ok(vec![])];
    assert!(select_state_info(&rows).unwrap().is_none());
    assert!(select_state_info(&Vec::new()).unwrap().is_none());
}
