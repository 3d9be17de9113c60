use std::io::{Cursor, Write};

use address_sync::addresses::AddressTable;
use address_sync::datafile::{open_data_file, DataFile};
use address_sync::import::{refresh_data, Download};
use address_sync::error::{ErrorKind, RefreshError};
use address_sync::manifest::StateInfo;
use address_sync::models::{NewState, State};
use address_sync::refresh::{
    get_data_status, refresh_state, DataStatus, RefreshAction, RefreshEvent, RefreshState,
};
use address_sync::states::{current_state, StateLog};
use zip::write::FileOptions;
use zip::ZipWriter;

fn offer(version: &str) -> StateInfo {
    StateInfo {
        url: "http://x/nl.zip".to_string(),
        hash: "0123abcd".to_string(),
        version: version.to_string(),
        address_count: 3,
    }
}

fn local(version: &str) -> State {
    State { id: 1, hash: "old".to_string(), version: version.to_string(), processed_at: 100 }
}

fn status(state_info: Option<StateInfo>, current_state: Option<State>) -> RefreshEvent {
    RefreshEvent::StatusKnown(DataStatus { state_info, current_state })
}

fn checking() -> RefreshState {
    let (state, action) = refresh_state(RefreshState::Idle, RefreshEvent::Started);
    assert!(matches!(action, RefreshAction::Check));
    state
}

fn archive_with(name: &str, content: &str) -> Vec<u8> {
    let mut writer = ZipWriter::new(Cursor::new(Vec::new()));
    writer.start_file(name, FileOptions::default()).unwrap();
    writer.write_all(content.as_bytes()).unwrap();
    writer.finish().unwrap().into_inner()
}

fn read(file: DataFile) -> Download {
    let coordinates = (0..file.len())
        .map(|row| {
            let (lon, lat) = file.coordinate_texts(row)?;
            Some((lon.parse::<f32>().ok()?.to_bits(), lat.parse::<f32>().ok()?.to_bits()))
        })
        .collect();
    Download { file, coordinates }
}

fn download(name: &str, content: &str) -> Result<Download, RefreshError> {
    open_data_file(archive_with(name, content)).map(read)
}

const DATA: &str = "LON,LAT,NUMBER,STREET,CITY,REGION,POSTCODE\n\
4.5,52.1,1,Street,City,Region,2222AA\n\
4.6,52.2,2,Street,City,Region,2222AA\n";

fn log_with(version: &str) -> StateLog {
    let mut log = StateLog::new();
    log.append(&NewState { id: 1, hash: "old", version, processed_at: 100 });
    log
}

fn manifest(version: &str) -> Vec<u8> {
    let mut header = vec!["h"; 16].join("\t");
    let mut fields = vec![""; 16];
    fields[0] = "nl/countrywide.json";
    fields[4] = "3";
    fields[8] = "http://x/nl.zip";
    fields[10] = "0123abcd";
    fields[15] = version;
    header.push('\n');
    header.push_str(&fields.join("\t"));
    header.push('\n');
    header.into_bytes()
}

#[test]
fn a_refresh_begins_by_checking() {
    assert_eq!(checking(), RefreshState::Checking);
}

#[test]
fn without_an_entry_and_without_local_state_the_refresh_is_fatal() {
    let (state, action) = refresh_state(checking(), status(None, None));
    assert_eq!(state, RefreshState::Fatal);
    assert!(matches!(action, RefreshAction::Abort));
}

#[test]
fn with_the_version_of_the_local_state_the_refresh_is_up_to_date() {
    let (state, action) =
        refresh_state(checking(), status(Some(offer("20200112")), Some(local("20200112"))));
    assert_eq!(state, RefreshState::UpToDate);
    assert!(matches!(action, RefreshAction::Serve));
    let (state, action) = refresh_state(state, RefreshEvent::Imported);
    assert_eq!(state, RefreshState::UpToDate);
    assert!(matches!(action, RefreshAction::Wait));
}

#[test]
fn an_archive_without_the_data_file_leaves_the_local_state() {
    let mut writer = ZipWriter::new(Cursor::new(Vec::new()));
    writer.start_file("README.txt", FileOptions::default()).unwrap();
    writer.write_all(b"no data here").unwrap();
    let archive = writer.finish().unwrap().into_inner();

    let mut log = StateLog::new();
    log.append(&NewState { id: 1, hash: "old", version: "20190101", processed_at: 100 });
    let table = AddressTable::new();

    let found = get_data_status(Some(&manifest("20200112")), current_state(&log));
    let (state, action) = refresh_state(checking(), RefreshEvent::StatusKnown(found));
    assert_eq!(state, RefreshState::Importing { fallback: true });
    assert!(matches!(action, RefreshAction::Import(_)));

    let error = open_data_file(archive).unwrap_err();
    assert!(matches!(error, RefreshError::FileNotFound));
    assert_eq!(error.kind(), ErrorKind::FileNotFound);
    let (state, action) = refresh_state(state, RefreshEvent::ImportFailed(error));
    assert_eq!(state, RefreshState::Fallback);
    assert!(matches!(action, RefreshAction::Serve));
    assert_eq!(log.len(), 1);
    assert_eq!(log.entries()[0].version, "20190101");
    assert_eq!(table.len(), 0);
}

#[test]
fn without_an_entry_the_local_state_is_served() {
    let (state, action) = refresh_state(checking(), status(None, Some(local("20190101"))));
    assert_eq!(state, RefreshState::Fallback);
    assert!(matches!(action, RefreshAction::Serve));
}

#[test]
fn another_version_is_imported() {
    let (state, action) =
        refresh_state(checking(), status(Some(offer("20200112")), Some(local("20190101"))));
    assert_eq!(state, RefreshState::Importing { fallback: true });
    match action {
        RefreshAction::Import(info) => {
            assert_eq!(info.version, "20200112");
            assert_eq!(info.url, "http://x/nl.zip");
            assert_eq!(info.hash, "0123abcd");
            assert_eq!(info.address_count, 3);
        }
        other => panic!("{:?}", other),
    }
    let (state, action) = refresh_state(state, RefreshEvent::Imported);
    assert_eq!(state, RefreshState::Committed);
    assert!(matches!(action, RefreshAction::Serve));
}

#[test]
fn the_first_import_has_nothing_to_fall_back_on() {
    let (state, action) = refresh_state(checking(), status(Some(offer("20200112")), None));
    assert_eq!(state, RefreshState::Importing { fallback: false });
    assert!(matches!(action, RefreshAction::Import(_)));
    let failure = RefreshEvent::ImportFailed(RefreshError::Network("timed out".to_string()));
    let (state, action) = refresh_state(state, failure);
    assert_eq!(state, RefreshState::Fatal);
    assert!(matches!(action, RefreshAction::Abort));
}

#[test]
fn an_import_that_fails_falls_back_on_the_local_state() {
    for error in [
        RefreshError::Network("timed out".to_string()),
        RefreshError::InvalidZip("bad".to_string()),
        RefreshError::InvalidData("bad".to_string()),
        RefreshError::FileNotFound,
        RefreshError::Storage("bad".to_string()),
    ] {
        let (state, action) = refresh_state(
            RefreshState::Importing { fallback: true },
            RefreshEvent::ImportFailed(error),
        );
        assert_eq!(state, RefreshState::Fallback);
        assert!(matches!(action, RefreshAction::Serve));
    }
}

#[test]
fn an_event_out_of_turn_changes_nothing() {
    let (state, action) = refresh_state(RefreshState::Idle, RefreshEvent::Imported);
    assert_eq!(state, RefreshState::Idle);
    assert!(matches!(action, RefreshAction::Wait));
    let (state, action) = refresh_state(RefreshState::Checking, RefreshEvent::Started);
    assert_eq!(state, RefreshState::Checking);
    assert!(matches!(action, RefreshAction::Wait));
    for ended in
        [RefreshState::UpToDate, RefreshState::Committed, RefreshState::Fallback, RefreshState::Fatal]
    {
        let (state, action) = refresh_state(ended, status(Some(offer("1")), None));
        assert_eq!(state, ended);
        assert!(matches!(action, RefreshAction::Wait));
    }
}

#[test]
fn get_data_status_reads_the_document_and_the_log() {
    let mut log = StateLog::new();
    log.append(&NewState { id: 1, hash: "old", version: "20190101", processed_at: 100 });
    log.append(&NewState { id: 2, hash: "new", version: "20190601", processed_at: 200 });
    let found = get_data_status(Some(&manifest("20200112")), current_state(&log));
    assert_eq!(found.state_info.unwrap().version, "20200112");
    assert_eq!(found.current_state.unwrap().version, "20190601");
}

#[test]
fn get_data_status_takes_a_failed_fetch_as_nothing_new() {
    let found = get_data_status(None, current_state(&StateLog::new()));
    assert!(found.state_info.is_none());
    assert!(found.current_state.is_none());
}

#[test]
fn get_data_status_takes_an_unreadable_document_as_nothing_new() {
    let mut document = manifest("20200112");
    let at = document.windows(3).position(|window| window == b"\t3\t").unwrap();
    document[at + 1] = b'x';
    let found = get_data_status(Some(&document), Some(local("20190101")));
    assert!(found.state_info.is_none());
    assert_eq!(found.current_state.unwrap().version, "20190101");
}

#[test]
fn a_refresh_without_an_entry_and_without_local_state_is_fatal() {
    let mut table = AddressTable::new();
    let mut log = StateLog::new();
    let document = b"h0\th1\nbe/flanders.json\tx\n".to_vec();
    let state =
        refresh_data(&mut table, &mut log, Some(&document), download("nl/countrywide.csv", DATA));
    assert_eq!(state, RefreshState::Fatal);
    let state = refresh_data(&mut table, &mut log, None, download("nl/countrywide.csv", DATA));
    assert_eq!(state, RefreshState::Fatal);
    assert_eq!((table.len(), log.len()), (0, 0));
}

#[test]
fn a_refresh_of_data_that_is_up_to_date_writes_nothing() {
    let mut table = AddressTable::new();
    let mut log = log_with("20200112");
    let state = refresh_data(
        &mut table,
        &mut log,
        Some(&manifest("20200112")),
        download("nl/countrywide.csv", DATA),
    );
    assert_eq!(state, RefreshState::UpToDate);
    assert_eq!((table.len(), log.len()), (0, 1));
    assert_eq!(log.entries()[0].id, 1);
}

#[test]
fn a_refresh_whose_archive_lacks_the_data_file_keeps_the_local_state() {
    let mut table = AddressTable::new();
    let mut log = log_with("20190101");
    let lacking = download("README.txt", "no data here");
    assert!(matches!(lacking, Err(RefreshError::FileNotFound)));
    let state = refresh_data(&mut table, &mut log, Some(&manifest("20200112")), lacking);
    assert_eq!(state, RefreshState::Fallback);
    assert_eq!((table.len(), log.len()), (0, 1));
    assert_eq!(current_state(&log).unwrap().version, "20190101");
}

#[test]
fn a_refresh_of_stale_data_imports_and_records_the_snapshot() {
    let mut table = AddressTable::new();
    let mut log = log_with("20190101");
    let state = refresh_data(
        &mut table,
        &mut log,
        Some(&manifest("20200112")),
        download("nl/countrywide.csv", DATA),
    );
    assert_eq!(state, RefreshState::Committed);
    assert_eq!((table.len(), log.len()), (2, 2));
    assert_eq!(log.entries()[1].version, "20200112");
    assert_eq!(log.entries()[1].hash, "0123abcd");
    assert_eq!(f32::from_bits(table.rows()[1].lat), 52.2);

    let again = refresh_data(
        &mut table,
        &mut log,
        Some(&manifest("20200112")),
        download("nl/countrywide.csv", DATA),
    );
    assert_eq!(again, RefreshState::UpToDate);
    assert_eq!(table.len(), 2);
}

#[test]
fn the_first_refresh_imports_into_an_empty_table() {
    let mut table = AddressTable::new();
    let mut log = StateLog::new();
    let state = refresh_data(
        &mut table,
        &mut log,
        Some(&manifest("20200112")),
        download("nl/countrywide.csv", DATA),
    );
    assert_eq!(state, RefreshState::Committed);
    assert_eq!((table.len(), log.len()), (2, 1));
}

#[test]
fn a_refresh_whose_download_fails_falls_back_or_is_fatal() {
    let mut table = AddressTable::new();
    let mut log = log_with("20190101");
    let failed = || -> Result<Download, RefreshError> {
        Err(RefreshError::Network("timed out".to_string()))
    };
    let state = refresh_data(&mut table, &mut log, Some(&manifest("20200112")), failed());
    assert_eq!(state, RefreshState::Fallback);
    assert_eq!((table.len(), log.len()), (0, 1));
    let mut log = StateLog::new();
    let state = refresh_data(&mut table, &mut log, Some(&manifest("20200112")), failed());
    assert_eq!(state, RefreshState::Fatal);
    assert_eq!((table.len(), log.len()), (0, 0));
}

#[test]
fn a_refresh_with_a_malformed_row_does_not_record_the_snapshot() {
    let mut table = AddressTable::new();
    let mut log = log_with("20190101");
    let content = format!("{}east,52.3,3,Street,City,Region,2222AA\n", DATA);
    let state = refresh_data(
        &mut table,
        &mut log,
        Some(&manifest("20200112")),
        download("nl/countrywide.csv", &content),
    );
    assert_eq!(state, RefreshState::Fallback);
    assert_eq!(log.len(), 1);
    assert_eq!(table.len(), 0);
}
