use address_sync::error::{ErrorKind, RefreshError};

#[test]
fn each_error_has_its_kind() {
    assert_eq!(RefreshError::Network("x".to_string()).kind(), ErrorKind::Network);
    assert_eq!(RefreshError::InvalidZip("x".to_string()).kind(), ErrorKind::InvalidZip);
    assert_eq!(RefreshError::InvalidData("x".to_string()).kind(), ErrorKind::InvalidData);
    assert_eq!(RefreshError::FileNotFound.kind(), ErrorKind::FileNotFound);
    assert_eq!(RefreshError::Storage("x".to_string()).kind(), ErrorKind::Storage);
}

#[test]
fn each_error_has_its_message() {
    assert_eq!(
        RefreshError::Network("timed out".to_string()).message(),
        "Refresh error: IO: timed out"
    );
    assert_eq!(
        RefreshError::Storage("connection lost".to_string()).message(),
        "Refresh error: IO: connection lost"
    );
    assert_eq!(
        RefreshError::InvalidZip("invalid Zip archive".to_string()).message(),
        "Refresh error: Invalid zip data file: invalid Zip archive"
    );
    assert_eq!(
        RefreshError::InvalidData("bad row".to_string()).message(),
        "Refresh error: Invalid address data: bad row"
    );
    assert_eq!(RefreshError::FileNotFound.message(), "Refresh error: Could not find data file");
}
