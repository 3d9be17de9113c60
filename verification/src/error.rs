//! The ways in which a refresh of the address data can fail.

use vstd::prelude::*;
use vstd::string::*;

verus! {

/// What went wrong, without the detail.
#[derive(Clone, Copy, Debug, PartialEq, Eq, Structural)]
pub enum ErrorKind {
    /// The status document or the archive could not be transferred.
    Network,
    /// The archive is not a readable zip container.
    InvalidZip,
    /// A record or a count could not be read.
    InvalidData,
    /// No member of the archive has the name of the data file.
    FileNotFound,
    /// The address table or the state log could not be written.
    Storage,
}

/// A failed refresh. Each variant but `FileNotFound` carries the text of
/// its cause, for the log.
#[derive(Debug)]
pub enum RefreshError {
    Network(String),
    InvalidZip(String),
    InvalidData(String),
    FileNotFound,
    Storage(String),
}

impl RefreshError {
    /// The kind of this error.
    pub open spec fn spec_kind(&self) -> ErrorKind {
        match self {
            RefreshError::Network(_) => ErrorKind::Network,
            RefreshError::InvalidZip(_) => ErrorKind::InvalidZip,
            RefreshError::InvalidData(_) => ErrorKind::InvalidData,
            RefreshError::FileNotFound => ErrorKind::FileNotFound,
            RefreshError::Storage(_) => ErrorKind::Storage,
        }
    }

    /// The kind of this error.
    #[verifier::when_used_as_spec(spec_kind)]
    pub fn kind(&self) -> (kind: ErrorKind)
        ensures
            kind == self.spec_kind(),
    {
        match self {
            RefreshError::Network(_) => ErrorKind::Network,
            RefreshError::InvalidZip(_) => ErrorKind::InvalidZip,
            RefreshError::InvalidData(_) => ErrorKind::InvalidData,
            RefreshError::FileNotFound => ErrorKind::FileNotFound,
            RefreshError::Storage(_) => ErrorKind::Storage,
        }
    }

    /// What follows "Refresh error: " in the message of this error.
    pub open spec fn reason(&self) -> Seq<char> {
        match self {
            RefreshError::Network(detail) => "IO: "@ + detail@,
            RefreshError::InvalidZip(detail) => "Invalid zip data file: "@ + detail@,
            RefreshError::InvalidData(detail) => "Invalid address data: "@ + detail@,
            RefreshError::FileNotFound => "Could not find data file"@,
            RefreshError::Storage(detail) => "IO: "@ + detail@,
        }
    }

    /// The message of this error, as it is logged.
    pub fn message(&self) -> (text: String)
        ensures
            text@ == "Refresh error: "@ + self.reason(),
    {
        let mut text = "Refresh error: ".to_owned();
        match self {
            RefreshError::Network(detail) => {
                text.append("IO: ");
                text.append(detail.as_str());
            },
            RefreshError::InvalidZip(detail) => {
                text.append("Invalid zip data file: ");
                text.append(detail.as_str());
            },
            RefreshError::InvalidData(detail) => {
                text.append("Invalid address data: ");
                text.append(detail.as_str());
            },
            RefreshError::FileNotFound => {
                text.append("Could not find data file");
            },
            RefreshError::Storage(detail) => {
                text.append("IO: ");
                text.append(detail.as_str());
            },
        }
        text
    }
}

} // verus!
