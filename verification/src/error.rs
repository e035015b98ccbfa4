//! The errors of this library.

use vstd::prelude::*;
use vstd::string::*;

use crate::text::{joined, joined3};

verus! {

/// What went wrong.
#[derive(Debug)]
pub enum FortressError {
    /// A file system failure, with its description.
    Io(String),
    /// A failure of the database, with its description.
    Database(String),
    /// JSON could not be written or read; the text says why.
    Serialization(String),
    /// The scanner could not handle one path.
    ScanError {
        path: String,
        reason: String,
    },
    /// A file could not be hashed.
    HashError {
        path: String,
        reason: String,
    },
    /// A file to be moved is not there; the text is its path.
    FileNotFound(String),
    /// The place to move a file to is taken; the text is the destination.
    DestinationExists(String),
    /// A backup failed; the text says what.
    BackupError(String),
    /// A search request cannot be served; the text says why.
    SearchError(String),
    /// The configuration cannot be read, written or changed as asked.
    ConfigError(String),
    /// Anything else.
    Unexpected(String),
}

/// A result whose error is a [`FortressError`].
pub type FortressResult<T> = Result<T, FortressError>;

impl FortressError {
    /// The sentence that is shown to the user.
    pub open spec fn text(self) -> Seq<char> {
        match self {
            FortressError::Io(e) => "I/O error: "@ + e@,
            FortressError::Database(e) => "Database error: "@ + e@,
            FortressError::Serialization(e) => "Serialization error: "@ + e@,
            FortressError::ScanError { path, reason } => "Scanner error at '"@ + path@ + "': "@
                + reason@,
            FortressError::HashError { path, reason } => "Failed to hash file '"@ + path@ + "': "@
                + reason@,
            FortressError::FileNotFound(p) => "File not found for organization: "@ + p@,
            FortressError::DestinationExists(p) => "Destination already exists: "@ + p@,
            FortressError::BackupError(e) => "Backup failed: "@ + e@,
            FortressError::SearchError(e) => "Search error: "@ + e@,
            FortressError::ConfigError(e) => "Configuration error: "@ + e@,
            FortressError::Unexpected(e) => "Unexpected error: "@ + e@,
        }
    }

    /// The sentence that is shown to the user.
    pub fn to_string(&self) -> (r: String)
        ensures
            r@ == self.text(),
    {
        match self {
            FortressError::Io(e) => joined("I/O error: ", e.as_str()),
            FortressError::Database(e) => joined("Database error: ", e.as_str()),
            FortressError::Serialization(e) => joined("Serialization error: ", e.as_str()),
            FortressError::ScanError { path, reason } => {
                let mut s: String = joined3("Scanner error at '", path.as_str(), "': ");
                s.append(reason.as_str());
                s
            },
            FortressError::HashError { path, reason } => {
                let mut s: String = joined3("Failed to hash file '", path.as_str(), "': ");
                s.append(reason.as_str());
                s
            },
            FortressError::FileNotFound(p) => joined("File not found for organization: ", p.as_str()),
            FortressError::DestinationExists(p) => joined("Destination already exists: ", p.as_str()),
            FortressError::BackupError(e) => joined("Backup failed: ", e.as_str()),
            FortressError::SearchError(e) => joined("Search error: ", e.as_str()),
            FortressError::ConfigError(e) => joined("Configuration error: ", e.as_str()),
            FortressError::Unexpected(e) => joined("Unexpected error: ", e.as_str()),
        }
    }
}

} // verus!
