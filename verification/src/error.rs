//! The closed set of failures that the manager reports.

use vstd::prelude::*;
use vstd::string::StringExecFns;

verus! {

/// Largest declared size, in bytes, that a chunked upload may have (1 GiB).
pub const SIZE_LIMIT: usize = 1073741824;

/// A failure of a manager operation.
///
/// `FileExists` is the outcome of uploading content that is already stored: it
/// carries the id under which that content was first recorded.
#[derive(Debug, PartialEq, Eq)]
pub enum ManagerError {
    /// The metadata index could not be read or written.
    QueryFailed,
    /// The same content is already stored under the given id.
    FileExists(String),
    /// No unused id was found within the allowed number of attempts.
    UnableToGenerateId,
    /// The declared size of a chunked upload exceeds `SIZE_LIMIT`.
    FileTooLarge,
    /// No upload session has the given id.
    InvalidUploadId,
    /// A chunk does not fit inside the declared size of its session.
    ChunkOutOfBounds,
    /// The content store holds nothing under the given id.
    FileNotFound,
    /// The content store could not remove an entry.
    FailedToDelete,
    /// The content store could not write an entry.
    StorageWriteFailed,
    /// The metadata index could not record a stored file.
    MetadataWriteFailed,
}

/// Mathematical value of a `ManagerError`.
pub enum ErrorView {
    QueryFailed,
    FileExists(Seq<char>),
    UnableToGenerateId,
    FileTooLarge,
    InvalidUploadId,
    ChunkOutOfBounds,
    FileNotFound,
    FailedToDelete,
    StorageWriteFailed,
    MetadataWriteFailed,
}

impl View for ManagerError {
    type V = ErrorView;

    open spec fn view(&self) -> ErrorView {
        match self {
            ManagerError::QueryFailed => ErrorView::QueryFailed,
            ManagerError::FileExists(id) => ErrorView::FileExists(id@),
            ManagerError::UnableToGenerateId => ErrorView::UnableToGenerateId,
            ManagerError::FileTooLarge => ErrorView::FileTooLarge,
            ManagerError::InvalidUploadId => ErrorView::InvalidUploadId,
            ManagerError::ChunkOutOfBounds => ErrorView::ChunkOutOfBounds,
            ManagerError::FileNotFound => ErrorView::FileNotFound,
            ManagerError::FailedToDelete => ErrorView::FailedToDelete,
            ManagerError::StorageWriteFailed => ErrorView::StorageWriteFailed,
            ManagerError::MetadataWriteFailed => ErrorView::MetadataWriteFailed,
        }
    }
}

/// Mathematical value of the outcome of an operation that yields an id.
pub open spec fn id_outcome(outcome: Result<String, ManagerError>) -> Result<Seq<char>, ErrorView> {
    match outcome {
        Ok(id) => Ok(id@),
        Err(e) => Err(e@),
    }
}

/// Mathematical value of the outcome of an operation that yields nothing.
pub open spec fn unit_outcome(outcome: Result<(), ManagerError>) -> Result<(), ErrorView> {
    match outcome {
        Ok(_) => Ok(()),
        Err(e) => Err(e@),
    }
}

/// The text that describes an error to a person.
pub open spec fn message_text(error: ErrorView) -> Seq<char> {
    match error {
        ErrorView::QueryFailed => "Database query failed"@,
        ErrorView::FileExists(id) => "File already exists: "@ + id,
        ErrorView::UnableToGenerateId => "Unable to generate a unique id"@,
        ErrorView::FileTooLarge => "File is too large (max 1073741824 bytes)"@,
        ErrorView::InvalidUploadId => "Invalid upload id"@,
        ErrorView::ChunkOutOfBounds => "Chunk out of bounds"@,
        ErrorView::FileNotFound => "File not found"@,
        ErrorView::FailedToDelete => "Failed to delete file"@,
        ErrorView::StorageWriteFailed => "Failed to write file"@,
        ErrorView::MetadataWriteFailed => "Failed to record file"@,
    }
}

impl ManagerError {
    /// The text that describes the error to a person.
    pub fn message(&self) -> (text: String)
        ensures
            text@ == message_text(self@),
    {
        match self {
            ManagerError::QueryFailed => "Database query failed".to_owned(),
            ManagerError::FileExists(id) => "File already exists: ".to_owned().concat(id.as_str()),
            ManagerError::UnableToGenerateId => "Unable to generate a unique id".to_owned(),
            ManagerError::FileTooLarge => "File is too large (max 1073741824 bytes)".to_owned(),
            ManagerError::InvalidUploadId => "Invalid upload id".to_owned(),
            ManagerError::ChunkOutOfBounds => "Chunk out of bounds".to_owned(),
            ManagerError::FileNotFound => "File not found".to_owned(),
            ManagerError::FailedToDelete => "Failed to delete file".to_owned(),
            ManagerError::StorageWriteFailed => "Failed to write file".to_owned(),
            ManagerError::MetadataWriteFailed => "Failed to record file".to_owned(),
        }
    }
}

} // verus!
