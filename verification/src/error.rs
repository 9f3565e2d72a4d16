use vstd::prelude::*;
use vstd::string::*;
use crate::message::AppError;

verus! {

/// Why a request was turned down.
#[derive(Debug, PartialEq, Eq)]
pub enum ApiError {
    /// The folder does not exist or belongs to someone else.
    FolderNotFound { folder_id: i32 },
    /// None of the photos exists and belongs to the caller.
    PhotoNotFound,
    /// The label does not exist or belongs to someone else.
    ForeignTag { tag_id: i32 },
    /// The photo does not exist or belongs to someone else.
    ForeignPhoto { photo_id: i32 },
    /// The request names no id.
    EmptyIdList,
    /// The blob store failed on an image; what was to be removed from the
    /// record may be gone all the same.
    BlobStore { detail: String },
    /// The record could not take the change.
    Internal(AppError),
}

/// The kinds of refusal, as they are told apart towards the caller.
#[derive(Debug, Clone, Copy, PartialEq, Eq, Structural)]
pub enum ErrorKind {
    NotFound,
    Forbidden,
    ValidationError,
    UpstreamError,
    TransactionError,
}

impl ApiError {
    pub open spec fn kind_spec(&self) -> ErrorKind {
        match self {
            ApiError::FolderNotFound { .. } => ErrorKind::NotFound,
            ApiError::PhotoNotFound => ErrorKind::NotFound,
            ApiError::ForeignTag { .. } => ErrorKind::Forbidden,
            ApiError::ForeignPhoto { .. } => ErrorKind::Forbidden,
            ApiError::EmptyIdList => ErrorKind::ValidationError,
            ApiError::BlobStore { .. } => ErrorKind::UpstreamError,
            ApiError::Internal(_) => ErrorKind::TransactionError,
        }
    }

    /// The kind of this refusal.
    pub fn kind(&self) -> (r: ErrorKind)
        ensures
            r == self.kind_spec(),
    {
        match self {
            ApiError::FolderNotFound { .. } => ErrorKind::NotFound,
            ApiError::PhotoNotFound => ErrorKind::NotFound,
            ApiError::ForeignTag { .. } => ErrorKind::Forbidden,
            ApiError::ForeignPhoto { .. } => ErrorKind::Forbidden,
            ApiError::EmptyIdList => ErrorKind::ValidationError,
            ApiError::BlobStore { .. } => ErrorKind::UpstreamError,
            ApiError::Internal(_) => ErrorKind::TransactionError,
        }
    }

    /// The HTTP status under which this refusal is reported.
    pub fn status(&self) -> (r: u16)
        ensures
            r == match self.kind_spec() {
                ErrorKind::NotFound => 404u16,
                ErrorKind::Forbidden => 403u16,
                ErrorKind::ValidationError => 400u16,
                ErrorKind::UpstreamError => 500u16,
                ErrorKind::TransactionError => 500u16,
            },
    {
        match self.kind() {
            ErrorKind::NotFound => 404,
            ErrorKind::Forbidden => 403,
            ErrorKind::ValidationError => 400,
            ErrorKind::UpstreamError => 500,
            ErrorKind::TransactionError => 500,
        }
    }
}

} // verus!
