//! Errors of the blob and file services.
use vstd::prelude::*;

verus! {

/// The ways in which an operation of the blob or file services can fail.
#[derive(Debug, Clone, Copy, PartialEq, Eq, Structural)]
pub enum Error {
    /// The promised size of an upload exceeds the configured ceiling.
    BlobTooBig,
    /// The upload ticket is unknown or has expired.
    BlobNotFound,
    /// The upload ticket belongs to another user.
    BlobWrongUser,
    /// The content resolves to a blacklisted digest.
    BlobBlacklisted,
    /// Finalization was requested before any bytes reached the upload path.
    BlobNotUploaded,
    /// The uploaded bytes do not have the promised length.
    BlobSizeMismatch,
    /// A freshly generated upload ticket is already in use.
    BlobTicketTaken,
    /// The requested file does not exist (or is not in the requested state).
    EntityNotFound,
    /// A live file with the same name already exists on the page.
    EntityExists,
    /// A restore was requested for a file that is not deleted.
    EntityNotDeleted,
    /// The file name is empty, too long, or holds forbidden characters.
    InvalidName,
    /// The caller's revision token is not the latest revision.
    StaleConcurrencyToken,
    /// The requested revision of a file does not exist.
    RevisionNotFound,
    /// Structurally invalid input, such as hard-deleting the empty blob.
    BadRequest,
}

} // verus!
