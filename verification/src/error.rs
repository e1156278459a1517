//! The failures that the object codec and the store report.

use vstd::prelude::*;

verus! {

/// Why an operation on an object failed. Every failure is final for the
/// operation that met it: none is worth retrying.
#[derive(Clone, Copy, Debug, PartialEq, Eq, Structural)]
pub enum ObjectError {
    /// An object id was not made of exactly 40 hexadecimal characters.
    InvalidObjectId,
    /// The store holds no object under the id asked for.
    ObjectNotFound,
    /// Stored bytes did not decompress, or did not frame a typed payload.
    MalformedEnvelope,
    /// A tree was asked of an object of another kind.
    NotATree,
    /// A tree record ran past the end of the payload.
    TruncatedTree,
    /// The compressor reported a failure, or what it wrote did not read back.
    CompressionFailed,
}

impl ObjectError {
    /// A one-line description for the user.
    pub fn message(&self) -> (text: &'static str)
        ensures
            text@ == self.message_text(),
    {
        match self {
            ObjectError::InvalidObjectId => "fatal: not a valid object name",
            ObjectError::ObjectNotFound => "fatal: object not found",
            ObjectError::MalformedEnvelope => "fatal: malformed object",
            ObjectError::NotATree => "fatal: not a tree object",
            ObjectError::TruncatedTree => "fatal: truncated tree object",
            ObjectError::CompressionFailed => "fatal: unable to compress object",
        }
    }

    /// The text of `message`, variant by variant.
    pub open spec fn message_text(&self) -> Seq<char> {
        match self {
            ObjectError::InvalidObjectId => "fatal: not a valid object name"@,
            ObjectError::ObjectNotFound => "fatal: object not found"@,
            ObjectError::MalformedEnvelope => "fatal: malformed object"@,
            ObjectError::NotATree => "fatal: not a tree object"@,
            ObjectError::TruncatedTree => "fatal: truncated tree object"@,
            ObjectError::CompressionFailed => "fatal: unable to compress object"@,
        }
    }
}

} // verus!
