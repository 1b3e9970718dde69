//! The failures that the store reports.

use vstd::prelude::*;

verus! {

/// The kind of a failure.
#[derive(Clone, Copy, Debug, PartialEq, Eq, Structural)]
pub enum ErrorKind {
    /// A file, a category or a sub-category is absent.
    NotFound,
    /// A category still has entries and may not be removed.
    NotEmpty,
    /// A note id does not split into three fields.
    MalformedId,
    /// A name holds the separator of note ids.
    InvalidIdentity,
    /// A directory could not be listed.
    ScanFailed,
    /// A note could not be read.
    ReadFailed,
    /// A step that changes the tree did not succeed.
    WriteFailed,
}

/// A failure: its kind, the path or id it is about and, where the file system
/// gave one, its reason.
#[derive(Clone, Debug, PartialEq, Eq)]
pub struct StoreError {
    pub kind: ErrorKind,
    pub subject: String,
    pub detail: String,
}

/// What a `StoreError` stands for.
pub struct ErrorText {
    pub kind: ErrorKind,
    pub subject: Seq<char>,
    pub detail: Seq<char>,
}

impl View for StoreError {
    type V = ErrorText;

    open spec fn view(&self) -> ErrorText {
        ErrorText { kind: self.kind, subject: self.subject@, detail: self.detail@ }
    }
}

/// The failure of the given kind about `subject`, with no reason.
pub open spec fn plain_failure(kind: ErrorKind, subject: Seq<char>) -> ErrorText {
    ErrorText { kind, subject, detail: Seq::empty() }
}

impl StoreError {
    /// A failure of the given kind about `subject`, with no reason.
    pub fn new(kind: ErrorKind, subject: &str) -> (res: StoreError)
        ensures
            res@ == plain_failure(kind, subject@),
    {
        StoreError { kind, subject: String::from_str(subject), detail: String::new() }
    }

    /// A failure of the given kind about `subject`, with the reason that the
    /// file system gave.
    pub fn with_detail(kind: ErrorKind, subject: &str, detail: &str) -> (res: StoreError)
        ensures
            res@ == (ErrorText { kind, subject: subject@, detail: detail@ }),
    {
        StoreError {
            kind,
            subject: String::from_str(subject),
            detail: String::from_str(detail),
        }
    }
}

} // verus!
