//! What a codec reports when it cannot go on.

use vstd::prelude::*;
use vstd::string::*;

verus! {

/// A failure of a codec, named by the kind of value that was being processed.
#[derive(Debug, Clone, PartialEq, Eq)]
pub enum Error {
    /// Reading failed, or the bytes read do not stand for a value of this kind.
    Deserialize(String),
    /// A value of this kind could not be written.
    Serialize(String),
}

/// An [`Error`] with its kind as a sequence of characters.
pub enum ErrorView {
    Deserialize(Seq<char>),
    Serialize(Seq<char>),
}

impl View for Error {
    type V = ErrorView;

    open spec fn view(&self) -> ErrorView {
        match self {
            Error::Deserialize(kind) => ErrorView::Deserialize(kind@),
            Error::Serialize(kind) => ErrorView::Serialize(kind@),
        }
    }
}

impl ErrorView {
    /// The kind of value that was being processed.
    pub open spec fn kind(self) -> Seq<char> {
        match self {
            ErrorView::Deserialize(kind) => kind,
            ErrorView::Serialize(kind) => kind,
        }
    }

    /// The text shown for the error.
    pub open spec fn message(self) -> Seq<char> {
        match self {
            ErrorView::Deserialize(kind) => "failed to deserialize: "@ + kind,
            ErrorView::Serialize(kind) => "failed to serialize: "@ + kind,
        }
    }
}

impl Error {
    /// A decoding failure for values of kind `kind`.
    pub fn deserialize(kind: &str) -> (e: Error)
        ensures
            e@ == ErrorView::Deserialize(kind@),
    {
        Error::Deserialize(kind.to_owned())
    }

    /// An encoding failure for values of kind `kind`.
    pub fn serialize(kind: &str) -> (e: Error)
        ensures
            e@ == ErrorView::Serialize(kind@),
    {
        Error::Serialize(kind.to_owned())
    }

    /// The kind of value that was being processed.
    pub fn kind(&self) -> (k: &str)
        ensures
            k@ == self@.kind(),
    {
        match self {
            Error::Deserialize(kind) => kind.as_str(),
            Error::Serialize(kind) => kind.as_str(),
        }
    }

    /// The text shown for the error.
    pub fn message(&self) -> (m: String)
        ensures
            m@ == self@.message(),
    {
        match self {
            Error::Deserialize(kind) => String::from_str("failed to deserialize: ").concat(
                kind.as_str(),
            ),
            Error::Serialize(kind) => String::from_str("failed to serialize: ").concat(
                kind.as_str(),
            ),
        }
    }
}

} // verus!
