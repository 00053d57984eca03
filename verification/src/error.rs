//! The failure taxonomy shared by every stage of a run.

use vstd::prelude::*;
use vstd::string::*;
use crate::text::{owned, push_text};

verus! {

/// What went wrong with one file or one operation.
#[derive(Debug, Clone, PartialEq, Eq)]
pub enum ErrorKind {
    /// A file could not be opened, read, or listed.
    Io,
    /// The bytes are not an image in a known format, or not a valid encoding.
    Decode,
    /// Two hashes of different bit lengths were compared.
    DimensionMismatch,
    /// A task aborted; the payload is the message it left behind.
    Panicked(String),
}

/// A failure attributed to the file it happened on.
#[derive(Debug, Clone, PartialEq, Eq)]
pub struct Error {
    pub path: String,
    pub kind: ErrorKind,
}

impl ErrorKind {
    /// The short name under which a report lists this kind.
    pub open spec fn spec_name(self) -> Seq<char> {
        match self {
            ErrorKind::Io => "io"@,
            ErrorKind::Decode => "decode"@,
            ErrorKind::DimensionMismatch => "dimension"@,
            ErrorKind::Panicked(_) => "panic"@,
        }
    }

    /// The short name under which a report lists this kind.
    pub fn name(&self) -> (name: &'static str)
        ensures
            name@ == self.spec_name(),
    {
        match self {
            ErrorKind::Io => "io",
            ErrorKind::Decode => "decode",
            ErrorKind::DimensionMismatch => "dimension",
            ErrorKind::Panicked(_) => "panic",
        }
    }

    /// What a reader is told of this kind.
    pub open spec fn spec_message(self) -> Seq<char> {
        match self {
            ErrorKind::Io => "(loading error) the file could not be read"@,
            ErrorKind::Decode => "(loading error) the file is not an image that can be decoded"@,
            ErrorKind::DimensionMismatch => "(hashing error) hashes of different sizes were compared"@,
            ErrorKind::Panicked(msg) => "(panic) "@ + msg@,
        }
    }

    /// What a reader is told of this kind.
    pub fn message(&self) -> (text: String)
        ensures
            text@ == self.spec_message(),
    {
        match self {
            ErrorKind::Io => owned("(loading error) the file could not be read"),
            ErrorKind::Decode => owned(
                "(loading error) the file is not an image that can be decoded",
            ),
            ErrorKind::DimensionMismatch => owned(
                "(hashing error) hashes of different sizes were compared",
            ),
            ErrorKind::Panicked(msg) => {
                let mut text: String = owned("(panic) ");
                push_text(&mut text, msg.as_str());
                text
            },
        }
    }

    /// Whether a run must stop on this kind rather than record it and go on.
    pub open spec fn spec_is_fatal(self) -> bool {
        self is DimensionMismatch
    }

    /// Whether a run must stop on this kind rather than record it and go on.
    /// Only a dimension mismatch is fatal: it means hashes of different
    /// configurations were mixed.
    pub fn is_fatal(&self) -> (fatal: bool)
        ensures
            fatal == self.spec_is_fatal(),
    {
        match self {
            ErrorKind::DimensionMismatch => true,
            _ => false,
        }
    }
}

impl Error {
    /// The failure of kind `kind` on the file `path`.
    pub fn new(path: String, kind: ErrorKind) -> (e: Error)
        ensures
            e.path == path,
            e.kind == kind,
    {
        Error { path, kind }
    }

    /// The file `path` could not be opened or read.
    pub fn io(path: String) -> (e: Error)
        ensures
            e.path == path,
            e.kind == ErrorKind::Io,
    {
        Error { path, kind: ErrorKind::Io }
    }

    /// The file `path` is not an image that can be decoded.
    pub fn decode(path: String) -> (e: Error)
        ensures
            e.path == path,
            e.kind == ErrorKind::Decode,
    {
        Error { path, kind: ErrorKind::Decode }
    }

    /// The task on the file `path` aborted and left `message` behind.
    pub fn panicked(path: String, message: String) -> (e: Error)
        ensures
            e.path == path,
            e.kind == ErrorKind::Panicked(message),
    {
        Error { path, kind: ErrorKind::Panicked(message) }
    }
}

} // verus!
