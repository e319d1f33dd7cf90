//! Error taxonomy of the engine. Every error carries the source path and the
//! part name it concerns, for diagnosis.

use vstd::prelude::*;

verus! {

/// What went wrong, by failure class.
#[derive(Debug, Clone, Copy, PartialEq, Eq, Structural)]
pub enum ErrorKind {
    /// The container cannot be opened or indexed.
    MalformedArchive,
    /// The main content part is absent or unreadable; fatal for ingestion.
    MissingRequiredPart,
    /// A markup part fails to parse.
    MalformedXml,
    /// The input extension is unrecognized by the dispatching layer.
    UnsupportedFormat,
    /// A read, write, extract or repackage failure.
    IoFailure,
}

/// An error with its source path and part name.
#[derive(Debug)]
pub struct DocError {
    pub kind: ErrorKind,
    pub path: String,
    pub part: String,
    pub detail: String,
}

impl DocError {
    /// Build an error for one part of one source.
    pub fn new(kind: ErrorKind, path: &str, part: &str, detail: String) -> (r: DocError)
        ensures
            r.kind == kind,
            r.path@ == path@,
            r.part@ == part@,
            r.detail == detail,
    {
        DocError { kind, path: path.to_owned(), part: part.to_owned(), detail }
    }

    /// A one-line rendering for hosts that print errors.
    pub fn message(&self) -> (r: String)
        ensures
            r@ == self.path@ + ": "@ + self.part@ + ": "@ + self.detail@,
    {
        let mut out = crate::textutil::str_chars(self.path.as_str());
        let mut sep1 = crate::textutil::str_chars(": ");
        let mut part = crate::textutil::str_chars(self.part.as_str());
        let mut sep2 = crate::textutil::str_chars(": ");
        let mut det = crate::textutil::str_chars(self.detail.as_str());
        out.append(&mut sep1);
        out.append(&mut part);
        out.append(&mut sep2);
        out.append(&mut det);
        crate::textutil::chars_string(&out)
    }
}

} // verus!
