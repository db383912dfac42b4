//! The errors that decoding a filing can end in.

use vstd::prelude::*;
use vstd::string::StringExecFns;

verus! {

/// The header of a filing could not be decoded.
#[derive(Debug)]
pub struct HeaderParseError {
    /// What was wrong.
    pub message: String,
    /// The bytes of the filing that had been consumed when decoding stopped.
    pub read: Vec<u8>,
}

impl Clone for HeaderParseError {
    fn clone(&self) -> (r: Self)
        ensures
            r.message@ == self.message@,
            r.read@ == self.read@,
    {
        HeaderParseError { message: self.message.clone(), read: self.read.clone() }
    }
}

/// The ways in which decoding a filing can fail.
#[derive(Debug)]
pub enum Error {
    /// The header could not be decoded.
    HeaderParseError(HeaderParseError),
    /// The cover line could not be decoded.
    CoverParseError(String),
    /// A line could not be turned into a record.
    RecordParseError(String),
    /// No schema is known for the file-format version and the line code.
    SchemaError(String, String),
    /// The source of bytes failed.
    IoError(String),
}

/// What an [`Error`] holds, as mathematical data.
pub enum ErrorView {
    HeaderParseError { message: Seq<char>, read: Seq<u8> },
    CoverParseError(Seq<char>),
    RecordParseError(Seq<char>),
    SchemaError(Seq<char>, Seq<char>),
    IoError(Seq<char>),
}

impl View for Error {
    type V = ErrorView;

    open spec fn view(&self) -> ErrorView {
        match *self {
            Error::HeaderParseError(e) => ErrorView::HeaderParseError {
                message: e.message@,
                read: e.read@,
            },
            Error::CoverParseError(m) => ErrorView::CoverParseError(m@),
            Error::RecordParseError(m) => ErrorView::RecordParseError(m@),
            Error::SchemaError(version, code) => ErrorView::SchemaError(version@, code@),
            Error::IoError(m) => ErrorView::IoError(m@),
        }
    }
}

impl ErrorView {
    /// The sentence that describes the error, without the bytes read.
    pub open spec fn text(self) -> Seq<char> {
        match self {
            ErrorView::HeaderParseError { message, read } => "HeaderParseError: "@ + message,
            ErrorView::CoverParseError(m) => "Failed to parse cover line: "@ + m,
            ErrorView::RecordParseError(m) => "Failed to parse record: "@ + m,
            ErrorView::SchemaError(version, code) => "Failed to find schema for fec version "@
                + version + " and line code "@ + code,
            ErrorView::IoError(m) => m,
        }
    }
}

impl Error {
    /// The sentence that describes the error.
    pub fn message(&self) -> (s: String)
        ensures
            s@ == self@.text(),
    {
        match self {
            Error::HeaderParseError(e) => {
                let mut s = String::from_str("HeaderParseError: ");
                s.append(e.message.as_str());
                s
            },
            Error::CoverParseError(m) => {
                let mut s = String::from_str("Failed to parse cover line: ");
                s.append(m.as_str());
                s
            },
            Error::RecordParseError(m) => {
                let mut s = String::from_str("Failed to parse record: ");
                s.append(m.as_str());
                s
            },
            Error::SchemaError(version, code) => {
                let mut s = String::from_str("Failed to find schema for fec version ");
                s.append(version.as_str());
                s.append(" and line code ");
                s.append(code.as_str());
                s
            },
            Error::IoError(m) => m.clone(),
        }
    }
}

} // verus!
