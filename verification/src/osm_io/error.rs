//! Errors that may occur when reading or writing OSM data.

use vstd::prelude::*;

verus! {

/// What kind of failure an [`Error`] reports.
#[derive(Debug, PartialEq, Eq, Clone)]
pub enum ErrorKind {
    /// Unsupported or unrecognized OSM format.
    InvalidFileFormat,
    /// Malformed data, e.g. a corrupt varint or a dangling string reference.
    ParseError,
    /// A well-formed document holding data that does not fit its place,
    /// e.g. a missing or unparseable attribute. Carries the description.
    InvalidData(String),
    /// The input ended where more bytes were owed.
    UnexpectedEof,
}

/// An error raised while reading or writing OSM data: its kind, an optional
/// human-readable message, and (for the XML codec) the line it was found on.
#[derive(Debug, PartialEq, Eq, Clone)]
pub struct Error {
    pub kind: ErrorKind,
    pub message: Option<String>,
    pub line: Option<u32>,
}

impl Error {
    /// An error of `kind` with an optional message and no line number.
    pub fn new(kind: ErrorKind, message: Option<String>) -> (e: Error)
        ensures
            e.kind == kind,
            e.message == message,
            e.line is None,
    {
        Error { kind, message, line: None }
    }

    /// An error of `kind` found on `line`.
    pub fn on_line(kind: ErrorKind, message: Option<String>, line: u32) -> (e: Error)
        ensures
            e.kind == kind,
            e.message == message,
            e.line == Some(line),
    {
        Error { kind, message, line: Some(line) }
    }

    /// The attached message, if any.
    pub fn message(&self) -> (m: Option<&String>)
        ensures
            m is Some <==> self.message is Some,
            m matches Some(x) ==> *x == self.message->0,
    {
        self.message.as_ref()
    }

    /// Replace the attached message.
    pub fn set_message(&mut self, message: String)
        ensures
            final(self).message == Some(message),
            final(self).kind == old(self).kind,
            final(self).line == old(self).line,
    {
        self.message = Some(message);
    }

    /// The error's kind.
    pub fn kind(&self) -> (k: &ErrorKind)
        ensures
            k == &self.kind,
    {
        &self.kind
    }

    /// The line the error was found on, if the codec counts lines.
    pub fn line(&self) -> (l: Option<u32>)
        ensures
            l == self.line,
    {
        self.line
    }

    /// What [`Error::describe`] renders: the message when one is attached,
    /// else a fixed text for the kind; with a line number, prefixed by
    /// `Line N: ` where `N` counts from one.
    pub open spec fn spec_rendered(&self) -> Seq<char> {
        let prefix: Seq<char> = match self.line {
            Some(l) => if l < u32::MAX {
                "Line "@ + crate::osm_io::numbers::dec_digits((l + 1) as nat) + ": "@
            } else {
                Seq::empty()
            },
            None => Seq::empty(),
        };
        let body: Seq<char> = match self.message {
            Some(m) => m@,
            None => match self.kind {
                ErrorKind::InvalidFileFormat => "File format not recognized."@,
                ErrorKind::ParseError => "Unknown parse error occurred."@,
                ErrorKind::InvalidData(s) => s@,
                ErrorKind::UnexpectedEof => "Unexpected end of file."@,
            },
        };
        prefix + body
    }

    /// The error rendered as text: the message when one is attached, else a
    /// fixed text for the kind; with a line number, prefixed by
    /// `Line N: ` where `N` counts from one.
    pub fn describe(&self) -> (r: String)
        ensures
            r@ == self.spec_rendered(),
    {
        let mut text = String::new();
        if let Some(line) = self.line {
            if line < u32::MAX {
                text.append("Line ");
                text.append(crate::osm_io::numbers::u64_string(line as u64 + 1).as_str());
                text.append(": ");
            }
        }
        match &self.message {
            Some(message) => {
                text.append(message.as_str());
            }
            None => {
                match &self.kind {
                    ErrorKind::InvalidFileFormat => {
                        text.append("File format not recognized.");
                    }
                    ErrorKind::ParseError => {
                        text.append("Unknown parse error occurred.");
                    }
                    ErrorKind::InvalidData(s) => {
                        text.append(s.as_str());
                    }
                    ErrorKind::UnexpectedEof => {
                        text.append("Unexpected end of file.");
                    }
                }
            }
        }
        proof {
            assert(text@ =~= self.spec_rendered());
        }
        text
    }
}

} // verus!
