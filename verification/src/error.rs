use vstd::prelude::*;
use vstd::string::StringExecFns;

verus! {

/// Why one raw record could not be processed at all.  Such an error is
/// fatal for the one record only: the caller skips it and goes on.
#[derive(Clone, Copy, Debug, PartialEq, Eq, Structural)]
pub enum RecordError {
    /// The two-byte header terminator never occurs in the buffer.
    MalformedRecord,
    /// The header segment is not valid UTF-8 text.
    HeaderEncoding,
    /// The declared encoding label resolves to no decoder.
    UnsupportedEncoding,
}

/// A general-purpose error value carrying a message and, optionally, the
/// rendered message of an underlying cause.
#[derive(Debug)]
pub struct ParseError {
    pub message: String,
    pub source: Option<String>,
}

impl ParseError {
    /// A simple error with a message and no underlying cause.
    pub fn new(message: &str) -> (r: Self)
        ensures
            r.message@ == message@,
            r.source is None,
    {
        ParseError { message: message.to_owned(), source: None }
    }

    /// An error that records the message of the error that caused it.
    pub fn with_source(message: &str, source: &str) -> (r: Self)
        ensures
            r.message@ == message@,
            r.source matches Some(s) && s@ == source@,
    {
        ParseError { message: message.to_owned(), source: Some(source.to_owned()) }
    }

    /// A rendering for human readers: the message, then the cause if any.
    pub fn describe(&self) -> (r: String)
        ensures
            self.source is None ==> r@ == self.message@,
            self.source matches Some(s) ==> r@ == self.message@ + ": "@ + s@,
    {
        match &self.source {
            Some(s) => {
                let mut out = self.message.clone();
                out.append(": ");
                out.append(s.as_str());
                out
            },
            None => self.message.clone(),
        }
    }
}

} // verus!
