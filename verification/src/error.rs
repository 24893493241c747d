//! The error values surfaced by the codec: reading past the end of the
//! stream, writing (never fails on an in-memory sink, but kept as a typed
//! result), and the structured decode failures of the class-file format.

use vstd::prelude::*;

verus! {

/// Why a decode attempt failed.
#[derive(Debug, PartialEq, Eq)]
pub enum DeserializeErrorKind {
    /// The stream ended before a fixed-size or length-prefixed field was
    /// satisfied.
    UnexpectedEof,
    /// A symbol-table entry carried a tag byte this decoder does not know;
    /// `pos` is the stream position of that tag byte.
    UnrecognizedTag { tag: u8, pos: usize },
    /// The input was structurally invalid at stream position `pos`: an empty
    /// symbol table, a reference the model cannot represent, an attribute
    /// name that does not resolve to a UTF-8 entry, or a double-width entry
    /// with no room for its reserved slot.
    Malformed { pos: usize },
    /// A failure described only by its message.
    Other,
}

/// Failure to read from the underlying byte stream.
#[derive(Debug)]
pub struct ReadError {
    pub message: String,
}

impl ReadError {
    pub fn new(message: String) -> (r: ReadError)
        ensures
            r.message == message,
    {
        ReadError { message }
    }
}

/// Failure to write to the underlying byte sink.
#[derive(Debug)]
pub struct WriteError {
    pub message: String,
}

impl WriteError {
    pub fn new(message: String) -> (r: WriteError)
        ensures
            r.message == message,
    {
        WriteError { message }
    }
}

/// Failure while encoding a class file.
#[derive(Debug)]
pub struct SerializeError {
    pub message: String,
}

impl SerializeError {
    pub fn new(message: String) -> (r: SerializeError)
        ensures
            r.message == message,
    {
        SerializeError { message }
    }
}

/// Failure while decoding a class file, with its structured kind.
#[derive(Debug)]
pub struct DeserializeError {
    pub kind: DeserializeErrorKind,
    pub message: String,
}

impl DeserializeError {
    pub fn new(message: String) -> (r: DeserializeError)
        ensures
            r.kind == DeserializeErrorKind::Other,
            r.message == message,
    {
        DeserializeError { kind: DeserializeErrorKind::Other, message }
    }
}

impl From<WriteError> for SerializeError {
    fn from(write_err: WriteError) -> (r: Self) {
        SerializeError { message: write_err.message }
    }
}

impl vstd::std_specs::convert::FromSpecImpl<WriteError> for SerializeError {
    open spec fn obeys_from_spec() -> bool {
        true
    }

    open spec fn from_spec(write_err: WriteError) -> Self {
        SerializeError { message: write_err.message }
    }
}

impl From<ReadError> for DeserializeError {
    fn from(read_err: ReadError) -> (r: Self) {
        DeserializeError { kind: DeserializeErrorKind::UnexpectedEof, message: read_err.message }
    }
}

impl vstd::std_specs::convert::FromSpecImpl<ReadError> for DeserializeError {
    open spec fn obeys_from_spec() -> bool {
        true
    }

    open spec fn from_spec(read_err: ReadError) -> Self {
        DeserializeError { kind: DeserializeErrorKind::UnexpectedEof, message: read_err.message }
    }
}

} // verus!
