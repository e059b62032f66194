use vstd::prelude::*;

verus! {

/// What went wrong in a test run.
#[derive(Clone, Copy, Debug, PartialEq, Eq, Structural)]
pub enum ErrorKind {
    /// A generator cannot be positioned at the requested byte offset.
    SeekAlignment,
    /// The chunk size is not a whole multiple of the device's sector size.
    GeometryMismatch,
    /// The endpoint reported a failure other than running out of space.
    Io,
    /// The endpoint ran out of space although a byte limit was given.
    OutOfSpace,
    /// Verification read a byte that differs from the keystream, at this absolute offset.
    DataMismatch(u64),
    /// A keystream producer failed.
    Generator,
    /// The abort flag was raised.
    Aborted,
    /// A text value could not be parsed.
    Parse,
}

/// The library's error value.
#[derive(Clone, Copy, Debug, PartialEq, Eq, Structural)]
pub struct Error {
    pub kind: ErrorKind,
}

impl Error {
    pub fn new(kind: ErrorKind) -> (r: Error)
        ensures
            r.kind == kind,
    {
        Error { kind }
    }

    pub fn newbox(kind: ErrorKind) -> (r: Box<Error>)
        ensures
            r.kind == kind,
    {
        Box::new(Error::new(kind))
    }
}

} // verus!
