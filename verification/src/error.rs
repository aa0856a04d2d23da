use vstd::prelude::*;

verus! {

/// Failure of the byte source itself (transport error).
#[derive(Clone, Copy, Eq, Hash, PartialEq, Debug)]
pub struct CallbackError;

/// Outcome of a fixed-size read that did not succeed: either the transport
/// failed, or the stream ended before the requested bytes were available.
#[derive(Clone, Copy, Eq, Hash, PartialEq, Debug)]
pub enum CallbackReadError {
    Cb(CallbackError),
    EndOfFile,
}

/// A structural violation of the datafile format, naming the first
/// invariant that failed.
#[derive(Clone, Copy, Eq, Hash, PartialEq, Debug)]
pub enum DatafileError {
    WrongMagic([u8; 4]),
    UnsupportedVersion(i32),
    MalformedHeader,
    Malformed,
    CompressionError,
    TooShort,
    TooShortHeaderVersion,
    TooShortHeader,
}

/// Any failure while reading a datafile: a domain error or a transport error.
#[derive(Clone, Copy, Eq, Hash, PartialEq, Debug)]
pub enum Error {
    Df(DatafileError),
    Cb(CallbackError),
}

impl From<DatafileError> for Error {
    fn from(err: DatafileError) -> (r: Error) {
        Error::Df(err)
    }
}

impl vstd::std_specs::convert::FromSpecImpl<DatafileError> for Error {
    open spec fn obeys_from_spec() -> bool {
        true
    }

    open spec fn from_spec(err: DatafileError) -> Error {
        Error::Df(err)
    }
}

impl From<CallbackError> for Error {
    fn from(err: CallbackError) -> (r: Error) {
        Error::Cb(err)
    }
}

impl vstd::std_specs::convert::FromSpecImpl<CallbackError> for Error {
    open spec fn obeys_from_spec() -> bool {
        true
    }

    open spec fn from_spec(err: CallbackError) -> Error {
        Error::Cb(err)
    }
}

impl From<CallbackError> for CallbackReadError {
    fn from(err: CallbackError) -> (r: CallbackReadError) {
        CallbackReadError::Cb(err)
    }
}

impl vstd::std_specs::convert::FromSpecImpl<CallbackError> for CallbackReadError {
    open spec fn obeys_from_spec() -> bool {
        true
    }

    open spec fn from_spec(err: CallbackError) -> CallbackReadError {
        CallbackReadError::Cb(err)
    }
}

impl CallbackReadError {
    /// Reinterpret end-of-stream as the given domain error; keep transport
    /// errors as they are.
    pub fn on_eof(self, df_err: DatafileError) -> (r: Error)
        ensures
            self is EndOfFile ==> r == Error::Df(df_err),
            self matches CallbackReadError::Cb(e) ==> r == Error::Cb(e),
    {
        match self {
            CallbackReadError::Cb(err) => Error::Cb(err),
            CallbackReadError::EndOfFile => Error::Df(df_err),
        }
    }
}

} // verus!
