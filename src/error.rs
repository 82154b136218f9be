//! The library's error type.
use vstd::prelude::*;

verus! {

/// Why a lookup or a download failed.
#[derive(Debug, Clone, PartialEq, Eq)]
pub enum Error {
    /// A concurrent fetch task ended abnormally (it was aborted or panicked).
    FutureErr(String),
    /// Seeking, writing or flushing the output failed.
    IOError(String),
    /// The hand-off between a fetch task and the writer broke.
    ChannelError(String),
    /// A success envelope whose payload breaks an expectation
    /// (missing data, wrong number of entries).
    UnexpectedResp,
    /// The API answered with a non-zero code and its message.
    APIErr(i32, String),
    /// The transport failed or the server answered with a failure status.
    ReqwestErr(String),
    /// Anything else.
    Unknown(String),
}

/// The result type of the library.
pub type Result<T> = core::result::Result<T, Error>;

} // verus!
