//! Error taxonomy of the correlation layer.

use vstd::prelude::*;
use crate::codec::EngineError;

verus! {

/// Why a response that did arrive carried no usable payload: the worker
/// reported success without data, reported an error with details, or
/// reported failure without any.
pub enum CommandFailure {
    NoData,
    Reported(EngineError),
    Unspecified,
}

/// Why a dispatched command did not produce a response.
///
/// `NotConnected` and `Timeout` are recoverable for the caller;
/// `WriteFailure` signals a broken input stream, `ChannelClosed` that the
/// worker exited while the request was pending, and `MalformedResponse`
/// that a reply arrived for the request but its payload did not have the
/// shape the caller expected.
#[derive(Debug, PartialEq, Eq, Structural, Clone, Copy)]
pub enum DispatchError {
    NotConnected,
    WriteFailure,
    Timeout,
    ChannelClosed,
    MalformedResponse,
}

/// Why acquiring the single-instance lock failed.
///
/// `AlreadyRunning` is the distinct, user-facing condition of another live
/// host process holding the lock; the other two are plain I/O failures on
/// the way to the lock attempt.
#[derive(Debug, PartialEq, Eq, Structural, Clone, Copy)]
pub enum GuardError {
    DirCreateFailed,
    OpenFailed,
    AlreadyRunning,
}

} // verus!
