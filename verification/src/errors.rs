//! The error kinds of the fetching engine.

use vstd::prelude::*;

verus! {

/// Everything that can go wrong in one batched fetch.
///
/// - `Config`: a required configuration value is missing or malformed; no
///   transfers are attempted.
/// - `Transfer`: a transfer failed at the network level before producing an
///   HTTP status.
/// - `Protocol`: the server answered with a status of 400 or above; carries
///   the status and the raw response body.
/// - `Decode`: a response body was not a well-formed sequence of wire values.
/// - `Storage`: the local store rejected a decoded entry.
/// - `WorkerPanic`: the worker thread of the threaded executor panicked.
/// - `Validation`: a decoded entry's content did not match its content
///   identifier; carries the path of the offending key.
#[derive(Debug)]
pub enum ApiError {
    Config { msg: String },
    Transfer { msg: String },
    Protocol { status: u32, body: Vec<u8> },
    Decode,
    Storage { msg: String },
    WorkerPanic,
    Validation { path: Vec<u8> },
}

impl ApiError {
    /// True for the error kind produced by a missing or bad configuration.
    pub fn is_config(&self) -> (r: bool)
        ensures
            r == (self is Config),
    {
        match self {
            ApiError::Config { .. } => true,
            _ => false,
        }
    }

    /// True for the error kind produced by a worker thread that panicked.
    pub fn is_worker_panic(&self) -> (r: bool)
        ensures
            r == (self is WorkerPanic),
    {
        match self {
            ApiError::WorkerPanic => true,
            _ => false,
        }
    }
}

} // verus!
