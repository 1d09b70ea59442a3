//! Aggregate statistics of one executor call.

use vstd::prelude::*;
use crate::progress::{sum_downloaded, sum_uploaded, ProgressManager};

verus! {

/// What one batched fetch cost: bytes both ways, the number of requests
/// sent, the elapsed wall-clock time, and the time to the first byte of the
/// first response. All times are in milliseconds.
pub struct DownloadStats {
    pub downloaded: u64,
    pub uploaded: u64,
    pub requests: usize,
    pub time_ms: u64,
    pub latency_ms: u64,
}

impl DownloadStats {
    /// Combines a finished drive's progress into the final statistics.
    ///
    /// The latency is the first-response time; when no transfer ever
    /// produced data, it defaults to the whole elapsed time, which marks a
    /// batch that never got a response.
    pub fn from_progress(progress: &ProgressManager, num_requests: usize, elapsed_ms: u64) -> (r:
        DownloadStats)
        ensures
            r.downloaded == sum_downloaded(progress.samples@),
            r.uploaded == sum_uploaded(progress.samples@),
            r.requests == num_requests,
            r.time_ms == elapsed_ms,
            r.latency_ms == (match progress.first_response {
                Some(t) => t,
                None => elapsed_ms,
            }),
            progress.first_response is None ==> r.latency_ms == r.time_ms,
    {
        let (downloaded, uploaded) = progress.stats();
        let latency_ms = progress.first_response_time(elapsed_ms);
        DownloadStats { downloaded, uploaded, requests: num_requests, time_ms: elapsed_ms, latency_ms }
    }
}

} // verus!
