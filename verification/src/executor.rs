//! The batch request executor: one transfer per request payload, driven
//! concurrently, decoded in completion order, never tolerating a partial
//! batch failure.

use vstd::prelude::*;
use crate::driver::{
    duplicate_creds, wire_content_type, ClientCreds, MultiDriver, PreparedTransfer,
    TransferManager,
};
use crate::errors::ApiError;
use crate::progress::ProgressManager;
use crate::stats::DownloadStats;
use crate::wire::{all_wf, seq_view, Wire};

verus! {

/// Assembles one POST transfer: the payload in the wire format as the body,
/// the wire encoding's media type as the content type, and a copy of the
/// client credentials attached.
pub fn prepare_post<R: Wire>(url: &String, creds: &Option<ClientCreds>, request: &R) -> (t:
    PreparedTransfer)
    ensures
        t.is_post,
        t.url@ == url@,
        t.body@ == R::enc(request@),
        R::wf(request@),
        t.content_type@ == "application/x-eden-wire"@,
        t.creds is Some <==> creds is Some,
        t.creds matches Some(c) ==> (creds matches Some(o) && c.certs@ == o.certs@ && c.key@
            == o.key@),
{
    let mut body: Vec<u8> = Vec::new();
    request.encode_to(&mut body);
    PreparedTransfer {
        is_post: true,
        url: url.clone(),
        body,
        content_type: wire_content_type(),
        creds: duplicate_creds(creds),
    }
}

/// Sends one concurrent POST per request payload, each body the payload in
/// the wire format, and decodes each response body as a sequence of `T`
/// values, in completion order, failing fast on the first transfer that
/// errors or does not decode.
///
/// The transfer manager decides what comes back, so nothing promises that
/// the call succeeds; what is promised holds of every report: on success the
/// statistics count exactly one request per payload, on failure the error is
/// a transfer, protocol or decode error, and the decoded batches returned
/// beside the result are exactly those that completed strictly before the
/// first failure.
pub fn multi_request<R: Wire, T: Wire, M: TransferManager>(
    multi: &mut M,
    url: &String,
    creds: &Option<ClientCreds>,
    requests: Vec<R>,
) -> (r: (Result<DownloadStats, ApiError>, Vec<Vec<T>>))
    ensures
        r.0 matches Ok(stats) ==> stats.requests == requests@.len(),
        r.0 matches Err(e) ==> e is Transfer || e is Protocol || e is Decode,
        forall|i: int| 0 <= i < r.1@.len() ==> all_wf::<T>(seq_view(#[trigger] r.1@[i]@)),
{
    let num_requests = requests.len();
    let mut progress = ProgressManager::with_capacity(num_requests);
    let mut transfers: Vec<PreparedTransfer> = Vec::new();
    let mut i: usize = 0;
    while i < num_requests
        invariant
            num_requests == requests@.len(),
            i <= num_requests,
            progress.samples@.len() == i,
        decreases num_requests - i,
    {
        let _handle = progress.register();
        transfers.push(prepare_post(url, creds, &requests[i]));
        i = i + 1;
    }
    let mut driver = MultiDriver::new();
    driver.fail_early(true);
    let report = multi.perform_all(transfers);
    let (batches, err) = driver.process::<T>(&report.outcomes);
    let mut j: usize = 0;
    while j < report.outcomes.len()
        invariant
            progress.samples@.len() == num_requests,
            j <= report.outcomes@.len(),
        decreases report.outcomes@.len() - j,
    {
        let o = &report.outcomes[j];
        if o.index < num_requests {
            progress.update(o.index, o.downloaded, o.uploaded, o.first_byte_ms);
        }
        j = j + 1;
    }
    let stats = DownloadStats::from_progress(&progress, num_requests, report.elapsed_ms);
    match err {
        Some(e) => (Err(e), batches),
        None => (Ok(stats), batches),
    }
}

/// What joining the worker thread of the threaded executor yields: the
/// worker's own result where it finished, and a worker-panic error — never a
/// raw panic — where the join found the worker dead.
pub fn worker_join_result(joined: Option<Result<DownloadStats, ApiError>>) -> (r: Result<
    DownloadStats,
    ApiError,
>)
    ensures
        joined is None ==> (r matches Err(e) && e is WorkerPanic),
        joined matches Some(inner) ==> r == inner,
{
    match joined {
        None => Err(ApiError::WorkerPanic),
        Some(inner) => inner,
    }
}

} // verus!
