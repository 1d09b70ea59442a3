//! The request kinds of the large-file endpoint, and the per-request
//! context its middleware builds up.

use vstd::prelude::*;
use vstd::string::StringExecFns;
use crate::context::CoreContext;

verus! {

/// What one large-file request does. The last kind pushes git objects and
/// does not belong to the large-file protocol proper.
#[derive(Clone, Copy)]
pub enum LfsMethod {
    Upload,
    Download,
    DownloadSha256,
    Batch,
    GitBlob,
}

impl LfsMethod {
    /// True for the kinds that never write: downloads and batch queries.
    pub fn is_read_only(&self) -> (r: bool)
        ensures
            r == (self is Download || self is DownloadSha256 || self is Batch),
    {
        match self {
            LfsMethod::Download | LfsMethod::DownloadSha256 | LfsMethod::Batch => true,
            LfsMethod::Upload | LfsMethod::GitBlob => false,
        }
    }

    /// The kind's name, as logs and counters spell it.
    pub fn name(&self) -> (r: String)
        ensures
            self is Upload ==> r@ == "upload"@,
            self is Download ==> r@ == "download"@,
            self is DownloadSha256 ==> r@ == "download_sha256"@,
            self is Batch ==> r@ == "batch"@,
            self is GitBlob ==> r@ == "git_blob_upload"@,
    {
        match self {
            LfsMethod::Upload => String::from_str("upload"),
            LfsMethod::Download => String::from_str("download"),
            LfsMethod::DownloadSha256 => String::from_str("download_sha256"),
            LfsMethod::Batch => String::from_str("batch"),
            LfsMethod::GitBlob => String::from_str("git_blob_upload"),
        }
    }
}

/// What the middleware knows about one request: its context, and — once the
/// route is known — the repository and method it addresses.
pub struct RequestContext {
    pub ctx: CoreContext,
    pub repository: Option<String>,
    pub method: Option<LfsMethod>,
    pub error_msg: Option<String>,
    pub should_log: bool,
}

impl RequestContext {
    pub fn new(ctx: CoreContext, should_log: bool) -> (r: RequestContext)
        ensures
            r.ctx == ctx,
            r.repository is None,
            r.method is None,
            r.error_msg is None,
            r.should_log == should_log,
    {
        RequestContext { ctx, repository: None, method: None, error_msg: None, should_log }
    }

    /// Records which repository and method the routed request addresses.
    pub fn set_request(&mut self, repository: String, method: LfsMethod)
        ensures
            final(self).repository matches Some(s) && s@ == repository@,
            final(self).method == Some(method),
            final(self).ctx == old(self).ctx,
            final(self).error_msg == old(self).error_msg,
            final(self).should_log == old(self).should_log,
    {
        self.repository = Some(repository);
        self.method = Some(method);
    }
}

} // verus!
