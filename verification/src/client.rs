//! The client façade: per-endpoint batching and streaming policy, URL
//! construction, and storage-sink wiring on top of the batch executor.

use vstd::prelude::*;
use vstd::string::StringExecFns;
use crate::batch::{chunk_keys, spec_num_batches};
use crate::driver::{copy_bytes, duplicate_creds, ClientCreds, PreparedTransfer, TransferManager};
use crate::errors::ApiError;
use crate::executor::multi_request;
use crate::keys::{bytes_eq, Key};
use crate::proto::{
    DataEntry, DataRequest, DataResponse, HistoryEntry, HistoryRequest, HistoryResponse,
    TreeRequest,
};
use crate::stats::DownloadStats;
use crate::store::{
    add_data_response, add_data_responses, add_history_entries, lemma_prefix_trans, DeltaStore,
    HistoryStore,
};
use crate::urls::{join_url, url_join_of, with_stream_query};

verus! {

/// Everything a client is built from. A missing base URL or repository name
/// is a configuration error; every other field has a working default.
pub struct Config {
    pub base_url: Option<String>,
    pub repo: Option<String>,
    pub creds: Option<ClientCreds>,
    pub data_batch_size: Option<usize>,
    pub history_batch_size: Option<usize>,
    pub validate: bool,
    pub stream_data: bool,
    pub stream_history: bool,
    pub stream_trees: bool,
}

impl Config {
    /// An empty configuration: no endpoint, no credentials, whole-list
    /// batches, no validation, non-streaming everywhere.
    pub fn new() -> (r: Config)
        ensures
            r.base_url is None,
            r.repo is None,
            r.creds is None,
            r.data_batch_size is None,
            r.history_batch_size is None,
            !r.validate,
            !r.stream_data,
            !r.stream_history,
            !r.stream_trees,
    {
        Config {
            base_url: None,
            repo: None,
            creds: None,
            data_batch_size: None,
            history_batch_size: None,
            validate: false,
            stream_data: false,
            stream_history: false,
            stream_trees: false,
        }
    }
}

/// The batch size an endpoint actually uses: the configured value, or the
/// whole key list when unset; never zero, so that batching is defined even
/// for an empty key list or a zero in the configuration.
pub open spec fn spec_batch_size(configured: Option<usize>, nkeys: int) -> int {
    match configured {
        None => if nkeys == 0 {
            1
        } else {
            nkeys
        },
        Some(s) => if s == 0 {
            1
        } else {
            s as int
        },
    }
}

/// The client façade. It exclusively owns the transfer-manager resource;
/// the threaded execution path shares it with a worker thread only under an
/// exclusive lock taken outside this crate.
pub struct EdenApiCurlClient<M: TransferManager> {
    pub multi: M,
    pub base_url: String,
    pub repo: String,
    pub creds: Option<ClientCreds>,
    pub data_batch_size: Option<usize>,
    pub history_batch_size: Option<usize>,
    pub validate: bool,
    pub stream_data: bool,
    pub stream_history: bool,
    pub stream_trees: bool,
}

/// The client's whole configuration — endpoint, credentials, batch sizes,
/// validation and streaming policy; everything but the transfer-manager
/// resource itself.
pub open spec fn same_config<M: TransferManager>(
    a: EdenApiCurlClient<M>,
    b: EdenApiCurlClient<M>,
) -> bool {
    &&& a.base_url@ == b.base_url@
    &&& a.repo@ == b.repo@
    &&& (a.creds is Some <==> b.creds is Some)
    &&& (a.creds matches Some(ca) ==> (b.creds matches Some(cb) && ca.certs@ == cb.certs@
        && ca.key@ == cb.key@))
    &&& a.data_batch_size == b.data_batch_size
    &&& a.history_batch_size == b.history_batch_size
    &&& a.validate == b.validate
    &&& a.stream_data == b.stream_data
    &&& a.stream_history == b.stream_history
    &&& a.stream_trees == b.stream_trees
}

impl<M: TransferManager> EdenApiCurlClient<M> {
    /// Builds a client over the given transfer-manager resource. Fails, and
    /// attempts no transfer, exactly when the base URL or the repository
    /// name is missing.
    pub fn new(config: Config, multi: M) -> (r: Result<EdenApiCurlClient<M>, ApiError>)
        ensures
            r is Ok <==> (config.base_url is Some && config.repo is Some),
            r matches Err(e) ==> e is Config,
            r matches Ok(c) ==> {
                &&& config.base_url matches Some(b) && c.base_url@ == b@
                &&& config.repo matches Some(p) && c.repo@ == p@
                &&& c.data_batch_size == config.data_batch_size
                &&& c.history_batch_size == config.history_batch_size
                &&& c.validate == config.validate
                &&& c.stream_data == config.stream_data
                &&& c.stream_history == config.stream_history
                &&& c.stream_trees == config.stream_trees
            },
    {
        let base_url = match config.base_url {
            None => {
                return Err(ApiError::Config { msg: String::from_str("No base URL specified") });
            },
            Some(u) => u,
        };
        let repo = match config.repo {
            None => {
                return Err(ApiError::Config { msg: String::from_str("No repo name specified") });
            },
            Some(p) => p,
        };
        Ok(
            EdenApiCurlClient {
                multi,
                base_url,
                repo,
                creds: config.creds,
                data_batch_size: config.data_batch_size,
                history_batch_size: config.history_batch_size,
                validate: config.validate,
                stream_data: config.stream_data,
                stream_history: config.stream_history,
                stream_trees: config.stream_trees,
            },
        )
    }

    /// The repository's base URL: the repository name, as a directory,
    /// resolved against the service's base URL.
    pub fn repo_base_url(&self) -> (r: Result<String, ApiError>)
        ensures
            r matches Ok(u) ==> u@ == url_join_of(self.base_url@, self.repo@ + "/"@),
            r matches Err(e) ==> e is Config,
    {
        let mut rel = self.repo.clone();
        rel.append("/");
        join_url(&self.base_url, &rel)
    }

    /// Fetches the content of every given key and writes each decoded entry
    /// into the delta store, validating content when configured to.
    pub fn get_files<S: DeltaStore>(&mut self, keys: Vec<Key>, store: &mut S) -> (r: Result<
        DownloadStats,
        ApiError,
    >)
        ensures
            old(store).view().is_prefix_of(final(store).view()),
            same_config(*old(self), *final(self)),
            r matches Ok(stats) ==> stats.requests == spec_num_batches(
                keys@.len() as int,
                spec_batch_size(old(self).data_batch_size, keys@.len() as int),
            ),
            r matches Err(e) ==> e is Config || e is Transfer || e is Protocol || e is Decode
                || e is Storage || e is Validation,
    {
        self.get_data(String::from_str("eden/data"), keys, store)
    }

    /// Fetches tree objects by key, exactly as `get_files` fetches files.
    pub fn get_trees<S: DeltaStore>(&mut self, keys: Vec<Key>, store: &mut S) -> (r: Result<
        DownloadStats,
        ApiError,
    >)
        ensures
            old(store).view().is_prefix_of(final(store).view()),
            same_config(*old(self), *final(self)),
            r matches Ok(stats) ==> stats.requests == spec_num_batches(
                keys@.len() as int,
                spec_batch_size(old(self).data_batch_size, keys@.len() as int),
            ),
            r matches Err(e) ==> e is Config || e is Transfer || e is Protocol || e is Decode
                || e is Storage || e is Validation,
    {
        self.get_data(String::from_str("eden/trees"), keys, store)
    }

    fn get_data<S: DeltaStore>(&mut self, path: String, keys: Vec<Key>, store: &mut S) -> (r:
        Result<DownloadStats, ApiError>)
        ensures
            old(store).view().is_prefix_of(final(store).view()),
            same_config(*old(self), *final(self)),
            r matches Ok(stats) ==> stats.requests == spec_num_batches(
                keys@.len() as int,
                spec_batch_size(old(self).data_batch_size, keys@.len() as int),
            ),
            r matches Err(e) ==> e is Config || e is Transfer || e is Protocol || e is Decode
                || e is Storage || e is Validation,
    {
        let base = match self.repo_base_url() {
            Ok(u) => u,
            Err(e) => {
                return Err(e);
            },
        };
        let url = match join_url(&base, &path) {
            Ok(u) => u,
            Err(e) => {
                return Err(e);
            },
        };
        let url = if self.stream_data {
            with_stream_query(url)
        } else {
            url
        };
        let nkeys = keys.len();
        let size = match self.data_batch_size {
            None => if nkeys == 0 {
                1
            } else {
                nkeys
            },
            Some(s) => if s == 0 {
                1
            } else {
                s
            },
        };
        let mut batches = chunk_keys(keys, size);
        let ghost num_batches = batches@.len();
        let mut requests: Vec<DataRequest> = Vec::new();
        while batches.len() > 0
            invariant
                requests@.len() + batches@.len() == num_batches,
            decreases batches@.len(),
        {
            let b = batches.remove(0);
            requests.push(DataRequest { keys: b });
        }
        if self.stream_data {
            let (res, delivered) = multi_request::<DataRequest, DataEntry, M>(
                &mut self.multi,
                &url,
                &self.creds,
                requests,
            );
            let mut delivered = delivered;
            while delivered.len() > 0
                invariant
                    same_config(*old(self), *self),
                    old(store).view().is_prefix_of(store.view()),
                decreases delivered@.len(),
            {
                let ghost mid = store.view();
                let entries = delivered.remove(0);
                let response = DataResponse::new(entries);
                match add_data_response(store, response, self.validate) {
                    Ok(()) => {
                        proof {
                            lemma_prefix_trans(old(store).view(), mid, store.view());
                        }
                    },
                    Err(e) => {
                        proof {
                            lemma_prefix_trans(old(store).view(), mid, store.view());
                        }
                        return Err(e);
                    },
                }
            }
            res
        } else {
            let (res, delivered) = multi_request::<DataRequest, DataResponse, M>(
                &mut self.multi,
                &url,
                &self.creds,
                requests,
            );
            let mut delivered = delivered;
            while delivered.len() > 0
                invariant
                    same_config(*old(self), *self),
                    old(store).view().is_prefix_of(store.view()),
                decreases delivered@.len(),
            {
                let ghost mid = store.view();
                let batch = delivered.remove(0);
                match add_data_responses(store, batch, self.validate) {
                    Ok(()) => {
                        proof {
                            lemma_prefix_trans(old(store).view(), mid, store.view());
                        }
                    },
                    Err(e) => {
                        proof {
                            lemma_prefix_trans(old(store).view(), mid, store.view());
                        }
                        return Err(e);
                    },
                }
            }
            res
        }
    }

    /// Fetches the history of every given key, to the given depth, and
    /// writes each decoded entry into the history store.
    pub fn get_history<S: HistoryStore>(
        &mut self,
        keys: Vec<Key>,
        store: &mut S,
        max_depth: Option<u32>,
    ) -> (r: Result<DownloadStats, ApiError>)
        ensures
            old(store).view().is_prefix_of(final(store).view()),
            same_config(*old(self), *final(self)),
            r matches Ok(stats) ==> stats.requests == spec_num_batches(
                keys@.len() as int,
                spec_batch_size(old(self).history_batch_size, keys@.len() as int),
            ),
            r matches Err(e) ==> e is Config || e is Transfer || e is Protocol || e is Decode
                || e is Storage,
    {
        let base = match self.repo_base_url() {
            Ok(u) => u,
            Err(e) => {
                return Err(e);
            },
        };
        let url = match join_url(&base, &String::from_str("eden/history")) {
            Ok(u) => u,
            Err(e) => {
                return Err(e);
            },
        };
        let url = if self.stream_history {
            with_stream_query(url)
        } else {
            url
        };
        let depth: Option<u64> = match max_depth {
            None => None,
            Some(d) => Some(d as u64),
        };
        let nkeys = keys.len();
        let size = match self.history_batch_size {
            None => if nkeys == 0 {
                1
            } else {
                nkeys
            },
            Some(s) => if s == 0 {
                1
            } else {
                s
            },
        };
        let mut batches = chunk_keys(keys, size);
        let ghost num_batches = batches@.len();
        let mut requests: Vec<HistoryRequest> = Vec::new();
        while batches.len() > 0
            invariant
                requests@.len() + batches@.len() == num_batches,
            decreases batches@.len(),
        {
            let b = batches.remove(0);
            requests.push(HistoryRequest { keys: b, depth });
        }
        if self.stream_history {
            let (res, delivered) = multi_request::<HistoryRequest, HistoryEntry, M>(
                &mut self.multi,
                &url,
                &self.creds,
                requests,
            );
            let mut delivered = delivered;
            while delivered.len() > 0
                invariant
                    same_config(*old(self), *self),
                    old(store).view().is_prefix_of(store.view()),
                decreases delivered@.len(),
            {
                let ghost mid = store.view();
                let batch = delivered.remove(0);
                match add_history_entries(store, batch) {
                    Ok(()) => {
                        proof {
                            lemma_prefix_trans(old(store).view(), mid, store.view());
                        }
                    },
                    Err(e) => {
                        proof {
                            lemma_prefix_trans(old(store).view(), mid, store.view());
                        }
                        return Err(e);
                    },
                }
            }
            res
        } else {
            let (res, delivered) = multi_request::<HistoryRequest, HistoryResponse, M>(
                &mut self.multi,
                &url,
                &self.creds,
                requests,
            );
            let mut delivered = delivered;
            while delivered.len() > 0
                invariant
                    same_config(*old(self), *self),
                    old(store).view().is_prefix_of(store.view()),
                decreases delivered@.len(),
            {
                let mut batch = delivered.remove(0);
                while batch.len() > 0
                    invariant
                        same_config(*old(self), *self),
                        old(store).view().is_prefix_of(store.view()),
                    decreases batch@.len(),
                {
                    let ghost mid = store.view();
                    let response = batch.remove(0);
                    match add_history_entries(store, response.entries) {
                        Ok(()) => {
                            proof {
                                lemma_prefix_trans(old(store).view(), mid, store.view());
                            }
                        },
                        Err(e) => {
                            proof {
                                lemma_prefix_trans(old(store).view(), mid, store.view());
                            }
                            return Err(e);
                        },
                    }
                }
            }
            res
        }
    }

    /// Prefetches a subtree: one logical request naming the root directory,
    /// the manifest nodes wanted and those already present; decoded entries
    /// land in the delta store like data entries.
    pub fn prefetch_trees<S: DeltaStore>(
        &mut self,
        rootdir: Vec<u8>,
        mfnodes: Vec<Vec<u8>>,
        basemfnodes: Vec<Vec<u8>>,
        depth: Option<u64>,
        store: &mut S,
    ) -> (r: Result<DownloadStats, ApiError>)
        ensures
            old(store).view().is_prefix_of(final(store).view()),
            same_config(*old(self), *final(self)),
            r matches Ok(stats) ==> stats.requests == 1,
            r matches Err(e) ==> e is Config || e is Transfer || e is Protocol || e is Decode
                || e is Storage || e is Validation,
    {
        let base = match self.repo_base_url() {
            Ok(u) => u,
            Err(e) => {
                return Err(e);
            },
        };
        let url = match join_url(&base, &String::from_str("eden/trees/prefetch")) {
            Ok(u) => u,
            Err(e) => {
                return Err(e);
            },
        };
        let url = if self.stream_trees {
            with_stream_query(url)
        } else {
            url
        };
        let mut requests: Vec<TreeRequest> = Vec::new();
        requests.push(TreeRequest { rootdir, mfnodes, basemfnodes, depth });
        if self.stream_trees {
            let (res, delivered) = multi_request::<TreeRequest, DataEntry, M>(
                &mut self.multi,
                &url,
                &self.creds,
                requests,
            );
            let mut delivered = delivered;
            while delivered.len() > 0
                invariant
                    same_config(*old(self), *self),
                    old(store).view().is_prefix_of(store.view()),
                decreases delivered@.len(),
            {
                let ghost mid = store.view();
                let entries = delivered.remove(0);
                let response = DataResponse::new(entries);
                match add_data_response(store, response, self.validate) {
                    Ok(()) => {
                        proof {
                            lemma_prefix_trans(old(store).view(), mid, store.view());
                        }
                    },
                    Err(e) => {
                        proof {
                            lemma_prefix_trans(old(store).view(), mid, store.view());
                        }
                        return Err(e);
                    },
                }
            }
            res
        } else {
            let (res, delivered) = multi_request::<TreeRequest, DataResponse, M>(
                &mut self.multi,
                &url,
                &self.creds,
                requests,
            );
            let mut delivered = delivered;
            while delivered.len() > 0
                invariant
                    same_config(*old(self), *self),
                    old(store).view().is_prefix_of(store.view()),
                decreases delivered@.len(),
            {
                let ghost mid = store.view();
                let batch = delivered.remove(0);
                match add_data_responses(store, batch, self.validate) {
                    Ok(()) => {
                        proof {
                            lemma_prefix_trans(old(store).view(), mid, store.view());
                        }
                    },
                    Err(e) => {
                        proof {
                            lemma_prefix_trans(old(store).view(), mid, store.view());
                        }
                        return Err(e);
                    },
                }
            }
            res
        }
    }

    /// Asks the service whether it is alive: a single GET whose response
    /// must be status 200 with exactly the expected body.
    pub fn health_check(&mut self) -> (r: Result<(), ApiError>)
        ensures
            same_config(*old(self), *final(self)),
            r matches Err(e) ==> e is Config || e is Transfer || e is Protocol,
    {
        let url = match join_url(&self.base_url, &String::from_str("/health_check")) {
            Ok(u) => u,
            Err(e) => {
                return Err(e);
            },
        };
        let o = match self.single_get(url) {
            Ok(o) => o,
            Err(e) => {
                return Err(e);
            },
        };
        check_health_response(o.0, &o.1)
    }

    /// Asks the service for its host name: a single GET whose status-200
    /// body is the name.
    pub fn hostname(&mut self) -> (r: Result<String, ApiError>)
        ensures
            same_config(*old(self), *final(self)),
            r matches Err(e) ==> e is Config || e is Transfer || e is Protocol || e is Decode,
    {
        let url = match join_url(&self.base_url, &String::from_str("/hostname")) {
            Ok(u) => u,
            Err(e) => {
                return Err(e);
            },
        };
        let o = match self.single_get(url) {
            Ok(o) => o,
            Err(e) => {
                return Err(e);
            },
        };
        hostname_from_response(o.0, o.1)
    }

    /// Performs one GET outside the batch machinery and hands back the
    /// status and body of its outcome.
    fn single_get(&mut self, url: String) -> (r: Result<(u32, Vec<u8>), ApiError>)
        ensures
            same_config(*old(self), *final(self)),
            r matches Err(e) ==> e is Transfer,
    {
        let mut transfers: Vec<PreparedTransfer> = Vec::new();
        transfers.push(
            PreparedTransfer {
                is_post: false,
                url,
                body: Vec::new(),
                content_type: String::new(),
                creds: duplicate_creds(&self.creds),
            },
        );
        let report = self.multi.perform_all(transfers);
        if report.outcomes.len() == 0 {
            return Err(
                ApiError::Transfer { msg: String::from_str("no outcome for the transfer") },
            );
        }
        let o = &report.outcomes[0];
        if o.failed {
            return Err(
                ApiError::Transfer { msg: String::from_str("transfer failed at the network level") },
            );
        }
        Ok((o.status, copy_bytes(&o.body)))
    }
}

/// The exact body a live service answers with.
pub open spec fn alive_msg() -> Seq<u8> {
    seq![73u8, 95u8, 65u8, 77u8, 95u8, 65u8, 76u8, 73u8, 86u8, 69u8]
}

/// The expected health-check body, as bytes.
pub fn alive_body() -> (r: Vec<u8>)
    ensures
        r@ == alive_msg(),
{
    let mut r: Vec<u8> = Vec::new();
    r.push(73);
    r.push(95);
    r.push(65);
    r.push(77);
    r.push(95);
    r.push(65);
    r.push(76);
    r.push(73);
    r.push(86);
    r.push(69);
    proof {
        assert(r@ =~= alive_msg());
    }
    r
}

/// Judges one health-check response: healthy exactly when the status is 200
/// and the body is exactly the expected text; anything else is a protocol
/// failure carrying the status and the body.
pub fn check_health_response(status: u32, body: &Vec<u8>) -> (r: Result<(), ApiError>)
    ensures
        r is Ok <==> (status == 200 && body@ == alive_msg()),
        r matches Err(e) ==> e matches ApiError::Protocol { status: s, body: b } && s == status
            && b@ == body@,
{
    if status != 200 {
        return Err(ApiError::Protocol { status, body: copy_bytes(body) });
    }
    let expected = alive_body();
    if bytes_eq(body, &expected) {
        Ok(())
    } else {
        Err(ApiError::Protocol { status, body: copy_bytes(body) })
    }
}

/// Relies on String::from_utf8: yields the decoded characters of the bytes,
/// and fails exactly on bytes that are not valid UTF-8.
#[verifier::external_body]
fn bytes_to_string(b: Vec<u8>) -> (r: Option<String>)
    ensures
        r matches Some(s) ==> vstd::utf8::valid_utf8(b@) && s@ == vstd::utf8::decode_utf8(b@),
        r is None ==> !vstd::utf8::valid_utf8(b@),
{
    String::from_utf8(b).ok()
}

/// Judges one hostname response: the status must be 200 and the body must
/// be text; the text is the host's name.
pub fn hostname_from_response(status: u32, body: Vec<u8>) -> (r: Result<String, ApiError>)
    ensures
        r is Ok <==> (status == 200 && vstd::utf8::valid_utf8(body@)),
        r matches Ok(s) ==> s@ == vstd::utf8::decode_utf8(body@),
        status != 200 ==> (r matches Err(e) && e matches ApiError::Protocol {
            status: s,
            body: b,
        } && s == status && b@ == body@),
        status == 200 && !vstd::utf8::valid_utf8(body@) ==> (r matches Err(e) && e is Decode),
{
    if status != 200 {
        return Err(ApiError::Protocol { status, body });
    }
    match bytes_to_string(body) {
        Some(s) => Ok(s),
        None => Err(ApiError::Decode),
    }
}

} // verus!
