use edenapi::batch::chunk_keys;
use edenapi::blob::{Blobstore, CensoredBlob, MemBlob, PrefixBlobstore, RecordingHandler, SamplingBlobstore};
use edenapi::client::{alive_body, check_health_response, hostname_from_response, Config, EdenApiCurlClient};
use edenapi::cloud::{CheckoutLocations, WorkspaceCheckoutLocation};
use edenapi::context::{CoreContext, SamplingKey};
use edenapi::driver::{DriveReport, MultiDriver, ScriptedTransferManager, TransferOutcome};
use edenapi::errors::ApiError;
use edenapi::executor::worker_join_result;
use edenapi::fetch::{contains_str, detect_decode, get_blobconfig, BlobConfig};
use edenapi::keys::{checksum, validate_entry, Key};
use edenapi::lfs::{LfsMethod, RequestContext};
use edenapi::progress::ProgressManager;
use edenapi::proto::{DataEntry, DataRequest, DataResponse, HistoryEntry, HistoryRequest, HistoryResponse, TreeRequest};
use edenapi::stats::DownloadStats;
use edenapi::store::{add_data_response, DeltaStore, HistoryStore, MemDeltaStore, MemHistoryStore};
use edenapi::wire::{decode_stream, decode_u64, encode_u64, Wire};
use edenapi::blob::{get_cache, get_from_sources, CacheBlob};
use edenapi::progress::TransferHandle;
use edenapi::store::add_history_entries;

fn key(path: &[u8], node: &[u8]) -> Key {
    Key::new(path.to_vec(), node.to_vec())
}

fn keys(n: usize) -> Vec<Key> {
    (0..n).map(|i| key(format!("path/{}", i).as_bytes(), &[i as u8; 20])).collect()
}

fn ok_outcome(index: usize, body: Vec<u8>) -> TransferOutcome {
    TransferOutcome {
        index,
        failed: false,
        status: 200,
        body,
        downloaded: 10,
        uploaded: 5,
        first_byte_ms: Some(3),
    }
}

#[test]
fn test_chunk_exact_sizes() {
    // Batch size 2, five keys: exactly three batches of sizes 2, 2, 1.
    let batches = chunk_keys(keys(5), 2);
    assert_eq!(batches.len(), 3);
    assert_eq!(batches[0].len(), 2);
    assert_eq!(batches[1].len(), 2);
    assert_eq!(batches[2].len(), 1);
}

#[test]
fn test_chunk_concat_reproduces_keys() {
    let original = keys(7);
    let batches = chunk_keys(keys(7), 3);
    let flat: Vec<&Key> = batches.iter().flatten().collect();
    assert_eq!(flat.len(), original.len());
    for (a, b) in flat.iter().zip(original.iter()) {
        assert_eq!(a.path, b.path);
        assert_eq!(a.node, b.node);
    }
    // No key appears twice.
    for i in 0..flat.len() {
        for j in 0..flat.len() {
            if i != j {
                assert!(flat[i].path != flat[j].path);
            }
        }
    }
}

#[test]
fn test_chunk_whole_list_single_batch() {
    let batches = chunk_keys(keys(4), 4);
    assert_eq!(batches.len(), 1);
    assert_eq!(batches[0].len(), 4);
    let batches = chunk_keys(keys(0), 1);
    assert_eq!(batches.len(), 0);
}

#[test]
fn test_u64_wire_exact_bytes() {
    let mut out = Vec::new();
    encode_u64(258, &mut out);
    assert_eq!(out, vec![2u8, 1, 0, 0, 0, 0, 0, 0]);
    let (v, end) = decode_u64(&out, 0).unwrap();
    assert_eq!(v, 258);
    assert_eq!(end, 8);
}

#[test]
fn test_roundtrip_data_request() {
    let req = DataRequest { keys: keys(3) };
    let mut body = Vec::new();
    req.encode_to(&mut body);
    let (back, end) = DataRequest::decode_from(&body, 0).unwrap();
    assert_eq!(end, body.len());
    assert_eq!(back.keys.len(), 3);
    for (a, b) in back.keys.iter().zip(keys(3).iter()) {
        assert_eq!(a.path, b.path);
        assert_eq!(a.node, b.node);
    }
}

#[test]
fn test_roundtrip_history_request() {
    let req = HistoryRequest { keys: keys(2), depth: Some(7) };
    let mut body = Vec::new();
    req.encode_to(&mut body);
    let (back, end) = HistoryRequest::decode_from(&body, 0).unwrap();
    assert_eq!(end, body.len());
    assert_eq!(back.keys.len(), 2);
    assert_eq!(back.depth, Some(7));
}

#[test]
fn test_roundtrip_tree_request() {
    let req = TreeRequest {
        rootdir: b"dir".to_vec(),
        mfnodes: vec![vec![1u8; 20], vec![2u8; 20]],
        basemfnodes: vec![vec![3u8; 20]],
        depth: None,
    };
    let mut body = Vec::new();
    req.encode_to(&mut body);
    let (back, end) = TreeRequest::decode_from(&body, 0).unwrap();
    assert_eq!(end, body.len());
    assert_eq!(back.rootdir, b"dir".to_vec());
    assert_eq!(back.mfnodes, vec![vec![1u8; 20], vec![2u8; 20]]);
    assert_eq!(back.basemfnodes, vec![vec![3u8; 20]]);
    assert_eq!(back.depth, None);
}

#[test]
fn test_stream_decode_delivers_all_units() {
    // Encoding N response units and decoding the body yields exactly N units.
    let mut body = Vec::new();
    for i in 0..4u8 {
        let entry = DataEntry { key: key(b"p", &[i; 20]), data: vec![i, i] };
        entry.encode_to(&mut body);
    }
    let units: Vec<DataEntry> = decode_stream(&body).unwrap();
    assert_eq!(units.len(), 4);
    for (i, u) in units.iter().enumerate() {
        assert_eq!(u.data, vec![i as u8, i as u8]);
    }
    // A trailing garbage byte makes the stream malformed.
    body.push(0xff);
    assert!(decode_stream::<DataEntry>(&body).is_none());
}

fn encoded_response_of(entries: Vec<DataEntry>) -> Vec<u8> {
    let mut body = Vec::new();
    DataResponse::new(entries).encode_to(&mut body);
    body
}

#[test]
fn test_fail_fast_third_transfer_fails() {
    // Five transfers; the one completing third answers 500: the call errors
    // and only the batches before the failure are delivered.
    let mut outcomes = Vec::new();
    for i in 0..5usize {
        if i == 2 {
            outcomes.push(TransferOutcome {
                index: i,
                failed: false,
                status: 500,
                body: b"boom".to_vec(),
                downloaded: 0,
                uploaded: 0,
                first_byte_ms: None,
            });
        } else {
            let body = encoded_response_of(vec![DataEntry {
                key: key(b"p", &[i as u8; 20]),
                data: vec![i as u8],
            }]);
            outcomes.push(ok_outcome(i, body));
        }
    }
    let mut driver = MultiDriver::new();
    driver.fail_early(true);
    let (batches, err) = driver.process::<DataResponse>(&outcomes);
    assert_eq!(batches.len(), 2);
    match err {
        Some(ApiError::Protocol { status, body }) => {
            assert_eq!(status, 500);
            assert_eq!(body, b"boom".to_vec());
        },
        other => panic!("unexpected driver result: {:?}", other.is_some()),
    }
}

#[test]
fn test_driver_keeps_completion_order() {
    let mut outcomes = Vec::new();
    for i in [3usize, 1, 2] {
        let body = encoded_response_of(vec![DataEntry {
            key: key(b"p", &[i as u8; 20]),
            data: vec![i as u8],
        }]);
        outcomes.push(ok_outcome(i, body));
    }
    let driver = MultiDriver { fail_early: true };
    let (batches, err) = driver.process::<DataResponse>(&outcomes);
    assert!(err.is_none());
    let order: Vec<u8> = batches.iter().map(|b| b[0].entries[0].data[0]).collect();
    assert_eq!(order, vec![3, 1, 2]);
}

#[test]
fn test_worker_panic_becomes_error() {
    let r = worker_join_result(None);
    match r {
        Err(e) => assert!(e.is_worker_panic()),
        Ok(_) => panic!("a lost worker must be an error"),
    }
    let stats = DownloadStats { downloaded: 1, uploaded: 2, requests: 3, time_ms: 4, latency_ms: 5 };
    let r = worker_join_result(Some(Ok(stats)));
    assert_eq!(r.unwrap().requests, 3);
}

#[test]
fn test_latency_defaults_to_elapsed() {
    // No transfer ever responds: the reported latency equals the elapsed time.
    let mut progress = ProgressManager::with_capacity(2);
    let a = progress.register();
    let b = progress.register();
    progress.update(a, 0, 0, None);
    progress.update(b, 0, 0, None);
    let stats = DownloadStats::from_progress(&progress, 2, 1234);
    assert_eq!(stats.time_ms, 1234);
    assert_eq!(stats.latency_ms, 1234);
    assert_eq!(stats.requests, 2);
}

#[test]
fn test_progress_totals_and_first_response() {
    let mut progress = ProgressManager::with_capacity(2);
    let a = progress.register();
    let b = progress.register();
    progress.update(a, 10, 1, Some(50));
    let first = progress.stats();
    progress.update(b, 20, 2, Some(30));
    let second = progress.stats();
    assert_eq!(first, (10, 1));
    assert_eq!(second, (30, 3));
    // Totals never decreased; the earliest first byte wins.
    assert!(second.0 >= first.0 && second.1 >= first.1);
    assert_eq!(progress.first_response_time(999), 30);
    let stats = DownloadStats::from_progress(&progress, 2, 100);
    assert_eq!(stats.downloaded, 30);
    assert_eq!(stats.latency_ms, 30);
}

fn client_with(
    reports: Vec<DriveReport>,
    batch: Option<usize>,
    validate: bool,
    stream_data: bool,
) -> EdenApiCurlClient<ScriptedTransferManager> {
    let config = Config {
        base_url: Some("https://example.com/".to_string()),
        repo: Some("repo".to_string()),
        creds: None,
        data_batch_size: batch,
        history_batch_size: batch,
        validate,
        stream_data,
        stream_history: false,
        stream_trees: false,
    };
    EdenApiCurlClient::new(config, ScriptedTransferManager::new(reports)).unwrap()
}

#[test]
fn test_get_files_end_to_end() {
    // Three keys, batch size unset, non-streaming: exactly one POST to the
    // data endpoint, all three entries validated and written exactly once,
    // and the stats report one request.
    let mut entries = Vec::new();
    for i in 0..3u8 {
        let data = vec![i, i, i];
        let node = checksum(&data);
        entries.push(DataEntry { key: key(format!("file/{}", i).as_bytes(), &node), data });
    }
    let wanted: Vec<Key> =
        entries.iter().map(|e| key(&e.key.path.clone(), &e.key.node.clone())).collect();
    let body = encoded_response_of(entries);
    let report = DriveReport { outcomes: vec![ok_outcome(0, body)], elapsed_ms: 77 };
    let mut client = client_with(vec![report], None, true, false);
    let mut store = MemDeltaStore::new();
    let stats = client.get_files(wanted, &mut store).unwrap();
    assert_eq!(stats.requests, 1);
    assert_eq!(stats.time_ms, 77);
    assert_eq!(store.deltas.len(), 3);
    for (i, d) in store.deltas.iter().enumerate() {
        assert_eq!(d.0.data, vec![i as u8, i as u8, i as u8]);
        assert!(d.0.base.is_none());
        // The metadata written with each delta records the content's size.
        assert_eq!(d.1.size, Some(3));
        assert_eq!(d.1.flags, None);
    }
    // Exactly one drive, with exactly one POST to the data endpoint, its
    // body labelled with the wire encoding's media type.
    assert_eq!(client.multi.calls.len(), 1);
    assert_eq!(client.multi.calls[0].len(), 1);
    assert!(client.multi.calls[0][0].is_post);
    assert_eq!(client.multi.calls[0][0].url, "https://example.com/repo/eden/data");
    assert_eq!(client.multi.calls[0][0].content_type, "application/x-eden-wire");
}

#[test]
fn test_get_files_streaming_url_and_units() {
    let mut body = Vec::new();
    let data = b"abc".to_vec();
    let node = checksum(&data);
    DataEntry { key: key(b"f", &node), data }.encode_to(&mut body);
    let report = DriveReport { outcomes: vec![ok_outcome(0, body)], elapsed_ms: 1 };
    let mut client = client_with(vec![report], None, true, true);
    let mut store = MemDeltaStore::new();
    let stats = client.get_files(vec![key(b"f", &[0; 20])], &mut store).unwrap();
    assert_eq!(stats.requests, 1);
    assert_eq!(store.deltas.len(), 1);
    assert_eq!(store.deltas[0].0.data, b"abc".to_vec());
    assert_eq!(client.multi.calls[0][0].url, "https://example.com/repo/eden/data?stream=true");
}

#[test]
fn test_get_files_decode_error() {
    let report = DriveReport {
        outcomes: vec![ok_outcome(0, b"not wire data".to_vec())],
        elapsed_ms: 1,
    };
    let mut client = client_with(vec![report], None, false, false);
    let mut store = MemDeltaStore::new();
    match client.get_files(keys(1), &mut store) {
        Err(ApiError::Decode) => {},
        _ => panic!("garbage bodies must fail decoding"),
    }
    assert_eq!(store.deltas.len(), 0);
}

#[test]
fn test_get_files_validation_error() {
    let entries = vec![DataEntry { key: key(b"f", &[9u8; 20]), data: b"xyz".to_vec() }];
    let body = encoded_response_of(entries);
    let report = DriveReport { outcomes: vec![ok_outcome(0, body)], elapsed_ms: 1 };
    let mut client = client_with(vec![report], None, true, false);
    let mut store = MemDeltaStore::new();
    match client.get_files(vec![key(b"f", &[9u8; 20])], &mut store) {
        Err(ApiError::Validation { path }) => assert_eq!(path, b"f".to_vec()),
        _ => panic!("a wrong content identifier must fail validation"),
    }
}

#[test]
fn test_get_history_batches() {
    // Two batches of history entries, delivered in completion order.
    let mut bodies = Vec::new();
    for b in 0..2u8 {
        let entry = HistoryEntry {
            path: vec![b],
            node: vec![b; 20],
            p1: vec![0; 20],
            p2: vec![0; 20],
            linknode: vec![b; 20],
        };
        let mut body = Vec::new();
        HistoryResponse::new(vec![entry]).encode_to(&mut body);
        bodies.push(body);
    }
    let report = DriveReport {
        outcomes: vec![ok_outcome(0, bodies.remove(0)), ok_outcome(1, bodies.remove(0))],
        elapsed_ms: 9,
    };
    let mut client = client_with(vec![report], Some(1), false, false);
    let mut store = MemHistoryStore::new();
    let stats = client.get_history(keys(2), &mut store, Some(10)).unwrap();
    assert_eq!(stats.requests, 2);
    assert_eq!(store.entries.len(), 2);
    assert_eq!(store.entries[0].path, vec![0]);
    assert_eq!(store.entries[1].path, vec![1]);
}

#[test]
fn test_prefetch_trees_single_request() {
    let data = b"tree".to_vec();
    let node = checksum(&data);
    let body = encoded_response_of(vec![DataEntry { key: key(b"dir", &node), data }]);
    let report = DriveReport { outcomes: vec![ok_outcome(0, body)], elapsed_ms: 2 };
    let mut client = client_with(vec![report], None, true, false);
    let mut store = MemDeltaStore::new();
    let stats = client
        .prefetch_trees(b"dir".to_vec(), vec![vec![1u8; 20]], vec![], Some(1), &mut store)
        .unwrap();
    assert_eq!(stats.requests, 1);
    assert_eq!(store.deltas.len(), 1);
    assert_eq!(client.multi.calls[0][0].url, "https://example.com/repo/eden/trees/prefetch");
}

#[test]
fn test_client_config_errors() {
    let mut config = Config::new();
    config.repo = Some("repo".to_string());
    match EdenApiCurlClient::new(config, ScriptedTransferManager::new(vec![])) {
        Err(e) => assert!(e.is_config()),
        Ok(_) => panic!("a missing base URL must be rejected"),
    }
    let mut config = Config::new();
    config.base_url = Some("https://example.com/".to_string());
    match EdenApiCurlClient::new(config, ScriptedTransferManager::new(vec![])) {
        Err(e) => assert!(e.is_config()),
        Ok(_) => panic!("a missing repo name must be rejected"),
    }
}

#[test]
fn test_health_check_responses() {
    assert!(check_health_response(200, &alive_body()).is_ok());
    match check_health_response(500, &b"err".to_vec()) {
        Err(ApiError::Protocol { status, .. }) => assert_eq!(status, 500),
        _ => panic!("status 500 is a protocol error"),
    }
    assert!(check_health_response(200, &b"I_AM_DEAD".to_vec()).is_err());
}

#[test]
fn test_health_check_end_to_end() {
    let report = DriveReport {
        outcomes: vec![ok_outcome(0, alive_body())],
        elapsed_ms: 1,
    };
    let mut client = client_with(vec![report], None, false, false);
    assert!(client.health_check().is_ok());
    assert!(!client.multi.calls[0][0].is_post);
    assert_eq!(client.multi.calls[0][0].url, "https://example.com/health_check");
    // A transfer that never reports an outcome is a transfer error.
    let mut client = client_with(vec![DriveReport { outcomes: vec![], elapsed_ms: 0 }], None, false, false);
    match client.health_check() {
        Err(ApiError::Transfer { .. }) => {},
        _ => panic!("a missing outcome is a transfer error"),
    }
}

#[test]
fn test_hostname_responses() {
    let r = hostname_from_response(200, b"myhost".to_vec()).unwrap();
    assert_eq!(r, "myhost");
    match hostname_from_response(404, b"nope".to_vec()) {
        Err(ApiError::Protocol { status, .. }) => assert_eq!(status, 404),
        _ => panic!("a non-200 status is a protocol error"),
    }
    match hostname_from_response(200, vec![0xff, 0xfe]) {
        Err(ApiError::Decode) => {},
        _ => panic!("invalid text is a decode error"),
    }
}

#[test]
fn test_checksum_and_validation() {
    assert_eq!(checksum(&Vec::new()), vec![0u8; 20]);
    let one = checksum(&vec![7u8]);
    assert_eq!(one[0], 7);
    assert_eq!(&one[1..], &[0u8; 19]);
    let data = b"hello".to_vec();
    let k = key(b"p", &checksum(&data));
    assert!(validate_entry(&k, &data));
    assert!(!validate_entry(&k, &b"other".to_vec()));
}

#[test]
fn test_add_data_response_writes_in_order() {
    let mut store = MemDeltaStore::new();
    let entries = vec![
        DataEntry { key: key(b"a", &[1; 20]), data: b"one".to_vec() },
        DataEntry { key: key(b"b", &[2; 20]), data: b"two".to_vec() },
    ];
    add_data_response(&mut store, DataResponse::new(entries), false).unwrap();
    assert_eq!(store.deltas.len(), 2);
    assert_eq!(store.deltas[0].0.key.path, b"a".to_vec());
    assert_eq!(store.deltas[1].0.key.path, b"b".to_vec());
    assert_eq!(store.deltas[0].1.size, Some(3));
}

#[test]
fn test_detect_decode_kinds() {
    assert_eq!(detect_decode("repo0.hgchangeset.sha1.abc"), Some("changeset".to_string()));
    assert_eq!(detect_decode("repo0.hgmanifest.sha1.abc"), Some("manifest".to_string()));
    assert_eq!(detect_decode("repo0.hgfilenode.sha1.abc"), Some("file".to_string()));
    assert_eq!(detect_decode("repo0.content.blake2.abc"), Some("contents".to_string()));
    assert_eq!(detect_decode("repo0.something.else"), None);
    assert!(contains_str("abcdef", "cde"));
    assert!(!contains_str("abcdef", "ce"));
}

#[test]
fn test_get_blobconfig_selects_inner() {
    let multiplexed = BlobConfig::Multiplexed {
        blobstores: vec![
            (1, BlobConfig::Disk { path: "one".to_string() }),
            (2, BlobConfig::Disk { path: "two".to_string() }),
        ],
    };
    match get_blobconfig(multiplexed, Some(2)) {
        Ok(BlobConfig::Disk { path }) => assert_eq!(path, "two"),
        _ => panic!("the inner store under id 2 must be found"),
    }
    let multiplexed = BlobConfig::Multiplexed { blobstores: vec![] };
    assert!(get_blobconfig(multiplexed, Some(9)).is_err());
    let plain = BlobConfig::Disk { path: "one".to_string() };
    match get_blobconfig(plain, None) {
        Ok(BlobConfig::Disk { path }) => assert_eq!(path, "one"),
        _ => panic!("without an inner id the whole config comes back"),
    }
    let plain = BlobConfig::Disk { path: "one".to_string() };
    assert!(get_blobconfig(plain, Some(1)).is_err());
}

#[test]
fn test_lfs_method() {
    assert!(LfsMethod::Download.is_read_only());
    assert!(LfsMethod::DownloadSha256.is_read_only());
    assert!(LfsMethod::Batch.is_read_only());
    assert!(!LfsMethod::Upload.is_read_only());
    assert!(!LfsMethod::GitBlob.is_read_only());
    assert_eq!(LfsMethod::Upload.name(), "upload");
    assert_eq!(LfsMethod::DownloadSha256.name(), "download_sha256");
    assert_eq!(LfsMethod::GitBlob.name(), "git_blob_upload");
}

#[test]
fn test_request_context() {
    let ctx = CoreContext::test_mock();
    let mut rc = RequestContext::new(ctx, true);
    assert!(rc.repository.is_none());
    assert!(rc.should_log);
    rc.set_request("repo".to_string(), LfsMethod::Download);
    assert_eq!(rc.repository.as_deref(), Some("repo"));
    assert!(rc.method.unwrap().is_read_only());
}

#[test]
fn test_sample_called() {
    let ctx = CoreContext::test_mock();
    let mut base = MemBlob::new();
    let sample_this = SamplingKey::new(42);
    let handler = RecordingHandler::new(sample_this);
    let key = "foobar".to_string();
    base.put(ctx, key.clone(), b"test foobar".to_vec()).unwrap();
    let mut wrapper = SamplingBlobstore::new(base, handler);
    assert!(!wrapper.handler.sampled);
    let ctx = ctx.clone_and_sample(sample_this);
    let wrapper_present = wrapper.is_present(ctx, key.clone()).unwrap();
    assert!(wrapper_present);
    assert!(wrapper.handler.sampled);
    // Without the watched key nothing is sampled.
    let mut wrapper = SamplingBlobstore::new(MemBlob::new(), RecordingHandler::new(sample_this));
    let r = wrapper.put(CoreContext::test_mock(), key.clone(), b"test foobar".to_vec());
    assert!(r.is_ok());
    assert!(!wrapper.handler.sampled);
    let got = wrapper.get(CoreContext::test_mock(), key).unwrap();
    assert_eq!(got, Some(b"test foobar".to_vec()));
    assert!(!wrapper.handler.sampled);
}

#[test]
fn test_prefix_blobstore() {
    let ctx = CoreContext::test_mock();
    let mut prefixed = PrefixBlobstore::new(MemBlob::new(), "repo0.".to_string());
    prefixed.put(ctx, "key".to_string(), b"v".to_vec()).unwrap();
    assert_eq!(prefixed.get(ctx, "key".to_string()).unwrap(), Some(b"v".to_vec()));
    // The wrapped store holds the value under the prefixed key.
    assert_eq!(prefixed.inner.get(ctx, "repo0.key".to_string()).unwrap(), Some(b"v".to_vec()));
    assert_eq!(prefixed.inner.get(ctx, "key".to_string()).unwrap(), None);
    assert!(prefixed.is_present(ctx, "key".to_string()).unwrap());
    assert!(!prefixed.is_present(ctx, "other".to_string()).unwrap());
}

#[test]
fn test_censored_blobstore() {
    let ctx = CoreContext::test_mock();
    let mut base = MemBlob::new();
    base.put(ctx, "secret".to_string(), b"s".to_vec()).unwrap();
    base.put(ctx, "open".to_string(), b"o".to_vec()).unwrap();
    let censored = Some(vec![("secret".to_string(), "task1".to_string())]);
    let mut store = CensoredBlob::new(base, censored);
    assert!(store.get(ctx, "secret".to_string()).is_err());
    assert_eq!(store.get(ctx, "open".to_string()).unwrap(), Some(b"o".to_vec()));
}

#[test]
fn test_checkout_locations() {
    let mut sql = CheckoutLocations::new();
    let reponame = "test_repo".to_owned();
    let workspace = "user_testuser_default".to_owned();

    let args = WorkspaceCheckoutLocation {
        hostname: "testhost".to_owned(),
        commit: "2d7d4ba9ce0a6ffd222de7785b249ead9c51c536".to_owned(),
        checkout_path: "checkout/path".to_owned(),
        shared_path: "shared/path".to_owned(),
        timestamp: 0,
        unixname: "testuser".to_owned(),
    };
    let expected = args.clone();

    assert!(sql.insert(reponame.clone(), workspace.clone(), args));

    let res: Vec<WorkspaceCheckoutLocation> = sql.get(reponame, workspace);
    assert!(res.len() == 1);

    assert!(expected.hostname == res[0].hostname);
    assert!(expected.commit == res[0].commit);
    assert!(expected.checkout_path == res[0].checkout_path);
    assert!(expected.shared_path == res[0].shared_path);
    assert!(expected.unixname == res[0].unixname);

    // Inserting the same checkout again replaces the row.
    let mut again = expected.clone();
    again.commit = "3e0e761030db6e479a7fb58b12881883f9f8c63f".to_owned();
    assert!(sql.insert("test_repo".to_owned(), "user_testuser_default".to_owned(), again));
    let res = sql.get("test_repo".to_owned(), "user_testuser_default".to_owned());
    assert!(res.len() == 1);
    assert!(res[0].commit == "3e0e761030db6e479a7fb58b12881883f9f8c63f");
}

#[test]
fn test_mem_history_store() {
    let mut store = MemHistoryStore::new();
    let entry = HistoryEntry {
        path: b"p".to_vec(),
        node: vec![1; 20],
        p1: vec![0; 20],
        p2: vec![0; 20],
        linknode: vec![2; 20],
    };
    store.add_entry(&entry).unwrap();
    assert_eq!(store.entries.len(), 1);
    assert_eq!(store.entries[0].node, vec![1; 20]);
}

#[test]
fn test_transfer_handle_buffers_chunks() {
    let mut handle = TransferHandle::new(0);
    assert_eq!(handle.on_data(&b"hel".to_vec()), 3);
    assert_eq!(handle.on_data(&b"lo".to_vec()), 5);
    assert_eq!(handle.into_data(), b"hello".to_vec());
}

fn populated_blob() -> MemBlob {
    let ctx = CoreContext::test_mock();
    let mut base = MemBlob::new();
    base.put(ctx, "repo0.visible".to_string(), b"v".to_vec()).unwrap();
    base.put(ctx, "bare".to_string(), b"b".to_vec()).unwrap();
    base.put(ctx, "repo0.hidden".to_string(), b"h".to_vec()).unwrap();
    base
}

#[test]
fn test_get_from_sources_layers() {
    let ctx = CoreContext::test_mock();
    let censored = Some(vec![("hidden".to_string(), "task9".to_string())]);

    // With the repository prefix, the prefixed key is read.
    let r = get_from_sources(
        populated_blob(),
        None,
        false,
        "visible".to_string(),
        ctx,
        censored.clone(),
        "repo0.".to_string(),
    );
    assert_eq!(r.unwrap(), Some(b"v".to_vec()));

    // Without the prefix, the bare key is read.
    let r = get_from_sources(
        populated_blob(),
        None,
        true,
        "bare".to_string(),
        ctx,
        censored.clone(),
        "repo0.".to_string(),
    );
    assert_eq!(r.unwrap(), Some(b"b".to_vec()));

    // The default cache mode reads through a fresh cache.
    let r = get_from_sources(
        populated_blob(),
        Some("fill".to_string()),
        false,
        "visible".to_string(),
        ctx,
        censored.clone(),
        "repo0.".to_string(),
    );
    assert_eq!(r.unwrap(), Some(b"v".to_vec()));

    // The cache-alone mode never reaches the wrapped store.
    let r = get_from_sources(
        populated_blob(),
        Some("cache-only".to_string()),
        false,
        "visible".to_string(),
        ctx,
        censored.clone(),
        "repo0.".to_string(),
    );
    assert_eq!(r.unwrap(), None);

    // A censored key is refused before the store is consulted.
    let r = get_from_sources(
        populated_blob(),
        Some("fill".to_string()),
        false,
        "hidden".to_string(),
        ctx,
        censored,
        "repo0.".to_string(),
    );
    assert!(r.is_err());
}

#[test]
fn test_cache_blob_modes() {
    let ctx = CoreContext::test_mock();
    let mut base = MemBlob::new();
    base.put(ctx, "k".to_string(), b"v".to_vec()).unwrap();

    // A read-through get fills the cache; afterwards even the cache-alone
    // mode finds the value.
    let mut cached = CacheBlob::new(base);
    let r = get_cache(ctx, &mut cached, "k".to_string(), "fill".to_string());
    assert_eq!(r.unwrap(), Some(b"v".to_vec()));
    let r = get_cache(ctx, &mut cached, "k".to_string(), "cache-only".to_string());
    assert_eq!(r.unwrap(), Some(b"v".to_vec()));

    // The no-fill mode answers without remembering.
    let mut cached = CacheBlob::new(MemBlob::new());
    cached.inner.put(ctx, "x".to_string(), b"y".to_vec()).unwrap();
    let r = get_cache(ctx, &mut cached, "x".to_string(), "no-fill".to_string());
    assert_eq!(r.unwrap(), Some(b"y".to_vec()));
    assert!(cached.cache.is_empty());
    let r = get_cache(ctx, &mut cached, "x".to_string(), "cache-only".to_string());
    assert_eq!(r.unwrap(), None);
}

#[test]
fn test_add_history_entries_batch() {
    let mut store = MemHistoryStore::new();
    let mut batch = Vec::new();
    for b in 0..3u8 {
        batch.push(HistoryEntry {
            path: vec![b],
            node: vec![b; 20],
            p1: vec![0; 20],
            p2: vec![0; 20],
            linknode: vec![b; 20],
        });
    }
    add_history_entries(&mut store, batch).unwrap();
    assert_eq!(store.entries.len(), 3);
    assert_eq!(store.entries[2].path, vec![2]);
}
