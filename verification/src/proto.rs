//! Request payloads and response units of the fetching protocol, with their
//! places in the wire format.
//!
//! One request payload is serialized per batch. Response bodies are ordered
//! sequences of response units: single entries on streaming endpoints, whole
//! response objects otherwise.

use vstd::prelude::*;
use crate::keys::{Key, KeyView};
use crate::wire::{
    all_wf, dec_bytes, dec_list, dec_opt_u64, decode_bytes, decode_list, decode_opt_u64,
    enc_bytes, enc_list, enc_opt_u64, encode_bytes, encode_list, encode_opt_u64,
    lemma_bytes_len, lemma_bytes_round, lemma_chain_skip, lemma_enc_bytes_len, lemma_list_len,
    lemma_list_round, lemma_opt_u64_len, lemma_opt_u64_round, lemma_skip_skip, seq_view, Wire,
    TAG_DATA_ENTRY, TAG_DATA_REQUEST, TAG_DATA_RESPONSE, TAG_HISTORY_ENTRY, TAG_HISTORY_REQUEST,
    TAG_HISTORY_RESPONSE, TAG_TREE_REQUEST,
};

verus! {

// ---------------------------------------------------------------------------
// DataRequest: the keys of one batch of a data fetch.
// ---------------------------------------------------------------------------

pub struct DataRequest {
    pub keys: Vec<Key>,
}

#[verifier::ext_equal]
pub ghost struct DataRequestView {
    pub keys: Seq<KeyView>,
}

impl View for DataRequest {
    type V = DataRequestView;

    open spec fn view(&self) -> DataRequestView {
        DataRequestView { keys: seq_view(self.keys@) }
    }
}

impl Wire for DataRequest {
    open spec fn enc(v: DataRequestView) -> Seq<u8> {
        seq![TAG_DATA_REQUEST] + enc_list::<Key>(v.keys)
    }

    open spec fn dec(s: Seq<u8>) -> Option<(DataRequestView, int)> {
        if s.len() < 1 || s[0] != TAG_DATA_REQUEST {
            None
        } else {
            match dec_list::<Key>(s.skip(1)) {
                None => None,
                Some((keys, n)) => Some((DataRequestView { keys }, 1 + n)),
            }
        }
    }

    open spec fn wf(v: DataRequestView) -> bool {
        v.keys.len() <= u64::MAX && all_wf::<Key>(v.keys)
    }

    proof fn lemma_dec_enc(v: DataRequestView, rest: Seq<u8>) {
        let s = Self::enc(v) + rest;
        assert(s[0] == TAG_DATA_REQUEST);
        assert(s.skip(1) =~= enc_list::<Key>(v.keys) + rest);
        lemma_list_round::<Key>(v.keys, rest);
    }

    proof fn lemma_dec_len(s: Seq<u8>) {
        if s.len() >= 1 && s[0] == TAG_DATA_REQUEST {
            lemma_list_len::<Key>(s.skip(1));
        }
    }

    fn encode_to(&self, out: &mut Vec<u8>) {
        out.push(TAG_DATA_REQUEST);
        encode_list::<Key>(&self.keys, out);
        proof {
            assert(out@ =~= old(out)@ + Self::enc(self@));
        }
    }

    fn decode_from(buf: &Vec<u8>, pos: usize) -> (r: Option<(Self, usize)>) {
        if buf.len() == pos || buf[pos] != TAG_DATA_REQUEST {
            return None;
        }
        proof {
            lemma_skip_skip(buf@, pos as int, 1);
        }
        match decode_list::<Key>(buf, pos + 1) {
            None => None,
            Some((keys, end)) => Some((DataRequest { keys }, end)),
        }
    }
}

// ---------------------------------------------------------------------------
// HistoryRequest: the keys of one batch of a history fetch, and how deep to
// follow each key's history.
// ---------------------------------------------------------------------------

pub struct HistoryRequest {
    pub keys: Vec<Key>,
    pub depth: Option<u64>,
}

#[verifier::ext_equal]
pub ghost struct HistoryRequestView {
    pub keys: Seq<KeyView>,
    pub depth: Option<u64>,
}

impl View for HistoryRequest {
    type V = HistoryRequestView;

    open spec fn view(&self) -> HistoryRequestView {
        HistoryRequestView { keys: seq_view(self.keys@), depth: self.depth }
    }
}

impl Wire for HistoryRequest {
    open spec fn enc(v: HistoryRequestView) -> Seq<u8> {
        seq![TAG_HISTORY_REQUEST] + enc_list::<Key>(v.keys) + enc_opt_u64(v.depth)
    }

    open spec fn dec(s: Seq<u8>) -> Option<(HistoryRequestView, int)> {
        if s.len() < 1 || s[0] != TAG_HISTORY_REQUEST {
            None
        } else {
            match dec_list::<Key>(s.skip(1)) {
                None => None,
                Some((keys, n1)) => match dec_opt_u64(s.skip(1 + n1)) {
                    None => None,
                    Some((depth, n2)) => Some((HistoryRequestView { keys, depth }, 1 + n1 + n2)),
                },
            }
        }
    }

    open spec fn wf(v: HistoryRequestView) -> bool {
        v.keys.len() <= u64::MAX && all_wf::<Key>(v.keys)
    }

    proof fn lemma_dec_enc(v: HistoryRequestView, rest: Seq<u8>) {
        let e1 = enc_list::<Key>(v.keys);
        let e2 = enc_opt_u64(v.depth);
        let s = Self::enc(v) + rest;
        assert(s[0] == TAG_HISTORY_REQUEST);
        assert(s.skip(1) =~= e1 + (e2 + rest));
        lemma_list_round::<Key>(v.keys, e2 + rest);
        lemma_chain_skip(s, 1, e1, e2 + rest);
        lemma_opt_u64_round(v.depth, rest);
        assert(Self::dec(s) == Some((v, Self::enc(v).len() as int)));
    }

    proof fn lemma_dec_len(s: Seq<u8>) {
        if s.len() >= 1 && s[0] == TAG_HISTORY_REQUEST {
            lemma_list_len::<Key>(s.skip(1));
            match dec_list::<Key>(s.skip(1)) {
                None => {},
                Some((keys, n1)) => {
                    lemma_opt_u64_len(s.skip(1 + n1));
                },
            }
        }
    }

    fn encode_to(&self, out: &mut Vec<u8>) {
        out.push(TAG_HISTORY_REQUEST);
        encode_list::<Key>(&self.keys, out);
        encode_opt_u64(&self.depth, out);
        proof {
            assert(out@ =~= old(out)@ + Self::enc(self@));
        }
    }

    fn decode_from(buf: &Vec<u8>, pos: usize) -> (r: Option<(Self, usize)>) {
        if buf.len() == pos || buf[pos] != TAG_HISTORY_REQUEST {
            return None;
        }
        proof {
            lemma_skip_skip(buf@, pos as int, 1);
        }
        let (keys, mid) = match decode_list::<Key>(buf, pos + 1) {
            None => {
                return None;
            },
            Some(x) => x,
        };
        proof {
            lemma_skip_skip(buf@, pos as int, (mid - pos) as int);
        }
        match decode_opt_u64(buf, mid) {
            None => None,
            Some((depth, end)) => Some((HistoryRequest { keys, depth }, end)),
        }
    }
}

// ---------------------------------------------------------------------------
// TreeRequest: one logical tree-prefetch request: a root directory, the
// manifest nodes to fetch, the manifest nodes already present, and a depth.
// ---------------------------------------------------------------------------

pub struct TreeRequest {
    pub rootdir: Vec<u8>,
    pub mfnodes: Vec<Vec<u8>>,
    pub basemfnodes: Vec<Vec<u8>>,
    pub depth: Option<u64>,
}

#[verifier::ext_equal]
pub ghost struct TreeRequestView {
    pub rootdir: Seq<u8>,
    pub mfnodes: Seq<Seq<u8>>,
    pub basemfnodes: Seq<Seq<u8>>,
    pub depth: Option<u64>,
}

impl View for TreeRequest {
    type V = TreeRequestView;

    open spec fn view(&self) -> TreeRequestView {
        TreeRequestView {
            rootdir: self.rootdir@,
            mfnodes: seq_view(self.mfnodes@),
            basemfnodes: seq_view(self.basemfnodes@),
            depth: self.depth,
        }
    }
}

impl TreeRequest {
    pub fn new(
        rootdir: Vec<u8>,
        mfnodes: Vec<Vec<u8>>,
        basemfnodes: Vec<Vec<u8>>,
        depth: Option<u64>,
    ) -> (r: TreeRequest)
        ensures
            r@.rootdir == rootdir@,
            r@.mfnodes == seq_view(mfnodes@),
            r@.basemfnodes == seq_view(basemfnodes@),
            r@.depth == depth,
    {
        TreeRequest { rootdir, mfnodes, basemfnodes, depth }
    }
}

impl Wire for TreeRequest {
    open spec fn enc(v: TreeRequestView) -> Seq<u8> {
        seq![TAG_TREE_REQUEST] + enc_bytes(v.rootdir) + enc_list::<Vec<u8>>(v.mfnodes)
            + enc_list::<Vec<u8>>(v.basemfnodes) + enc_opt_u64(v.depth)
    }

    open spec fn dec(s: Seq<u8>) -> Option<(TreeRequestView, int)> {
        if s.len() < 1 || s[0] != TAG_TREE_REQUEST {
            None
        } else {
            match dec_bytes(s.skip(1)) {
                None => None,
                Some((rootdir, n1)) => match dec_list::<Vec<u8>>(s.skip(1 + n1)) {
                    None => None,
                    Some((mfnodes, n2)) => match dec_list::<Vec<u8>>(s.skip(1 + n1 + n2)) {
                        None => None,
                        Some((basemfnodes, n3)) => match dec_opt_u64(s.skip(1 + n1 + n2 + n3)) {
                            None => None,
                            Some((depth, n4)) => Some(
                                (
                                    TreeRequestView { rootdir, mfnodes, basemfnodes, depth },
                                    1 + n1 + n2 + n3 + n4,
                                ),
                            ),
                        },
                    },
                },
            }
        }
    }

    open spec fn wf(v: TreeRequestView) -> bool {
        &&& v.rootdir.len() <= u64::MAX
        &&& v.mfnodes.len() <= u64::MAX
        &&& all_wf::<Vec<u8>>(v.mfnodes)
        &&& v.basemfnodes.len() <= u64::MAX
        &&& all_wf::<Vec<u8>>(v.basemfnodes)
    }

    proof fn lemma_dec_enc(v: TreeRequestView, rest: Seq<u8>) {
        let e1 = enc_bytes(v.rootdir);
        let e2 = enc_list::<Vec<u8>>(v.mfnodes);
        let e3 = enc_list::<Vec<u8>>(v.basemfnodes);
        let e4 = enc_opt_u64(v.depth);
        let s = Self::enc(v) + rest;
        lemma_enc_bytes_len(v.rootdir);
        assert(s[0] == TAG_TREE_REQUEST);
        assert(s.skip(1) =~= e1 + (e2 + (e3 + (e4 + rest))));
        lemma_bytes_round(v.rootdir, e2 + (e3 + (e4 + rest)));
        lemma_chain_skip(s, 1, e1, e2 + (e3 + (e4 + rest)));
        lemma_list_round::<Vec<u8>>(v.mfnodes, e3 + (e4 + rest));
        lemma_chain_skip(s, 1 + e1.len() as int, e2, e3 + (e4 + rest));
        lemma_list_round::<Vec<u8>>(v.basemfnodes, e4 + rest);
        lemma_chain_skip(s, 1 + e1.len() + e2.len() as int, e3, e4 + rest);
        lemma_opt_u64_round(v.depth, rest);
        assert(Self::dec(s) == Some((v, Self::enc(v).len() as int)));
    }

    proof fn lemma_dec_len(s: Seq<u8>) {
        if s.len() >= 1 && s[0] == TAG_TREE_REQUEST {
            lemma_bytes_len(s.skip(1));
            match dec_bytes(s.skip(1)) {
                None => {},
                Some((rootdir, n1)) => {
                    lemma_list_len::<Vec<u8>>(s.skip(1 + n1));
                    match dec_list::<Vec<u8>>(s.skip(1 + n1)) {
                        None => {},
                        Some((mfnodes, n2)) => {
                            lemma_list_len::<Vec<u8>>(s.skip(1 + n1 + n2));
                            match dec_list::<Vec<u8>>(s.skip(1 + n1 + n2)) {
                                None => {},
                                Some((basemfnodes, n3)) => {
                                    lemma_opt_u64_len(s.skip(1 + n1 + n2 + n3));
                                },
                            }
                        },
                    }
                },
            }
        }
    }

    fn encode_to(&self, out: &mut Vec<u8>) {
        out.push(TAG_TREE_REQUEST);
        encode_bytes(&self.rootdir, out);
        encode_list::<Vec<u8>>(&self.mfnodes, out);
        encode_list::<Vec<u8>>(&self.basemfnodes, out);
        encode_opt_u64(&self.depth, out);
        proof {
            assert(out@ =~= old(out)@ + Self::enc(self@));
        }
    }

    fn decode_from(buf: &Vec<u8>, pos: usize) -> (r: Option<(Self, usize)>) {
        if buf.len() == pos || buf[pos] != TAG_TREE_REQUEST {
            return None;
        }
        proof {
            lemma_skip_skip(buf@, pos as int, 1);
        }
        let (rootdir, m1) = match decode_bytes(buf, pos + 1) {
            None => {
                return None;
            },
            Some(x) => x,
        };
        proof {
            lemma_skip_skip(buf@, pos as int, (m1 - pos) as int);
        }
        let (mfnodes, m2) = match decode_list::<Vec<u8>>(buf, m1) {
            None => {
                return None;
            },
            Some(x) => x,
        };
        proof {
            lemma_skip_skip(buf@, pos as int, (m2 - pos) as int);
        }
        let (basemfnodes, m3) = match decode_list::<Vec<u8>>(buf, m2) {
            None => {
                return None;
            },
            Some(x) => x,
        };
        proof {
            lemma_skip_skip(buf@, pos as int, (m3 - pos) as int);
        }
        match decode_opt_u64(buf, m3) {
            None => None,
            Some((depth, end)) => Some(
                (TreeRequest { rootdir, mfnodes, basemfnodes, depth }, end),
            ),
        }
    }
}

// ---------------------------------------------------------------------------
// DataEntry: one decoded object: its key and its full content.
// ---------------------------------------------------------------------------

pub struct DataEntry {
    pub key: Key,
    pub data: Vec<u8>,
}

#[verifier::ext_equal]
pub ghost struct DataEntryView {
    pub key: KeyView,
    pub data: Seq<u8>,
}

impl View for DataEntry {
    type V = DataEntryView;

    open spec fn view(&self) -> DataEntryView {
        DataEntryView { key: self.key@, data: self.data@ }
    }
}

impl Wire for DataEntry {
    open spec fn enc(v: DataEntryView) -> Seq<u8> {
        seq![TAG_DATA_ENTRY] + <Key as Wire>::enc(v.key) + enc_bytes(v.data)
    }

    open spec fn dec(s: Seq<u8>) -> Option<(DataEntryView, int)> {
        if s.len() < 1 || s[0] != TAG_DATA_ENTRY {
            None
        } else {
            match <Key as Wire>::dec(s.skip(1)) {
                None => None,
                Some((key, n1)) => match dec_bytes(s.skip(1 + n1)) {
                    None => None,
                    Some((data, n2)) => Some((DataEntryView { key, data }, 1 + n1 + n2)),
                },
            }
        }
    }

    open spec fn wf(v: DataEntryView) -> bool {
        <Key as Wire>::wf(v.key) && v.data.len() <= u64::MAX
    }

    proof fn lemma_dec_enc(v: DataEntryView, rest: Seq<u8>) {
        let e1 = <Key as Wire>::enc(v.key);
        let e2 = enc_bytes(v.data);
        let s = Self::enc(v) + rest;
        lemma_enc_bytes_len(v.data);
        assert(s[0] == TAG_DATA_ENTRY);
        assert(s.skip(1) =~= e1 + (e2 + rest));
        <Key as Wire>::lemma_dec_enc(v.key, e2 + rest);
        lemma_chain_skip(s, 1, e1, e2 + rest);
        lemma_bytes_round(v.data, rest);
        assert(Self::dec(s) == Some((v, Self::enc(v).len() as int)));
    }

    proof fn lemma_dec_len(s: Seq<u8>) {
        if s.len() >= 1 && s[0] == TAG_DATA_ENTRY {
            <Key as Wire>::lemma_dec_len(s.skip(1));
            match <Key as Wire>::dec(s.skip(1)) {
                None => {},
                Some((key, n1)) => {
                    lemma_bytes_len(s.skip(1 + n1));
                },
            }
        }
    }

    fn encode_to(&self, out: &mut Vec<u8>) {
        out.push(TAG_DATA_ENTRY);
        self.key.encode_to(out);
        encode_bytes(&self.data, out);
        proof {
            assert(out@ =~= old(out)@ + Self::enc(self@));
        }
    }

    fn decode_from(buf: &Vec<u8>, pos: usize) -> (r: Option<(Self, usize)>) {
        if buf.len() == pos || buf[pos] != TAG_DATA_ENTRY {
            return None;
        }
        proof {
            lemma_skip_skip(buf@, pos as int, 1);
        }
        let (key, mid) = match <Key as Wire>::decode_from(buf, pos + 1) {
            None => {
                return None;
            },
            Some(x) => x,
        };
        proof {
            lemma_skip_skip(buf@, pos as int, (mid - pos) as int);
        }
        match decode_bytes(buf, mid) {
            None => None,
            Some((data, end)) => Some((DataEntry { key, data }, end)),
        }
    }
}

// ---------------------------------------------------------------------------
// DataResponse: one response object wrapping the entries of one batch.
// ---------------------------------------------------------------------------

pub struct DataResponse {
    pub entries: Vec<DataEntry>,
}

#[verifier::ext_equal]
pub ghost struct DataResponseView {
    pub entries: Seq<DataEntryView>,
}

impl View for DataResponse {
    type V = DataResponseView;

    open spec fn view(&self) -> DataResponseView {
        DataResponseView { entries: seq_view(self.entries@) }
    }
}

impl DataResponse {
    pub fn new(entries: Vec<DataEntry>) -> (r: DataResponse)
        ensures
            r@.entries == seq_view(entries@),
    {
        DataResponse { entries }
    }
}

impl Wire for DataResponse {
    open spec fn enc(v: DataResponseView) -> Seq<u8> {
        seq![TAG_DATA_RESPONSE] + enc_list::<DataEntry>(v.entries)
    }

    open spec fn dec(s: Seq<u8>) -> Option<(DataResponseView, int)> {
        if s.len() < 1 || s[0] != TAG_DATA_RESPONSE {
            None
        } else {
            match dec_list::<DataEntry>(s.skip(1)) {
                None => None,
                Some((entries, n)) => Some((DataResponseView { entries }, 1 + n)),
            }
        }
    }

    open spec fn wf(v: DataResponseView) -> bool {
        v.entries.len() <= u64::MAX && all_wf::<DataEntry>(v.entries)
    }

    proof fn lemma_dec_enc(v: DataResponseView, rest: Seq<u8>) {
        let s = Self::enc(v) + rest;
        assert(s[0] == TAG_DATA_RESPONSE);
        assert(s.skip(1) =~= enc_list::<DataEntry>(v.entries) + rest);
        lemma_list_round::<DataEntry>(v.entries, rest);
    }

    proof fn lemma_dec_len(s: Seq<u8>) {
        if s.len() >= 1 && s[0] == TAG_DATA_RESPONSE {
            lemma_list_len::<DataEntry>(s.skip(1));
        }
    }

    fn encode_to(&self, out: &mut Vec<u8>) {
        out.push(TAG_DATA_RESPONSE);
        encode_list::<DataEntry>(&self.entries, out);
        proof {
            assert(out@ =~= old(out)@ + Self::enc(self@));
        }
    }

    fn decode_from(buf: &Vec<u8>, pos: usize) -> (r: Option<(Self, usize)>) {
        if buf.len() == pos || buf[pos] != TAG_DATA_RESPONSE {
            return None;
        }
        proof {
            lemma_skip_skip(buf@, pos as int, 1);
        }
        match decode_list::<DataEntry>(buf, pos + 1) {
            None => None,
            Some((entries, end)) => Some((DataResponse { entries }, end)),
        }
    }
}

// ---------------------------------------------------------------------------
// HistoryEntry: one step of a file's history, bound to the path it belongs
// to: the entry's own node, its two parents, and the link node naming the
// commit that introduced it.
// ---------------------------------------------------------------------------

pub struct HistoryEntry {
    pub path: Vec<u8>,
    pub node: Vec<u8>,
    pub p1: Vec<u8>,
    pub p2: Vec<u8>,
    pub linknode: Vec<u8>,
}

#[verifier::ext_equal]
pub ghost struct HistoryEntryView {
    pub path: Seq<u8>,
    pub node: Seq<u8>,
    pub p1: Seq<u8>,
    pub p2: Seq<u8>,
    pub linknode: Seq<u8>,
}

impl View for HistoryEntry {
    type V = HistoryEntryView;

    open spec fn view(&self) -> HistoryEntryView {
        HistoryEntryView {
            path: self.path@,
            node: self.node@,
            p1: self.p1@,
            p2: self.p2@,
            linknode: self.linknode@,
        }
    }
}

impl Wire for HistoryEntry {
    open spec fn enc(v: HistoryEntryView) -> Seq<u8> {
        seq![TAG_HISTORY_ENTRY] + enc_bytes(v.path) + enc_bytes(v.node) + enc_bytes(v.p1)
            + enc_bytes(v.p2) + enc_bytes(v.linknode)
    }

    open spec fn dec(s: Seq<u8>) -> Option<(HistoryEntryView, int)> {
        if s.len() < 1 || s[0] != TAG_HISTORY_ENTRY {
            None
        } else {
            match dec_bytes(s.skip(1)) {
                None => None,
                Some((path, n1)) => match dec_bytes(s.skip(1 + n1)) {
                    None => None,
                    Some((node, n2)) => match dec_bytes(s.skip(1 + n1 + n2)) {
                        None => None,
                        Some((p1, n3)) => match dec_bytes(s.skip(1 + n1 + n2 + n3)) {
                            None => None,
                            Some((p2, n4)) => match dec_bytes(s.skip(1 + n1 + n2 + n3 + n4)) {
                                None => None,
                                Some((linknode, n5)) => Some(
                                    (
                                        HistoryEntryView { path, node, p1, p2, linknode },
                                        1 + n1 + n2 + n3 + n4 + n5,
                                    ),
                                ),
                            },
                        },
                    },
                },
            }
        }
    }

    open spec fn wf(v: HistoryEntryView) -> bool {
        &&& v.path.len() <= u64::MAX
        &&& v.node.len() <= u64::MAX
        &&& v.p1.len() <= u64::MAX
        &&& v.p2.len() <= u64::MAX
        &&& v.linknode.len() <= u64::MAX
    }

    proof fn lemma_dec_enc(v: HistoryEntryView, rest: Seq<u8>) {
        let e1 = enc_bytes(v.path);
        let e2 = enc_bytes(v.node);
        let e3 = enc_bytes(v.p1);
        let e4 = enc_bytes(v.p2);
        let e5 = enc_bytes(v.linknode);
        let s = Self::enc(v) + rest;
        lemma_enc_bytes_len(v.path);
        lemma_enc_bytes_len(v.node);
        lemma_enc_bytes_len(v.p1);
        lemma_enc_bytes_len(v.p2);
        lemma_enc_bytes_len(v.linknode);
        assert(s[0] == TAG_HISTORY_ENTRY);
        assert(s.skip(1) =~= e1 + (e2 + (e3 + (e4 + (e5 + rest)))));
        lemma_bytes_round(v.path, e2 + (e3 + (e4 + (e5 + rest))));
        lemma_chain_skip(s, 1, e1, e2 + (e3 + (e4 + (e5 + rest))));
        lemma_bytes_round(v.node, e3 + (e4 + (e5 + rest)));
        lemma_chain_skip(s, 1 + e1.len() as int, e2, e3 + (e4 + (e5 + rest)));
        lemma_bytes_round(v.p1, e4 + (e5 + rest));
        lemma_chain_skip(s, 1 + e1.len() + e2.len() as int, e3, e4 + (e5 + rest));
        lemma_bytes_round(v.p2, e5 + rest);
        lemma_chain_skip(s, 1 + e1.len() + e2.len() + e3.len() as int, e4, e5 + rest);
        lemma_bytes_round(v.linknode, rest);
        assert(Self::dec(s) == Some((v, Self::enc(v).len() as int)));
    }

    proof fn lemma_dec_len(s: Seq<u8>) {
        if s.len() >= 1 && s[0] == TAG_HISTORY_ENTRY {
            lemma_bytes_len(s.skip(1));
            match dec_bytes(s.skip(1)) {
                None => {},
                Some((path, n1)) => {
                    lemma_bytes_len(s.skip(1 + n1));
                    match dec_bytes(s.skip(1 + n1)) {
                        None => {},
                        Some((node, n2)) => {
                            lemma_bytes_len(s.skip(1 + n1 + n2));
                            match dec_bytes(s.skip(1 + n1 + n2)) {
                                None => {},
                                Some((p1, n3)) => {
                                    lemma_bytes_len(s.skip(1 + n1 + n2 + n3));
                                    match dec_bytes(s.skip(1 + n1 + n2 + n3)) {
                                        None => {},
                                        Some((p2, n4)) => {
                                            lemma_bytes_len(s.skip(1 + n1 + n2 + n3 + n4));
                                        },
                                    }
                                },
                            }
                        },
                    }
                },
            }
        }
    }

    fn encode_to(&self, out: &mut Vec<u8>) {
        out.push(TAG_HISTORY_ENTRY);
        encode_bytes(&self.path, out);
        encode_bytes(&self.node, out);
        encode_bytes(&self.p1, out);
        encode_bytes(&self.p2, out);
        encode_bytes(&self.linknode, out);
        proof {
            assert(out@ =~= old(out)@ + Self::enc(self@));
        }
    }

    #[verifier::spinoff_prover]
    #[verifier::rlimit(100)]
    fn decode_from(buf: &Vec<u8>, pos: usize) -> (r: Option<(Self, usize)>) {
        if buf.len() == pos || buf[pos] != TAG_HISTORY_ENTRY {
            return None;
        }
        proof {
            lemma_skip_skip(buf@, pos as int, 1);
        }
        let (path, m1) = match decode_bytes(buf, pos + 1) {
            None => {
                return None;
            },
            Some(x) => x,
        };
        proof {
            lemma_skip_skip(buf@, pos as int, (m1 - pos) as int);
        }
        let (node, m2) = match decode_bytes(buf, m1) {
            None => {
                return None;
            },
            Some(x) => x,
        };
        proof {
            lemma_skip_skip(buf@, pos as int, (m2 - pos) as int);
        }
        let (p1, m3) = match decode_bytes(buf, m2) {
            None => {
                return None;
            },
            Some(x) => x,
        };
        proof {
            lemma_skip_skip(buf@, pos as int, (m3 - pos) as int);
        }
        let (p2, m4) = match decode_bytes(buf, m3) {
            None => {
                return None;
            },
            Some(x) => x,
        };
        proof {
            lemma_skip_skip(buf@, pos as int, (m4 - pos) as int);
        }
        match decode_bytes(buf, m4) {
            None => None,
            Some((linknode, end)) => Some(
                (HistoryEntry { path, node, p1, p2, linknode }, end),
            ),
        }
    }
}

// ---------------------------------------------------------------------------
// HistoryResponse: one response object wrapping the history entries of one
// batch.
// ---------------------------------------------------------------------------

pub struct HistoryResponse {
    pub entries: Vec<HistoryEntry>,
}

#[verifier::ext_equal]
pub ghost struct HistoryResponseView {
    pub entries: Seq<HistoryEntryView>,
}

impl View for HistoryResponse {
    type V = HistoryResponseView;

    open spec fn view(&self) -> HistoryResponseView {
        HistoryResponseView { entries: seq_view(self.entries@) }
    }
}

impl HistoryResponse {
    pub fn new(entries: Vec<HistoryEntry>) -> (r: HistoryResponse)
        ensures
            r@.entries == seq_view(entries@),
    {
        HistoryResponse { entries }
    }
}

impl Wire for HistoryResponse {
    open spec fn enc(v: HistoryResponseView) -> Seq<u8> {
        seq![TAG_HISTORY_RESPONSE] + enc_list::<HistoryEntry>(v.entries)
    }

    open spec fn dec(s: Seq<u8>) -> Option<(HistoryResponseView, int)> {
        if s.len() < 1 || s[0] != TAG_HISTORY_RESPONSE {
            None
        } else {
            match dec_list::<HistoryEntry>(s.skip(1)) {
                None => None,
                Some((entries, n)) => Some((HistoryResponseView { entries }, 1 + n)),
            }
        }
    }

    open spec fn wf(v: HistoryResponseView) -> bool {
        v.entries.len() <= u64::MAX && all_wf::<HistoryEntry>(v.entries)
    }

    proof fn lemma_dec_enc(v: HistoryResponseView, rest: Seq<u8>) {
        let s = Self::enc(v) + rest;
        assert(s[0] == TAG_HISTORY_RESPONSE);
        assert(s.skip(1) =~= enc_list::<HistoryEntry>(v.entries) + rest);
        lemma_list_round::<HistoryEntry>(v.entries, rest);
    }

    proof fn lemma_dec_len(s: Seq<u8>) {
        if s.len() >= 1 && s[0] == TAG_HISTORY_RESPONSE {
            lemma_list_len::<HistoryEntry>(s.skip(1));
        }
    }

    fn encode_to(&self, out: &mut Vec<u8>) {
        out.push(TAG_HISTORY_RESPONSE);
        encode_list::<HistoryEntry>(&self.entries, out);
        proof {
            assert(out@ =~= old(out)@ + Self::enc(self@));
        }
    }

    fn decode_from(buf: &Vec<u8>, pos: usize) -> (r: Option<(Self, usize)>) {
        if buf.len() == pos || buf[pos] != TAG_HISTORY_RESPONSE {
            return None;
        }
        proof {
            lemma_skip_skip(buf@, pos as int, 1);
        }
        match decode_list::<HistoryEntry>(buf, pos + 1) {
            None => None,
            Some((entries, end)) => Some((HistoryResponse { entries }, end)),
        }
    }
}

// ---------------------------------------------------------------------------
// Round trips of whole request payloads: decoding an encoded payload, with
// nothing after it, yields exactly the payload back.
// ---------------------------------------------------------------------------

/// Decoding an encoded data request reproduces it.
pub proof fn lemma_data_request_roundtrip(v: DataRequestView)
    requires
        <DataRequest as Wire>::wf(v),
    ensures
        <DataRequest as Wire>::dec(<DataRequest as Wire>::enc(v)) == Some(
            (v, <DataRequest as Wire>::enc(v).len() as int),
        ),
{
    DataRequest::lemma_dec_enc(v, Seq::empty());
    assert(<DataRequest as Wire>::enc(v) + Seq::<u8>::empty() =~= <DataRequest as Wire>::enc(v));
}

/// Decoding an encoded history request reproduces it.
pub proof fn lemma_history_request_roundtrip(v: HistoryRequestView)
    requires
        <HistoryRequest as Wire>::wf(v),
    ensures
        <HistoryRequest as Wire>::dec(<HistoryRequest as Wire>::enc(v)) == Some(
            (v, <HistoryRequest as Wire>::enc(v).len() as int),
        ),
{
    HistoryRequest::lemma_dec_enc(v, Seq::empty());
    assert(<HistoryRequest as Wire>::enc(v) + Seq::<u8>::empty() =~= <HistoryRequest as Wire>::enc(
        v,
    ));
}

/// Decoding an encoded tree request reproduces it.
pub proof fn lemma_tree_request_roundtrip(v: TreeRequestView)
    requires
        <TreeRequest as Wire>::wf(v),
    ensures
        <TreeRequest as Wire>::dec(<TreeRequest as Wire>::enc(v)) == Some(
            (v, <TreeRequest as Wire>::enc(v).len() as int),
        ),
{
    TreeRequest::lemma_dec_enc(v, Seq::empty());
    assert(<TreeRequest as Wire>::enc(v) + Seq::<u8>::empty() =~= <TreeRequest as Wire>::enc(v));
}

} // verus!
