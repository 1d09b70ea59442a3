//! Keys: the (path, content identifier) pairs that address versioned objects,
//! and the checksum that ties a content identifier to the bytes it names.

use vstd::prelude::*;
use crate::wire::{
    dec_bytes, enc_bytes, lemma_bytes_len, lemma_bytes_round, lemma_chain_skip,
    lemma_enc_bytes_len, lemma_skip_skip, decode_bytes, encode_bytes, Wire, TAG_KEY,
};

verus! {

/// One versioned object: a repository-relative path and the identifier of
/// one version of its content.
pub struct Key {
    pub path: Vec<u8>,
    pub node: Vec<u8>,
}

#[verifier::ext_equal]
pub ghost struct KeyView {
    pub path: Seq<u8>,
    pub node: Seq<u8>,
}

impl View for Key {
    type V = KeyView;

    open spec fn view(&self) -> KeyView {
        KeyView { path: self.path@, node: self.node@ }
    }
}

impl Key {
    pub fn new(path: Vec<u8>, node: Vec<u8>) -> (r: Key)
        ensures
            r@.path == path@,
            r@.node == node@,
    {
        Key { path, node }
    }
}

impl Wire for Key {
    open spec fn enc(v: KeyView) -> Seq<u8> {
        seq![TAG_KEY] + enc_bytes(v.path) + enc_bytes(v.node)
    }

    open spec fn dec(s: Seq<u8>) -> Option<(KeyView, int)> {
        if s.len() < 1 || s[0] != TAG_KEY {
            None
        } else {
            match dec_bytes(s.skip(1)) {
                None => None,
                Some((path, n1)) => match dec_bytes(s.skip(1 + n1)) {
                    None => None,
                    Some((node, n2)) => Some((KeyView { path, node }, 1 + n1 + n2)),
                },
            }
        }
    }

    open spec fn wf(v: KeyView) -> bool {
        v.path.len() <= u64::MAX && v.node.len() <= u64::MAX
    }

    proof fn lemma_dec_enc(v: KeyView, rest: Seq<u8>) {
        let e1 = enc_bytes(v.path);
        let e2 = enc_bytes(v.node);
        let s = Self::enc(v) + rest;
        lemma_enc_bytes_len(v.path);
        lemma_enc_bytes_len(v.node);
        assert(s[0] == TAG_KEY);
        assert(s.skip(1) =~= e1 + (e2 + rest));
        lemma_bytes_round(v.path, e2 + rest);
        lemma_chain_skip(s, 1, e1, e2 + rest);
        lemma_bytes_round(v.node, rest);
        assert(Self::dec(s) == Some((v, Self::enc(v).len() as int)));
    }

    proof fn lemma_dec_len(s: Seq<u8>) {
        if s.len() >= 1 && s[0] == TAG_KEY {
            lemma_bytes_len(s.skip(1));
            match dec_bytes(s.skip(1)) {
                None => {},
                Some((path, n1)) => {
                    lemma_bytes_len(s.skip(1 + n1));
                },
            }
        }
    }

    fn encode_to(&self, out: &mut Vec<u8>) {
        out.push(TAG_KEY);
        encode_bytes(&self.path, out);
        encode_bytes(&self.node, out);
        proof {
            assert(out@ =~= old(out)@ + Self::enc(self@));
        }
    }

    fn decode_from(buf: &Vec<u8>, pos: usize) -> (r: Option<(Self, usize)>) {
        let ghost s = buf@.skip(pos as int);
        if buf.len() == pos || buf[pos] != TAG_KEY {
            return None;
        }
        proof {
            lemma_skip_skip(buf@, pos as int, 1);
        }
        let (path, mid) = match decode_bytes(buf, pos + 1) {
            None => {
                return None;
            },
            Some(x) => x,
        };
        proof {
            lemma_skip_skip(buf@, pos as int, (mid - pos) as int);
        }
        let (node, end) = match decode_bytes(buf, mid) {
            None => {
                return None;
            },
            Some(x) => x,
        };
        Some((Key { path, node }, end))
    }
}

// ---------------------------------------------------------------------------
// Content checksums. A content identifier is the twenty-byte checksum of the
// content it names; validation recomputes the checksum of a downloaded entry
// and compares it with the entry's key.
// ---------------------------------------------------------------------------

/// The checksum state after folding in the bytes of `data` from position `i`
/// on, starting from the accumulator `acc`.
pub open spec fn checksum_loop(data: Seq<u8>, i: int, acc: Seq<u8>) -> Seq<u8>
    decreases data.len() - i,
{
    if i < 0 || i >= data.len() {
        acc
    } else {
        checksum_loop(
            data,
            i + 1,
            acc.update(i % 20, (((acc[i % 20] as int) + (data[i] as int)) % 256) as u8),
        )
    }
}

/// The twenty-byte checksum of a content: every byte of the content is added
/// modulo 256 into one of twenty rotating lanes.
pub open spec fn spec_checksum(data: Seq<u8>) -> Seq<u8> {
    checksum_loop(data, 0, Seq::new(20, |i: int| 0u8))
}

/// A key names exactly this content: its identifier is the content's checksum.
pub open spec fn spec_valid_entry(key: KeyView, data: Seq<u8>) -> bool {
    key.node == spec_checksum(data)
}

/// Computes the twenty-byte checksum of `data`.
pub fn checksum(data: &Vec<u8>) -> (r: Vec<u8>)
    ensures
        r@ == spec_checksum(data@),
        r@.len() == 20,
{
    let mut acc: Vec<u8> = Vec::new();
    let mut z: usize = 0;
    while z < 20
        invariant
            z <= 20,
            acc@ =~= Seq::new(z as nat, |i: int| 0u8),
        decreases 20 - z,
    {
        acc.push(0u8);
        proof {
            assert(acc@ =~= Seq::new((z + 1) as nat, |i: int| 0u8));
        }
        z = z + 1;
    }
    proof {
        assert(acc@ =~= Seq::new(20, |i: int| 0u8));
    }
    let mut j: usize = 0;
    while j < data.len()
        invariant
            j <= data.len(),
            acc@.len() == 20,
            checksum_loop(data@, j as int, acc@) == spec_checksum(data@),
        decreases data.len() - j,
    {
        let idx = j % 20;
        let ghost before = acc@;
        let b = ((acc[idx] as u32 + data[j] as u32) % 256) as u8;
        acc.set(idx, b);
        proof {
            assert(acc@ =~= before.update(
                j as int % 20,
                (((before[j as int % 20] as int) + (data@[j as int] as int)) % 256) as u8,
            ));
        }
        j = j + 1;
    }
    acc
}

/// True when the entry's content matches the content identifier of its key.
pub fn validate_entry(key: &Key, data: &Vec<u8>) -> (r: bool)
    ensures
        r == spec_valid_entry(key@, data@),
{
    let sum = checksum(data);
    bytes_eq(&key.node, &sum)
}

/// Byte-sequence equality.
pub fn bytes_eq(a: &Vec<u8>, b: &Vec<u8>) -> (r: bool)
    ensures
        r == (a@ == b@),
{
    if a.len() != b.len() {
        return false;
    }
    let mut i: usize = 0;
    while i < a.len()
        invariant
            a@.len() == b@.len(),
            i <= a@.len(),
            forall|k: int| 0 <= k < i ==> a@[k] == b@[k],
        decreases a@.len() - i,
    {
        if a[i] != b[i] {
            return false;
        }
        i = i + 1;
    }
    proof {
        assert(a@ =~= b@);
    }
    true
}

} // verus!
