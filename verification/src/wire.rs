//! The compact, self-describing binary wire format used for request and
//! response bodies.
//!
//! Every value on the wire starts with a one-byte tag naming its shape, so a
//! body is an ordered sequence of typed values. Integers are eight bytes
//! little-endian; byte strings and lists are length-prefixed. Each wire type
//! comes with a specification-level encoder and decoder, and every decoder is
//! proved to invert its encoder.

use vstd::prelude::*;

verus! {

pub const TAG_BYTES: u8 = 1;
pub const TAG_NONE: u8 = 2;
pub const TAG_SOME: u8 = 3;
pub const TAG_KEY: u8 = 4;
pub const TAG_DATA_REQUEST: u8 = 5;
pub const TAG_HISTORY_REQUEST: u8 = 6;
pub const TAG_TREE_REQUEST: u8 = 7;
pub const TAG_DATA_ENTRY: u8 = 8;
pub const TAG_DATA_RESPONSE: u8 = 9;
pub const TAG_HISTORY_ENTRY: u8 = 10;
pub const TAG_HISTORY_RESPONSE: u8 = 11;

// ---------------------------------------------------------------------------
// Unsigned 64-bit integers: eight bytes, little-endian, no tag. They only
// occur inside tagged values (lengths, counts, depths).
// ---------------------------------------------------------------------------

#[verifier::opaque]
pub open spec fn enc_u64(v: u64) -> Seq<u8> {
    seq![
        (v & 0xff) as u8,
        ((v >> 8) & 0xff) as u8,
        ((v >> 16) & 0xff) as u8,
        ((v >> 24) & 0xff) as u8,
        ((v >> 32) & 0xff) as u8,
        ((v >> 40) & 0xff) as u8,
        ((v >> 48) & 0xff) as u8,
        ((v >> 56) & 0xff) as u8,
    ]
}

#[verifier::opaque]
pub open spec fn combine_u64(b0: u8, b1: u8, b2: u8, b3: u8, b4: u8, b5: u8, b6: u8, b7: u8) -> u64 {
    (b0 as u64) | ((b1 as u64) << 8) | ((b2 as u64) << 16) | ((b3 as u64) << 24)
        | ((b4 as u64) << 32) | ((b5 as u64) << 40) | ((b6 as u64) << 48) | ((b7 as u64) << 56)
}

pub open spec fn dec_u64(s: Seq<u8>) -> Option<(u64, int)> {
    if s.len() < 8 {
        None
    } else {
        Some((combine_u64(s[0], s[1], s[2], s[3], s[4], s[5], s[6], s[7]), 8))
    }
}

pub proof fn lemma_enc_u64_len(v: u64)
    ensures
        enc_u64(v).len() == 8,
{
    reveal(enc_u64);
}

pub proof fn lemma_u64_round(v: u64, rest: Seq<u8>)
    ensures
        dec_u64(enc_u64(v) + rest) == Some((v, 8int)),
{
    reveal(enc_u64);
    reveal(combine_u64);
    let s = enc_u64(v) + rest;
    assert(s.len() >= 8);
    assert(s[0] == (v & 0xff) as u8);
    assert(s[1] == ((v >> 8) & 0xff) as u8);
    assert(s[2] == ((v >> 16) & 0xff) as u8);
    assert(s[3] == ((v >> 24) & 0xff) as u8);
    assert(s[4] == ((v >> 32) & 0xff) as u8);
    assert(s[5] == ((v >> 40) & 0xff) as u8);
    assert(s[6] == ((v >> 48) & 0xff) as u8);
    assert(s[7] == ((v >> 56) & 0xff) as u8);
    assert(combine_u64(
        (v & 0xff) as u8,
        ((v >> 8) & 0xff) as u8,
        ((v >> 16) & 0xff) as u8,
        ((v >> 24) & 0xff) as u8,
        ((v >> 32) & 0xff) as u8,
        ((v >> 40) & 0xff) as u8,
        ((v >> 48) & 0xff) as u8,
        ((v >> 56) & 0xff) as u8,
    ) == v) by (bit_vector);
}

pub fn encode_u64(v: u64, out: &mut Vec<u8>)
    ensures
        final(out)@ == old(out)@ + enc_u64(v),
{
    proof {
        reveal(enc_u64);
        assert(v & 0xff < 256 && (v >> 8) & 0xff < 256 && (v >> 16) & 0xff < 256
            && (v >> 24) & 0xff < 256 && (v >> 32) & 0xff < 256 && (v >> 40) & 0xff < 256
            && (v >> 48) & 0xff < 256 && (v >> 56) & 0xff < 256) by (bit_vector);
    }
    out.push((v & 0xff) as u8);
    out.push(((v >> 8) & 0xff) as u8);
    out.push(((v >> 16) & 0xff) as u8);
    out.push(((v >> 24) & 0xff) as u8);
    out.push(((v >> 32) & 0xff) as u8);
    out.push(((v >> 40) & 0xff) as u8);
    out.push(((v >> 48) & 0xff) as u8);
    out.push(((v >> 56) & 0xff) as u8);
    proof {
        assert(out@ =~= old(out)@ + enc_u64(v));
    }
}

pub fn decode_u64(buf: &Vec<u8>, pos: usize) -> (r: Option<(u64, usize)>)
    requires
        pos <= buf.len(),
    ensures
        match r {
            Some((v, end)) => {
                &&& pos <= end <= buf.len()
                &&& dec_u64(buf@.skip(pos as int)) == Some((v, (end - pos) as int))
            },
            None => dec_u64(buf@.skip(pos as int)) is None,
        },
{
    if buf.len() - pos < 8 {
        return None;
    }
    let b0 = buf[pos];
    let b1 = buf[pos + 1];
    let b2 = buf[pos + 2];
    let b3 = buf[pos + 3];
    let b4 = buf[pos + 4];
    let b5 = buf[pos + 5];
    let b6 = buf[pos + 6];
    let b7 = buf[pos + 7];
    let v: u64 = (b0 as u64) | ((b1 as u64) << 8) | ((b2 as u64) << 16) | ((b3 as u64) << 24)
        | ((b4 as u64) << 32) | ((b5 as u64) << 40) | ((b6 as u64) << 48) | ((b7 as u64) << 56);
    proof {
        reveal(combine_u64);
        let s = buf@.skip(pos as int);
        assert(s[0] == b0 && s[1] == b1 && s[2] == b2 && s[3] == b3 && s[4] == b4 && s[5] == b5
            && s[6] == b6 && s[7] == b7);
    }
    Some((v, pos + 8))
}

// ---------------------------------------------------------------------------
// The wire trait: each wire type states its encoding over its view, and its
// executable encoder and decoder are proved against that statement.
// ---------------------------------------------------------------------------

/// A type with a place in the wire format.
///
/// `enc` and `dec` describe the format at the specification level; `wf` names
/// the views the format can carry (lengths that fit in the 64-bit length
/// prefixes). `lemma_dec_enc` is the round-trip law: decoding an encoding
/// yields the value back. `lemma_dec_len` says a successful decode consumes
/// at least one and at most all bytes, and yields a well-formed view.
pub trait Wire: View + Sized {
    spec fn enc(v: Self::V) -> Seq<u8>;

    spec fn dec(s: Seq<u8>) -> Option<(Self::V, int)>;

    spec fn wf(v: Self::V) -> bool;

    proof fn lemma_dec_enc(v: Self::V, rest: Seq<u8>)
        requires
            Self::wf(v),
        ensures
            Self::dec(Self::enc(v) + rest) == Some((v, Self::enc(v).len() as int)),
    ;

    proof fn lemma_dec_len(s: Seq<u8>)
        ensures
            Self::dec(s) matches Some((v, n)) ==> 0 < n <= s.len() && Self::wf(v),
    ;

    fn encode_to(&self, out: &mut Vec<u8>)
        ensures
            final(out)@ == old(out)@ + Self::enc(self@),
            Self::wf(self@),
    ;

    fn decode_from(buf: &Vec<u8>, pos: usize) -> (r: Option<(Self, usize)>)
        requires
            pos <= buf.len(),
        ensures
            match r {
                Some((x, end)) => {
                    &&& pos <= end <= buf.len()
                    &&& Self::dec(buf@.skip(pos as int)) == Some((x@, (end - pos) as int))
                },
                None => Self::dec(buf@.skip(pos as int)) is None,
            },
    ;
}

/// The views of the elements of a sequence of viewable values.
pub open spec fn seq_view<T: View>(s: Seq<T>) -> Seq<T::V> {
    s.map_values(|x: T| x@)
}

// ---------------------------------------------------------------------------
// Small sequence facts the decoders lean on.
// ---------------------------------------------------------------------------

pub proof fn lemma_concat_skip<A>(a: Seq<A>, b: Seq<A>)
    ensures
        (a + b).skip(a.len() as int) == b,
{
    assert((a + b).skip(a.len() as int) =~= b);
}

pub proof fn lemma_skip_skip<A>(s: Seq<A>, i: int, j: int)
    requires
        0 <= i,
        0 <= j,
        i + j <= s.len(),
    ensures
        s.skip(i).skip(j) == s.skip(i + j),
{
    assert(s.skip(i).skip(j) =~= s.skip(i + j));
}

/// Walking a buffer: when the bytes from `off` on read as `a` followed by
/// `rest`, then the bytes from `off + a.len()` on read as `rest`.
pub proof fn lemma_chain_skip(s: Seq<u8>, off: int, a: Seq<u8>, rest: Seq<u8>)
    requires
        0 <= off <= s.len(),
        s.skip(off) == a + rest,
    ensures
        off + a.len() <= s.len(),
        s.skip(off + a.len() as int) == rest,
{
    assert(s.skip(off).len() == s.len() - off);
    lemma_skip_skip(s, off, a.len() as int);
    lemma_concat_skip(a, rest);
}

// ---------------------------------------------------------------------------
// Byte strings: a tag, an eight-byte length, then the bytes themselves.
// ---------------------------------------------------------------------------

pub open spec fn enc_bytes(b: Seq<u8>) -> Seq<u8> {
    seq![TAG_BYTES] + enc_u64(b.len() as u64) + b
}

pub open spec fn dec_bytes(s: Seq<u8>) -> Option<(Seq<u8>, int)> {
    if s.len() < 1 || s[0] != TAG_BYTES {
        None
    } else {
        match dec_u64(s.skip(1)) {
            Some((n, _)) => {
                let len = n as int;
                if s.len() >= 9 + len {
                    Some((s.subrange(9, 9 + len), 9 + len))
                } else {
                    None
                }
            },
            None => None,
        }
    }
}

pub proof fn lemma_bytes_round(b: Seq<u8>, rest: Seq<u8>)
    requires
        b.len() <= u64::MAX,
    ensures
        dec_bytes(enc_bytes(b) + rest) == Some((b, 9 + b.len() as int)),
{
    lemma_enc_u64_len(b.len() as u64);
    let s = enc_bytes(b) + rest;
    assert(s[0] == TAG_BYTES);
    assert(s.skip(1) =~= enc_u64(b.len() as u64) + (b + rest));
    lemma_u64_round(b.len() as u64, b + rest);
    assert(s.len() == 9 + b.len() + rest.len());
    assert(s.subrange(9, 9 + b.len() as int) =~= b);
}

pub proof fn lemma_enc_bytes_len(b: Seq<u8>)
    ensures
        enc_bytes(b).len() == 9 + b.len(),
{
    lemma_enc_u64_len(b.len() as u64);
}

pub proof fn lemma_bytes_len(s: Seq<u8>)
    ensures
        dec_bytes(s) matches Some((b, n)) ==> 0 < n <= s.len() && b.len() <= u64::MAX && b.len()
            == n - 9,
{
}

pub fn encode_bytes(b: &Vec<u8>, out: &mut Vec<u8>)
    ensures
        final(out)@ == old(out)@ + enc_bytes(b@),
        b@.len() <= u64::MAX,
{
    let n = b.len();
    proof {
        lemma_enc_u64_len(n as u64);
    }
    out.push(TAG_BYTES);
    encode_u64(n as u64, out);
    let mut i: usize = 0;
    while i < n
        invariant
            n == b.len(),
            i <= n,
            out@ == old(out)@ + seq![TAG_BYTES] + enc_u64(n as u64) + b@.take(i as int),
        decreases n - i,
    {
        out.push(b[i]);
        proof {
            assert(b@.take(i + 1) =~= b@.take(i as int).push(b@[i as int]));
        }
        i = i + 1;
    }
    proof {
        assert(b@.take(n as int) =~= b@);
        assert(out@ =~= old(out)@ + enc_bytes(b@));
    }
}

pub fn decode_bytes(buf: &Vec<u8>, pos: usize) -> (r: Option<(Vec<u8>, usize)>)
    requires
        pos <= buf.len(),
    ensures
        match r {
            Some((b, end)) => {
                &&& pos <= end <= buf.len()
                &&& dec_bytes(buf@.skip(pos as int)) == Some((b@, (end - pos) as int))
            },
            None => dec_bytes(buf@.skip(pos as int)) is None,
        },
{
    let ghost s = buf@.skip(pos as int);
    if buf.len() == pos || buf[pos] != TAG_BYTES {
        return None;
    }
    proof {
        lemma_skip_skip(buf@, pos as int, 1);
    }
    match decode_u64(buf, pos + 1) {
        None => None,
        Some((n, after_len)) => {
            proof {
                assert(s.skip(1) == buf@.skip(pos + 1));
            }
            if n > (buf.len() - after_len) as u64 {
                proof {
                    assert(s.len() < 9 + n as int);
                }
                None
            } else {
                let count = n as usize;
                let mut b: Vec<u8> = Vec::new();
                let mut i: usize = 0;
                while i < count
                    invariant
                        i <= count,
                        after_len == pos + 9,
                        after_len + count <= buf.len(),
                        b@ == buf@.subrange(after_len as int, after_len + i),
                    decreases count - i,
                {
                    b.push(buf[after_len + i]);
                    proof {
                        assert(buf@.subrange(after_len as int, after_len + i + 1) =~= buf@.subrange(
                            after_len as int,
                            after_len + i,
                        ).push(buf@[after_len + i]));
                    }
                    i = i + 1;
                }
                proof {
                    assert(s.subrange(9, 9 + n as int) =~= buf@.subrange(
                        after_len as int,
                        after_len + count,
                    ));
                }
                Some((b, after_len + count))
            }
        },
    }
}

impl Wire for Vec<u8> {
    open spec fn enc(v: Seq<u8>) -> Seq<u8> {
        enc_bytes(v)
    }

    open spec fn dec(s: Seq<u8>) -> Option<(Seq<u8>, int)> {
        dec_bytes(s)
    }

    open spec fn wf(v: Seq<u8>) -> bool {
        v.len() <= u64::MAX
    }

    proof fn lemma_dec_enc(v: Seq<u8>, rest: Seq<u8>) {
        lemma_bytes_round(v, rest);
        lemma_enc_u64_len(v.len() as u64);
    }

    proof fn lemma_dec_len(s: Seq<u8>) {
        lemma_bytes_len(s);
    }

    fn encode_to(&self, out: &mut Vec<u8>) {
        encode_bytes(self, out);
    }

    fn decode_from(buf: &Vec<u8>, pos: usize) -> (r: Option<(Self, usize)>) {
        decode_bytes(buf, pos)
    }
}

// ---------------------------------------------------------------------------
// Optional integers: one tag byte, then the integer when present.
// ---------------------------------------------------------------------------

pub open spec fn enc_opt_u64(d: Option<u64>) -> Seq<u8> {
    match d {
        None => seq![TAG_NONE],
        Some(v) => seq![TAG_SOME] + enc_u64(v),
    }
}

pub open spec fn dec_opt_u64(s: Seq<u8>) -> Option<(Option<u64>, int)> {
    if s.len() < 1 {
        None
    } else if s[0] == TAG_NONE {
        Some((None, 1))
    } else if s[0] == TAG_SOME {
        match dec_u64(s.skip(1)) {
            Some((v, _)) => Some((Some(v), 9)),
            None => None,
        }
    } else {
        None
    }
}

pub proof fn lemma_opt_u64_round(d: Option<u64>, rest: Seq<u8>)
    ensures
        dec_opt_u64(enc_opt_u64(d) + rest) == Some((d, enc_opt_u64(d).len() as int)),
{
    let s = enc_opt_u64(d) + rest;
    match d {
        None => {
            assert(s[0] == TAG_NONE);
        },
        Some(v) => {
            lemma_enc_u64_len(v);
            assert(s[0] == TAG_SOME);
            assert(s.skip(1) =~= enc_u64(v) + rest);
            lemma_u64_round(v, rest);
        },
    }
}

pub proof fn lemma_opt_u64_len(s: Seq<u8>)
    ensures
        dec_opt_u64(s) matches Some((d, n)) ==> 0 < n <= s.len(),
{
}

pub fn encode_opt_u64(d: &Option<u64>, out: &mut Vec<u8>)
    ensures
        final(out)@ == old(out)@ + enc_opt_u64(*d),
{
    match d {
        None => {
            out.push(TAG_NONE);
            proof {
                assert(out@ =~= old(out)@ + enc_opt_u64(None));
            }
        },
        Some(v) => {
            out.push(TAG_SOME);
            encode_u64(*v, out);
            proof {
                lemma_enc_u64_len(*v);
                assert(out@ =~= old(out)@ + enc_opt_u64(Some(*v)));
            }
        },
    }
}

pub fn decode_opt_u64(buf: &Vec<u8>, pos: usize) -> (r: Option<(Option<u64>, usize)>)
    requires
        pos <= buf.len(),
    ensures
        match r {
            Some((d, end)) => {
                &&& pos <= end <= buf.len()
                &&& dec_opt_u64(buf@.skip(pos as int)) == Some((d, (end - pos) as int))
            },
            None => dec_opt_u64(buf@.skip(pos as int)) is None,
        },
{
    if buf.len() == pos {
        return None;
    }
    let tag = buf[pos];
    if tag == TAG_NONE {
        Some((None, pos + 1))
    } else if tag == TAG_SOME {
        proof {
            lemma_skip_skip(buf@, pos as int, 1);
        }
        match decode_u64(buf, pos + 1) {
            Some((v, _)) => Some((Some(v), pos + 9)),
            None => None,
        }
    } else {
        None
    }
}

// ---------------------------------------------------------------------------
// Lists: an eight-byte element count, then the encoded elements in order.
// ---------------------------------------------------------------------------

pub open spec fn enc_elems<T: Wire>(vs: Seq<T::V>) -> Seq<u8>
    decreases vs.len(),
{
    if vs.len() == 0 {
        Seq::empty()
    } else {
        T::enc(vs[0]) + enc_elems::<T>(vs.skip(1))
    }
}

pub open spec fn enc_list<T: Wire>(vs: Seq<T::V>) -> Seq<u8> {
    enc_u64(vs.len() as u64) + enc_elems::<T>(vs)
}

pub open spec fn dec_elems<T: Wire>(s: Seq<u8>, n: nat) -> Option<(Seq<T::V>, int)>
    decreases n,
{
    if n == 0 {
        Some((Seq::empty(), 0))
    } else {
        match T::dec(s) {
            None => None,
            Some((x, used)) => match dec_elems::<T>(s.skip(used), (n - 1) as nat) {
                None => None,
                Some((tail, used2)) => Some((seq![x] + tail, used + used2)),
            },
        }
    }
}

pub open spec fn dec_list<T: Wire>(s: Seq<u8>) -> Option<(Seq<T::V>, int)> {
    match dec_u64(s) {
        None => None,
        Some((n, _)) => match dec_elems::<T>(s.skip(8), n as nat) {
            None => None,
            Some((vs, used)) => Some((vs, 8 + used)),
        },
    }
}

pub open spec fn all_wf<T: Wire>(vs: Seq<T::V>) -> bool {
    forall|i: int| 0 <= i < vs.len() ==> T::wf(#[trigger] vs[i])
}

pub proof fn lemma_elems_round<T: Wire>(vs: Seq<T::V>, rest: Seq<u8>)
    requires
        all_wf::<T>(vs),
    ensures
        dec_elems::<T>(enc_elems::<T>(vs) + rest, vs.len()) == Some(
            (vs, enc_elems::<T>(vs).len() as int),
        ),
    decreases vs.len(),
{
    if vs.len() == 0 {
        assert(vs =~= Seq::<T::V>::empty());
    } else {
        let e0 = T::enc(vs[0]);
        let etail = enc_elems::<T>(vs.skip(1));
        let s = enc_elems::<T>(vs) + rest;
        assert(s =~= e0 + (etail + rest));
        T::lemma_dec_enc(vs[0], etail + rest);
        lemma_concat_skip(e0, etail + rest);
        assert(all_wf::<T>(vs.skip(1))) by {
            assert(forall|i: int|
                0 <= i < vs.skip(1).len() ==> #[trigger] vs.skip(1)[i] == vs[i + 1]);
        }
        lemma_elems_round::<T>(vs.skip(1), rest);
        assert(seq![vs[0]] + vs.skip(1) =~= vs);
    }
}

pub proof fn lemma_elems_len<T: Wire>(s: Seq<u8>, n: nat)
    ensures
        dec_elems::<T>(s, n) matches Some((vs, used)) ==> 0 <= used <= s.len() && vs.len() == n
            && all_wf::<T>(vs),
    decreases n,
{
    if n == 0 {
    } else {
        T::lemma_dec_len(s);
        match T::dec(s) {
            None => {},
            Some((x, used)) => {
                lemma_elems_len::<T>(s.skip(used), (n - 1) as nat);
                match dec_elems::<T>(s.skip(used), (n - 1) as nat) {
                    None => {},
                    Some((tail, used2)) => {
                        assert(all_wf::<T>(seq![x] + tail)) by {
                            assert(forall|i: int|
                                1 <= i < (seq![x] + tail).len() ==> #[trigger] (seq![x] + tail)[i]
                                    == tail[i - 1]);
                            assert((seq![x] + tail)[0] == x);
                        }
                    },
                }
            },
        }
    }
}

pub proof fn lemma_list_round<T: Wire>(vs: Seq<T::V>, rest: Seq<u8>)
    requires
        all_wf::<T>(vs),
        vs.len() <= u64::MAX,
    ensures
        dec_list::<T>(enc_list::<T>(vs) + rest) == Some((vs, enc_list::<T>(vs).len() as int)),
{
    lemma_enc_u64_len(vs.len() as u64);
    let s = enc_list::<T>(vs) + rest;
    assert(s =~= enc_u64(vs.len() as u64) + (enc_elems::<T>(vs) + rest));
    lemma_u64_round(vs.len() as u64, enc_elems::<T>(vs) + rest);
    lemma_concat_skip(enc_u64(vs.len() as u64), enc_elems::<T>(vs) + rest);
    lemma_elems_round::<T>(vs, rest);
}

pub proof fn lemma_list_len<T: Wire>(s: Seq<u8>)
    ensures
        dec_list::<T>(s) matches Some((vs, used)) ==> 0 < used <= s.len() && vs.len() <= u64::MAX
            && all_wf::<T>(vs),
{
    match dec_u64(s) {
        None => {},
        Some((n, _)) => {
            lemma_elems_len::<T>(s.skip(8), n as nat);
        },
    }
}

pub proof fn lemma_elems_snoc<T: Wire>(vs: Seq<T::V>, x: T::V)
    ensures
        enc_elems::<T>(vs.push(x)) == enc_elems::<T>(vs) + T::enc(x),
    decreases vs.len(),
{
    if vs.len() == 0 {
        assert(vs.push(x)[0] == x);
        assert(vs.push(x).skip(1) =~= Seq::<T::V>::empty());
        assert(enc_elems::<T>(vs.push(x)) == T::enc(x) + enc_elems::<T>(Seq::<T::V>::empty()));
        assert(T::enc(x) + Seq::<u8>::empty() =~= Seq::<u8>::empty() + T::enc(x));
    } else {
        assert(vs.push(x).skip(1) =~= vs.skip(1).push(x));
        lemma_elems_snoc::<T>(vs.skip(1), x);
        assert(vs.push(x)[0] == vs[0]);
        assert(enc_elems::<T>(vs.push(x)) == T::enc(vs[0]) + enc_elems::<T>(vs.skip(1).push(x)));
        assert(T::enc(vs[0]) + (enc_elems::<T>(vs.skip(1)) + T::enc(x)) =~= (T::enc(vs[0])
            + enc_elems::<T>(vs.skip(1))) + T::enc(x));
    }
}

pub fn encode_list<T: Wire>(items: &Vec<T>, out: &mut Vec<u8>)
    ensures
        final(out)@ == old(out)@ + enc_list::<T>(seq_view(items@)),
        seq_view(items@).len() <= u64::MAX,
        all_wf::<T>(seq_view(items@)),
{
    let n = items.len();
    proof {
        lemma_enc_u64_len(n as u64);
    }
    encode_u64(n as u64, out);
    let mut i: usize = 0;
    while i < n
        invariant
            n == items.len(),
            i <= n,
            out@ == old(out)@ + enc_u64(n as u64) + enc_elems::<T>(seq_view(items@.take(i as int))),
            all_wf::<T>(seq_view(items@.take(i as int))),
        decreases n - i,
    {
        let ghost prefix = seq_view(items@.take(i as int));
        items[i].encode_to(out);
        proof {
            assert(items@.take(i + 1) =~= items@.take(i as int).push(items@[i as int]));
            assert(seq_view(items@.take(i + 1)) =~= prefix.push(items@[i as int]@));
            lemma_elems_snoc::<T>(prefix, items@[i as int]@);
            assert(all_wf::<T>(seq_view(items@.take(i + 1)))) by {
                assert(forall|j: int|
                    0 <= j < i ==> #[trigger] seq_view(items@.take(i + 1))[j] == prefix[j]);
            }
        }
        i = i + 1;
    }
    proof {
        assert(items@.take(n as int) =~= items@);
        assert(out@ =~= old(out)@ + enc_list::<T>(seq_view(items@)));
    }
}

pub fn decode_list<T: Wire>(buf: &Vec<u8>, pos: usize) -> (r: Option<(Vec<T>, usize)>)
    requires
        pos <= buf.len(),
    ensures
        match r {
            Some((items, end)) => {
                &&& pos <= end <= buf.len()
                &&& dec_list::<T>(buf@.skip(pos as int)) == Some(
                    (seq_view(items@), (end - pos) as int),
                )
            },
            None => dec_list::<T>(buf@.skip(pos as int)) is None,
        },
{
    let ghost s = buf@.skip(pos as int);
    let (n, start) = match decode_u64(buf, pos) {
        None => {
            return None;
        },
        Some(p) => p,
    };
    proof {
        lemma_skip_skip(buf@, pos as int, 8);
    }
    let mut items: Vec<T> = Vec::new();
    let mut cur: usize = start;
    let mut k: u64 = 0;
    while k < n
        invariant
            pos <= buf.len(),
            start == pos + 8,
            start <= cur <= buf.len(),
            k <= n,
            dec_u64(s) == Some((n, 8int)),
            s == buf@.skip(pos as int),
            dec_elems::<T>(buf@.skip(start as int), n as nat) == (match dec_elems::<T>(
                buf@.skip(cur as int),
                (n - k) as nat,
            ) {
                Some((tail, u)) => Some((seq_view(items@) + tail, (cur - start) + u)),
                None => None::<(Seq<T::V>, int)>,
            }),
        decreases n - k,
    {
        let ghost before = seq_view(items@);
        match T::decode_from(buf, cur) {
            None => {
                proof {
                    lemma_skip_skip(buf@, pos as int, 8);
                    assert(dec_elems::<T>(buf@.skip(cur as int), (n - k) as nat) is None);
                }
                return None;
            },
            Some((x, end)) => {
                proof {
                    T::lemma_dec_len(buf@.skip(cur as int));
                    lemma_skip_skip(buf@, cur as int, (end - cur) as int);
                }
                let ghost xv = x@;
                items.push(x);
                proof {
                    assert(seq_view(items@) =~= before.push(xv));
                    match dec_elems::<T>(buf@.skip(end as int), (n - k - 1) as nat) {
                        None => {},
                        Some((tail2, u2)) => {
                            assert(before + (seq![xv] + tail2) =~= seq_view(items@) + tail2);
                        },
                    }
                }
                cur = end;
            },
        }
        k = k + 1;
    }
    proof {
        lemma_skip_skip(buf@, pos as int, 8);
        assert(seq_view(items@) + Seq::<T::V>::empty() =~= seq_view(items@));
    }
    Some((items, cur))
}

// ---------------------------------------------------------------------------
// Streams: a whole response body is the concatenation of encoded values, with
// nothing after the last one.
// ---------------------------------------------------------------------------

pub open spec fn dec_stream<T: Wire>(s: Seq<u8>) -> Option<Seq<T::V>>
    decreases s.len(),
{
    if s.len() == 0 {
        Some(Seq::empty())
    } else {
        match T::dec(s) {
            None => None,
            Some((x, used)) => if 0 < used <= s.len() {
                match dec_stream::<T>(s.skip(used)) {
                    None => None,
                    Some(tail) => Some(seq![x] + tail),
                }
            } else {
                None
            },
        }
    }
}

/// Round trip of a whole body: decoding the concatenation of the encodings
/// of a sequence of values yields exactly those values.
pub proof fn lemma_stream_round<T: Wire>(vs: Seq<T::V>)
    requires
        all_wf::<T>(vs),
    ensures
        dec_stream::<T>(enc_elems::<T>(vs)) == Some(vs),
    decreases vs.len(),
{
    if vs.len() == 0 {
        assert(vs =~= Seq::<T::V>::empty());
    } else {
        let e0 = T::enc(vs[0]);
        let etail = enc_elems::<T>(vs.skip(1));
        let s = enc_elems::<T>(vs);
        assert(s == e0 + etail);
        T::lemma_dec_enc(vs[0], etail);
        T::lemma_dec_len(s);
        lemma_concat_skip(e0, etail);
        assert(all_wf::<T>(vs.skip(1))) by {
            assert(forall|i: int|
                0 <= i < vs.skip(1).len() ==> #[trigger] vs.skip(1)[i] == vs[i + 1]);
        }
        lemma_stream_round::<T>(vs.skip(1));
        assert(seq![vs[0]] + vs.skip(1) =~= vs);
    }
}

/// Everything a well-formed stream yields is itself well-formed.
pub proof fn lemma_stream_wf<T: Wire>(s: Seq<u8>)
    ensures
        dec_stream::<T>(s) matches Some(vs) ==> all_wf::<T>(vs),
    decreases s.len(),
{
    if s.len() == 0 {
    } else {
        T::lemma_dec_len(s);
        match T::dec(s) {
            None => {},
            Some((x, used)) => {
                if 0 < used <= s.len() {
                    lemma_stream_wf::<T>(s.skip(used));
                    match dec_stream::<T>(s.skip(used)) {
                        None => {},
                        Some(tail) => {
                            assert(all_wf::<T>(seq![x] + tail)) by {
                                assert((seq![x] + tail)[0] == x);
                                assert(forall|i: int|
                                    1 <= i < (seq![x] + tail).len() ==> #[trigger] (seq![x]
                                        + tail)[i] == tail[i - 1]);
                            }
                        },
                    }
                }
            },
        }
    }
}

/// Decodes a whole body as a stream of values of one wire type.
pub fn decode_stream<T: Wire>(body: &Vec<u8>) -> (r: Option<Vec<T>>)
    ensures
        match r {
            Some(items) => dec_stream::<T>(body@) == Some(seq_view(items@)),
            None => dec_stream::<T>(body@) is None,
        },
{
    let mut items: Vec<T> = Vec::new();
    let mut pos: usize = 0;
    proof {
        assert(body@.skip(0) =~= body@);
        match dec_stream::<T>(body@) {
            None => {},
            Some(tail) => {
                assert(seq_view(items@) + tail =~= tail);
            },
        }
    }
    while pos < body.len()
        invariant
            pos <= body.len(),
            dec_stream::<T>(body@) == (match dec_stream::<T>(body@.skip(pos as int)) {
                Some(tail) => Some(seq_view(items@) + tail),
                None => None::<Seq<T::V>>,
            }),
        decreases body.len() - pos,
    {
        let ghost before = seq_view(items@);
        match T::decode_from(body, pos) {
            None => {
                return None;
            },
            Some((x, end)) => {
                proof {
                    T::lemma_dec_len(body@.skip(pos as int));
                    lemma_skip_skip(body@, pos as int, (end - pos) as int);
                }
                let ghost xv = x@;
                items.push(x);
                proof {
                    assert(seq_view(items@) =~= before.push(xv));
                    match dec_stream::<T>(body@.skip(end as int)) {
                        None => {},
                        Some(tail2) => {
                            assert(before + (seq![xv] + tail2) =~= seq_view(items@) + tail2);
                        },
                    }
                }
                pos = end;
            },
        }
    }
    proof {
        assert(seq_view(items@) + Seq::<T::V>::empty() =~= seq_view(items@));
    }
    Some(items)
}

} // verus!
