//! Chunking a key list into size-bounded batches.
//!
//! Concatenating the batches in order reproduces the original key sequence
//! exactly: every key lands in exactly one batch, in its original place.

use vstd::prelude::*;
use crate::keys::Key;

verus! {

/// The number of batches a list of `len` keys yields at batch size `size`.
pub open spec fn spec_num_batches(len: int, size: int) -> int {
    if size <= 0 {
        0
    } else {
        (len + size - 1) / size
    }
}

/// The concatenation of a sequence of batches, in order.
pub open spec fn concat_batches<A>(bs: Seq<Seq<A>>) -> Seq<A>
    decreases bs.len(),
{
    if bs.len() == 0 {
        Seq::empty()
    } else {
        bs[0] + concat_batches(bs.skip(1))
    }
}

/// The contents of a sequence of batch vectors.
pub open spec fn batch_seqs<A>(bs: Seq<Vec<A>>) -> Seq<Seq<A>> {
    bs.map_values(|b: Vec<A>| b@)
}

pub proof fn lemma_concat_snoc<A>(bs: Seq<Seq<A>>, b: Seq<A>)
    ensures
        concat_batches(bs.push(b)) == concat_batches(bs) + b,
    decreases bs.len(),
{
    if bs.len() == 0 {
        assert(bs.push(b)[0] == b);
        assert(bs.push(b).skip(1) =~= bs);
        assert(concat_batches(bs.push(b)) == b + concat_batches(bs));
        assert(b + Seq::<A>::empty() =~= Seq::<A>::empty() + b);
    } else {
        assert(bs.push(b)[0] == bs[0]);
        assert(bs.push(b).skip(1) =~= bs.skip(1).push(b));
        lemma_concat_snoc::<A>(bs.skip(1), b);
        assert(concat_batches(bs.push(b)) == bs[0] + (concat_batches(bs.skip(1)) + b));
        assert(bs[0] + (concat_batches(bs.skip(1)) + b) =~= (bs[0] + concat_batches(bs.skip(1)))
            + b);
    }
}

/// Splits `keys` into batches of at most `size` keys: every batch but the
/// last holds exactly `size` keys, and concatenating the batches in order
/// reproduces the original sequence exactly — no key is dropped, duplicated
/// or reordered.
pub fn chunk_keys(keys: Vec<Key>, size: usize) -> (r: Vec<Vec<Key>>)
    requires
        size >= 1,
    ensures
        concat_batches(batch_seqs(r@)) == keys@,
        forall|i: int| 0 <= i < r@.len() ==> 0 < #[trigger] r@[i]@.len() <= size,
        forall|i: int| 0 <= i < r@.len() - 1 ==> #[trigger] r@[i]@.len() == size,
        r@.len() == spec_num_batches(keys@.len() as int, size as int),
{
    let ghost orig = keys@;
    let mut keys = keys;
    let mut out: Vec<Vec<Key>> = Vec::new();
    let mut cur: Vec<Key> = Vec::new();
    proof {
        assert(concat_batches(batch_seqs(out@)) + cur@ + keys@ =~= orig);
    }
    while keys.len() > 0
        invariant
            size >= 1,
            concat_batches(batch_seqs(out@)) + cur@ + keys@ == orig,
            forall|i: int| 0 <= i < out@.len() ==> #[trigger] out@[i]@.len() == size,
            cur@.len() < size,
            orig.len() == out@.len() * size + cur@.len() + keys@.len(),
        decreases keys@.len(),
    {
        let ghost out_before = out@;
        let ghost cur_before = cur@;
        let ghost keys_before = keys@;
        let k = keys.remove(0);
        cur.push(k);
        proof {
            assert(cur_before.push(keys_before[0]) + keys_before.remove(0) =~= cur_before
                + keys_before);
            assert(concat_batches(batch_seqs(out@)) + cur@ + keys@ =~= orig);
        }
        if cur.len() == size {
            let full = cur;
            cur = Vec::new();
            out.push(full);
            proof {
                assert(batch_seqs(out@) =~= batch_seqs(out_before).push(full@));
                lemma_concat_snoc::<Key>(batch_seqs(out_before), full@);
                assert(concat_batches(batch_seqs(out@)) + cur@ + keys@ =~= orig);
                assert((out_before.len() + 1) * size == out_before.len() * size + size)
                    by (nonlinear_arith);
            }
        }
    }
    proof {
        assert(keys@ =~= Seq::<Key>::empty());
    }
    let ghost m = out@.len() as int;
    let ghost n = orig.len() as int;
    let ghost sz = size as int;
    if cur.len() > 0 {
        let ghost out_before = out@;
        let ghost cur_last = cur@;
        out.push(cur);
        proof {
            assert(batch_seqs(out@) =~= batch_seqs(out_before).push(cur_last));
            lemma_concat_snoc::<Key>(batch_seqs(out_before), cur_last);
            assert(concat_batches(batch_seqs(out@)) =~= orig);
            assert((n + sz - 1) / sz == m + 1) by (nonlinear_arith)
                requires
                    sz >= 1,
                    n == m * sz + cur_last.len(),
                    0 < cur_last.len() < sz,
                    m >= 0,
            ;
        }
    } else {
        proof {
            assert(concat_batches(batch_seqs(out@)) + cur@ =~= concat_batches(batch_seqs(out@)));
            assert(concat_batches(batch_seqs(out@)) =~= orig);
            if n == 0 {
                assert(m == 0) by (nonlinear_arith)
                    requires
                        sz >= 1,
                        0 == m * sz,
                        m >= 0,
                ;
                assert((n + sz - 1) / sz == 0) by (nonlinear_arith)
                    requires
                        sz >= 1,
                        n == 0,
                ;
            } else {
                assert((n + sz - 1) / sz == m) by (nonlinear_arith)
                    requires
                        sz >= 1,
                        n == m * sz,
                        n > 0,
                        m >= 0,
                ;
            }
        }
    }
    out
}

} // verus!
