//! Aggregating per-transfer progress into global totals.
//!
//! Every transfer registers one tracking handle before it starts. The
//! manager keeps the last known (downloaded, uploaded) sample of each handle
//! and the moment the first response byte arrived across all transfers.
//! Aggregate totals are the saturating sums of the per-handle samples, so an
//! observer fed one aggregate sample per update sees totals that never
//! decrease while per-handle samples grow.

use vstd::prelude::*;

verus! {

/// Addition that stops at the largest representable count instead of
/// overflowing.
pub open spec fn sat_add(a: u64, b: u64) -> u64 {
    if a + b > u64::MAX {
        u64::MAX
    } else {
        (a + b) as u64
    }
}

/// The saturating sum of the downloaded counts of all samples.
pub open spec fn sum_downloaded(s: Seq<(u64, u64)>) -> u64
    decreases s.len(),
{
    if s.len() == 0 {
        0
    } else {
        sat_add(sum_downloaded(s.drop_last()), s.last().0)
    }
}

/// The saturating sum of the uploaded counts of all samples.
pub open spec fn sum_uploaded(s: Seq<(u64, u64)>) -> u64
    decreases s.len(),
{
    if s.len() == 0 {
        0
    } else {
        sat_add(sum_uploaded(s.drop_last()), s.last().1)
    }
}

/// The earlier of two optional first-byte moments.
pub open spec fn merge_first(a: Option<u64>, b: Option<u64>) -> Option<u64> {
    match (a, b) {
        (None, x) => x,
        (Some(t), None) => Some(t),
        (Some(t), Some(u)) => if t <= u {
            Some(t)
        } else {
            Some(u)
        },
    }
}

/// Per-transfer progress aggregated into global totals.
pub struct ProgressManager {
    pub samples: Vec<(u64, u64)>,
    pub first_response: Option<u64>,
    pub expected: usize,
}

impl ProgressManager {
    /// A fresh manager expecting `n` transfers.
    pub fn with_capacity(n: usize) -> (r: ProgressManager)
        ensures
            r.samples@ == Seq::<(u64, u64)>::empty(),
            r.first_response is None,
            r.expected == n,
    {
        ProgressManager { samples: Vec::new(), first_response: None, expected: n }
    }

    /// A fresh tracking handle, required once per transfer before it starts.
    pub fn register(&mut self) -> (h: usize)
        ensures
            h == old(self).samples@.len(),
            final(self).samples@ == old(self).samples@.push((0u64, 0u64)),
            final(self).first_response == old(self).first_response,
            final(self).expected == old(self).expected,
    {
        let h = self.samples.len();
        self.samples.push((0, 0));
        h
    }

    /// Records the last known sample of one handle, and the moment that
    /// transfer first produced data, if it did.
    pub fn update(&mut self, handle: usize, downloaded: u64, uploaded: u64, first_byte_ms: Option<
        u64,
    >)
        requires
            handle < old(self).samples@.len(),
        ensures
            final(self).samples@ == old(self).samples@.update(
                handle as int,
                (downloaded, uploaded),
            ),
            final(self).first_response == merge_first(old(self).first_response, first_byte_ms),
            final(self).expected == old(self).expected,
    {
        self.samples.set(handle, (downloaded, uploaded));
        match first_byte_ms {
            None => {},
            Some(t) => {
                match self.first_response {
                    None => {
                        self.first_response = Some(t);
                    },
                    Some(cur) => {
                        if t < cur {
                            self.first_response = Some(t);
                        }
                    },
                }
            },
        }
    }

    /// The aggregate totals: the saturating sums of all per-handle samples.
    pub fn stats(&self) -> (r: (u64, u64))
        ensures
            r.0 == sum_downloaded(self.samples@),
            r.1 == sum_uploaded(self.samples@),
    {
        let mut down: u64 = 0;
        let mut up: u64 = 0;
        let mut i: usize = 0;
        proof {
            assert(self.samples@.take(0) =~= Seq::<(u64, u64)>::empty());
        }
        while i < self.samples.len()
            invariant
                i <= self.samples@.len(),
                down == sum_downloaded(self.samples@.take(i as int)),
                up == sum_uploaded(self.samples@.take(i as int)),
            decreases self.samples@.len() - i,
        {
            let (d, u) = self.samples[i];
            down = match down.checked_add(d) {
                None => u64::MAX,
                Some(v) => v,
            };
            up = match up.checked_add(u) {
                None => u64::MAX,
                Some(v) => v,
            };
            proof {
                assert(self.samples@.take(i + 1).drop_last() =~= self.samples@.take(i as int));
                assert(self.samples@.take(i + 1).last() == self.samples@[i as int]);
            }
            i = i + 1;
        }
        proof {
            assert(self.samples@.take(self.samples@.len() as int) =~= self.samples@);
        }
        (down, up)
    }

    /// The moment the first response byte arrived; a batch that never got a
    /// response defaults to `now_ms`, which makes the reported latency equal
    /// the full elapsed time.
    pub fn first_response_time(&self, now_ms: u64) -> (r: u64)
        ensures
            r == (match self.first_response {
                Some(t) => t,
                None => now_ms,
            }),
    {
        match self.first_response {
            Some(t) => t,
            None => now_ms,
        }
    }
}

/// Saturating addition never shrinks when neither argument shrinks.
pub proof fn lemma_sat_add_monotonic(a1: u64, b1: u64, a2: u64, b2: u64)
    requires
        a1 <= a2,
        b1 <= b2,
    ensures
        sat_add(a1, b1) <= sat_add(a2, b2),
{
}

/// Growing one handle's sample never shrinks the aggregate totals: the
/// observer installed on the manager sees monotonically non-decreasing
/// totals as long as every transfer's own counters grow.
pub proof fn lemma_totals_monotonic(s: Seq<(u64, u64)>, i: int, v: (u64, u64))
    requires
        0 <= i < s.len(),
        s[i].0 <= v.0,
        s[i].1 <= v.1,
    ensures
        sum_downloaded(s) <= sum_downloaded(s.update(i, v)),
        sum_uploaded(s) <= sum_uploaded(s.update(i, v)),
    decreases s.len(),
{
    let t = s.update(i, v);
    if i == s.len() - 1 {
        assert(t.drop_last() =~= s.drop_last());
        lemma_sat_add_monotonic(
            sum_downloaded(s.drop_last()),
            s.last().0,
            sum_downloaded(t.drop_last()),
            t.last().0,
        );
        lemma_sat_add_monotonic(
            sum_uploaded(s.drop_last()),
            s.last().1,
            sum_uploaded(t.drop_last()),
            t.last().1,
        );
    } else {
        assert(t.drop_last() =~= s.drop_last().update(i, v));
        lemma_totals_monotonic(s.drop_last(), i, v);
        assert(t.last() == s.last());
        lemma_sat_add_monotonic(
            sum_downloaded(s.drop_last()),
            s.last().0,
            sum_downloaded(t.drop_last()),
            t.last().0,
        );
        lemma_sat_add_monotonic(
            sum_uploaded(s.drop_last()),
            s.last().1,
            sum_uploaded(t.drop_last()),
            t.last().1,
        );
    }
}

/// Per-transfer response buffer: response bytes are appended as they
/// arrive, and the full body must be buffered before anything decodes it.
/// The handle counts its bytes as they land, so progress can be reported
/// during the transfer rather than at decode time.
pub struct TransferHandle {
    pub buf: Vec<u8>,
    pub progress_handle: usize,
}

impl TransferHandle {
    /// An empty buffer bound to one progress registration.
    pub fn new(progress_handle: usize) -> (r: TransferHandle)
        ensures
            r.buf@ == Seq::<u8>::empty(),
            r.progress_handle == progress_handle,
    {
        TransferHandle { buf: Vec::new(), progress_handle }
    }

    /// Appends one arriving chunk and reports the bytes buffered so far,
    /// the delta to hand to the progress manager.
    pub fn on_data(&mut self, chunk: &Vec<u8>) -> (r: usize)
        requires
            old(self).buf@.len() + chunk@.len() <= usize::MAX,
        ensures
            final(self).buf@ == old(self).buf@ + chunk@,
            final(self).progress_handle == old(self).progress_handle,
            r == final(self).buf@.len(),
    {
        let mut i: usize = 0;
        while i < chunk.len()
            invariant
                i <= chunk@.len(),
                self.buf@ == old(self).buf@ + chunk@.take(i as int),
                self.buf@.len() + chunk@.len() - i <= usize::MAX,
                self.progress_handle == old(self).progress_handle,
            decreases chunk@.len() - i,
        {
            self.buf.push(chunk[i]);
            proof {
                assert(old(self).buf@ + chunk@.take(i + 1) =~= (old(self).buf@ + chunk@.take(
                    i as int,
                )).push(chunk@[i as int]));
            }
            i = i + 1;
        }
        proof {
            assert(old(self).buf@ + chunk@.take(chunk@.len() as int) =~= old(self).buf@ + chunk@);
        }
        self.buf.len()
    }

    /// The completed body, once the transfer finished.
    pub fn into_data(self) -> (r: Vec<u8>)
        ensures
            r@ == self.buf@,
    {
        self.buf
    }
}

} // verus!
