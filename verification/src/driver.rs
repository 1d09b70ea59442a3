//! Driving many prepared transfers against one transfer-manager resource.
//!
//! The transfer manager itself is the one resource this crate does not own:
//! it is reached through the `TransferManager` trait, whose implementations
//! perform the actual network work and report one outcome per transfer in
//! completion order. Everything decided about those outcomes — which bodies
//! decode, which callbacks run, when to stop — is verified here.

use vstd::prelude::*;
use vstd::string::StringExecFns;
use crate::errors::ApiError;
use crate::wire::{all_wf, dec_stream, decode_stream, lemma_stream_wf, seq_view, Wire};

verus! {

/// Client credentials: the paths of a TLS certificate and its private key,
/// attached to every transfer.
pub struct ClientCreds {
    pub certs: String,
    pub key: String,
}

impl ClientCreds {
    /// A copy of these credentials, for one more transfer.
    pub fn duplicate(&self) -> (r: ClientCreds)
        ensures
            r.certs@ == self.certs@,
            r.key@ == self.key@,
    {
        ClientCreds { certs: self.certs.clone(), key: self.key.clone() }
    }
}

/// A copy of optional credentials.
pub fn duplicate_creds(creds: &Option<ClientCreds>) -> (r: Option<ClientCreds>)
    ensures
        r is Some <==> creds is Some,
        r matches Some(c) ==> (creds matches Some(o) && c.certs@ == o.certs@ && c.key@ == o.key@),
{
    match creds {
        None => None,
        Some(c) => Some(c.duplicate()),
    }
}

/// One fully prepared transfer, ready to be driven: the method, the target,
/// the encoded request body, the content type naming the body's encoding
/// (empty for a body-less GET), and the credentials to present.
pub struct PreparedTransfer {
    pub is_post: bool,
    pub url: String,
    pub body: Vec<u8>,
    pub content_type: String,
    pub creds: Option<ClientCreds>,
}

/// The media type naming this crate's wire encoding, set as the content
/// type of every POST body.
pub fn wire_content_type() -> (r: String)
    ensures
        r@ == "application/x-eden-wire"@,
{
    String::from_str("application/x-eden-wire")
}

/// What one transfer came to: a network-level failure flag, the HTTP status,
/// the buffered response body, the byte counts both ways, and the moment the
/// first response byte arrived, in milliseconds from the start of the drive.
pub struct TransferOutcome {
    pub index: usize,
    pub failed: bool,
    pub status: u32,
    pub body: Vec<u8>,
    pub downloaded: u64,
    pub uploaded: u64,
    pub first_byte_ms: Option<u64>,
}

/// Everything one drive of the transfer manager reports: the outcomes in
/// completion order, and the elapsed wall-clock time of the whole drive.
pub struct DriveReport {
    pub outcomes: Vec<TransferOutcome>,
    pub elapsed_ms: u64,
}

/// The transfer-manager resource.
///
/// An implementation owns whatever mechanism performs HTTP transfers; it
/// drives all given transfers concurrently and reports their outcomes in
/// completion order (ties broken by whichever transfer it serviced first).
/// The resource must never be used from two threads at once: this trait
/// hands it out only through `&mut self`, so one borrow is active at a time,
/// and sharing it across threads takes an exclusive lock around each call.
/// Nothing is assumed about what comes back; every caller in this crate is
/// verified against arbitrary reports.
pub trait TransferManager {
    fn perform_all(&mut self, transfers: Vec<PreparedTransfer>) -> DriveReport;
}

// ---------------------------------------------------------------------------
// What outcomes mean, at the specification level.
// ---------------------------------------------------------------------------

/// An outcome that yields a decoded batch: no network failure, a status
/// below 400, and a body that decodes as a stream of `T` values.
pub open spec fn outcome_ok<T: Wire>(o: TransferOutcome) -> bool {
    !o.failed && o.status < 400 && dec_stream::<T>(o.body@) is Some
}

/// The decoded units of a successful outcome.
pub open spec fn outcome_units<T: Wire>(o: TransferOutcome) -> Seq<T::V> {
    dec_stream::<T>(o.body@).unwrap()
}

/// The error owed for a failed outcome: a transfer error for a network
/// failure, a protocol error carrying status and body for a status of 400 or
/// above, and a decode error for a malformed body.
pub open spec fn outcome_err_matches<T: Wire>(o: TransferOutcome, e: ApiError) -> bool {
    if o.failed {
        e is Transfer
    } else if o.status >= 400 {
        e matches ApiError::Protocol { status, body } && status == o.status && body@ == o.body@
    } else {
        e is Decode
    }
}

/// The position of the first outcome, in completion order, that does not
/// yield a decoded batch; the total count when every outcome does.
pub open spec fn first_bad<T: Wire>(os: Seq<TransferOutcome>) -> int
    decreases os.len(),
{
    if os.len() == 0 {
        0
    } else if !outcome_ok::<T>(os[0]) {
        0
    } else {
        1 + first_bad::<T>(os.skip(1))
    }
}

pub proof fn lemma_first_bad<T: Wire>(os: Seq<TransferOutcome>)
    ensures
        0 <= first_bad::<T>(os) <= os.len(),
        forall|i: int| 0 <= i < first_bad::<T>(os) ==> outcome_ok::<T>(#[trigger] os[i]),
        first_bad::<T>(os) < os.len() ==> !outcome_ok::<T>(os[first_bad::<T>(os)]),
    decreases os.len(),
{
    if os.len() == 0 {
    } else if !outcome_ok::<T>(os[0]) {
    } else {
        lemma_first_bad::<T>(os.skip(1));
        assert forall|i: int| 0 <= i < first_bad::<T>(os) implies outcome_ok::<T>(
            #[trigger] os[i],
        ) by {
            if i > 0 {
                assert(os.skip(1)[i - 1] == os[i]);
                assert(outcome_ok::<T>(os.skip(1)[i - 1]));
            }
        }
        if first_bad::<T>(os) < os.len() {
            assert(os.skip(1)[first_bad::<T>(os.skip(1))] == os[first_bad::<T>(os)]);
        }
    }
}

/// A prefix of all-successful outcomes followed by a failure pins down where
/// the first failure stands.
pub proof fn lemma_first_bad_at<T: Wire>(os: Seq<TransferOutcome>, i: int)
    requires
        0 <= i < os.len(),
        forall|j: int| 0 <= j < i ==> outcome_ok::<T>(#[trigger] os[j]),
        !outcome_ok::<T>(os[i]),
    ensures
        first_bad::<T>(os) == i,
{
    lemma_first_bad::<T>(os);
}

/// The views of the batches handed to the response callback.
pub open spec fn batch_views<T: Wire>(bs: Seq<Vec<T>>) -> Seq<Seq<T::V>> {
    bs.map_values(|b: Vec<T>| seq_view(b@))
}

/// The decoded batches of every successful outcome, in completion order.
pub open spec fn ok_units<T: Wire>(os: Seq<TransferOutcome>) -> Seq<Seq<T::V>>
    decreases os.len(),
{
    if os.len() == 0 {
        Seq::empty()
    } else if outcome_ok::<T>(os[0]) {
        seq![outcome_units::<T>(os[0])] + ok_units::<T>(os.skip(1))
    } else {
        ok_units::<T>(os.skip(1))
    }
}

pub proof fn lemma_ok_units_snoc<T: Wire>(os: Seq<TransferOutcome>, o: TransferOutcome)
    ensures
        ok_units::<T>(os.push(o)) == if outcome_ok::<T>(o) {
            ok_units::<T>(os).push(outcome_units::<T>(o))
        } else {
            ok_units::<T>(os)
        },
    decreases os.len(),
{
    if os.len() == 0 {
        assert(os.push(o)[0] == o);
        assert(os.push(o).skip(1) =~= os);
        assert(ok_units::<T>(os) == Seq::<Seq<T::V>>::empty());
        if outcome_ok::<T>(o) {
            assert(ok_units::<T>(os.push(o)) == seq![outcome_units::<T>(o)] + ok_units::<T>(os));
            assert(seq![outcome_units::<T>(o)] + ok_units::<T>(os) =~= ok_units::<T>(os).push(
                outcome_units::<T>(o),
            ));
        } else {
            assert(ok_units::<T>(os.push(o)) == ok_units::<T>(os));
        }
    } else {
        assert(os.push(o)[0] == os[0]);
        assert(os.push(o).skip(1) =~= os.skip(1).push(o));
        lemma_ok_units_snoc::<T>(os.skip(1), o);
        assert(ok_units::<T>(os.push(o)) == if outcome_ok::<T>(os[0]) {
            seq![outcome_units::<T>(os[0])] + ok_units::<T>(os.skip(1).push(o))
        } else {
            ok_units::<T>(os.skip(1).push(o))
        });
        if outcome_ok::<T>(os[0]) {
            if outcome_ok::<T>(o) {
                assert(seq![outcome_units::<T>(os[0])] + ok_units::<T>(os.skip(1)).push(
                    outcome_units::<T>(o),
                ) =~= (seq![outcome_units::<T>(os[0])] + ok_units::<T>(os.skip(1))).push(
                    outcome_units::<T>(o),
                ));
            }
        }
    }
}

// ---------------------------------------------------------------------------
// The driver.
// ---------------------------------------------------------------------------

/// Processes transfer outcomes in completion order.
///
/// With `fail_early` set, the driver stops at the first outcome that does
/// not yield a decoded batch, abandoning everything after it; otherwise it
/// processes all outcomes and keeps the first error for the end.
pub struct MultiDriver {
    pub fail_early: bool,
}

impl MultiDriver {
    pub fn new() -> (r: MultiDriver)
        ensures
            !r.fail_early,
    {
        MultiDriver { fail_early: false }
    }

    pub fn fail_early(&mut self, b: bool)
        ensures
            final(self).fail_early == b,
    {
        self.fail_early = b;
    }

    /// Decodes the outcomes of one drive, in completion order.
    ///
    /// With `fail_early` set, the result holds exactly the decoded batches of
    /// the outcomes that completed strictly before the first failing one, and
    /// the first failure's error; no outcome after the first failure
    /// contributes anything. Otherwise it holds the decoded batches of every
    /// successful outcome, and still the first failure's error.
    pub fn process<T: Wire>(&self, outcomes: &Vec<TransferOutcome>) -> (r: (
        Vec<Vec<T>>,
        Option<ApiError>,
    ))
        ensures
            forall|i: int|
                0 <= i < r.0@.len() ==> all_wf::<T>(seq_view(#[trigger] r.0@[i]@)),
            r.1 is Some <==> first_bad::<T>(outcomes@) < outcomes@.len(),
            r.1 matches Some(e) ==> outcome_err_matches::<T>(
                outcomes@[first_bad::<T>(outcomes@)],
                e,
            ),
            self.fail_early ==> {
                &&& r.0@.len() == first_bad::<T>(outcomes@)
                &&& forall|i: int|
                    0 <= i < r.0@.len() ==> seq_view(#[trigger] r.0@[i]@) == outcome_units::<T>(
                        outcomes@[i],
                    )
            },
            !self.fail_early ==> batch_views::<T>(r.0@) == ok_units::<T>(outcomes@),
    {
        let n = outcomes.len();
        let mut batches: Vec<Vec<T>> = Vec::new();
        let mut first_err: Option<ApiError> = None;
        let mut i: usize = 0;
        proof {
            lemma_first_bad::<T>(outcomes@);
            assert(outcomes@.take(0) =~= Seq::<TransferOutcome>::empty());
            assert(batch_views::<T>(batches@) =~= ok_units::<T>(outcomes@.take(0)));
        }
        while i < n
            invariant
                n == outcomes@.len(),
                i <= n,
                0 <= first_bad::<T>(outcomes@) <= n,
                forall|j: int|
                    0 <= j < first_bad::<T>(outcomes@) ==> outcome_ok::<T>(
                        #[trigger] outcomes@[j],
                    ),
                first_bad::<T>(outcomes@) < n ==> !outcome_ok::<T>(
                    outcomes@[first_bad::<T>(outcomes@)],
                ),
                first_err is Some <==> first_bad::<T>(outcomes@) < i,
                first_err matches Some(e) ==> outcome_err_matches::<T>(
                    outcomes@[first_bad::<T>(outcomes@)],
                    e,
                ),
                self.fail_early ==> first_err is None,
                self.fail_early ==> i <= first_bad::<T>(outcomes@),
                self.fail_early ==> batches@.len() == i,
                self.fail_early ==> forall|j: int|
                    0 <= j < batches@.len() ==> seq_view(#[trigger] batches@[j]@)
                        == outcome_units::<T>(outcomes@[j]),
                !self.fail_early ==> batch_views::<T>(batches@) == ok_units::<T>(
                    outcomes@.take(i as int),
                ),
                forall|j: int|
                    0 <= j < batches@.len() ==> all_wf::<T>(seq_view(#[trigger] batches@[j]@)),
            decreases n - i,
        {
            let o = &outcomes[i];
            let ghost ov = outcomes@[i as int];
            let ghost batches_before = batches@;
            let mut err: Option<ApiError> = None;
            if o.failed {
                err = Some(
                    ApiError::Transfer {
                        msg: String::from_str("transfer failed at the network level"),
                    },
                );
            } else if o.status >= 400 {
                err = Some(ApiError::Protocol { status: o.status, body: copy_bytes(&o.body) });
            } else {
                match decode_stream::<T>(&o.body) {
                    None => {
                        err = Some(ApiError::Decode);
                    },
                    Some(units) => {
                        proof {
                            lemma_stream_wf::<T>(o.body@);
                        }
                        batches.push(units);
                    },
                }
            }
            proof {
                if err is Some {
                    assert(!outcome_ok::<T>(ov));
                    if first_bad::<T>(outcomes@) >= i {
                        lemma_first_bad_at::<T>(outcomes@, i as int);
                    }
                } else {
                    assert(outcome_ok::<T>(ov));
                }
            }
            match err {
                Some(e) => {
                    if self.fail_early {
                        proof {
                            assert(first_bad::<T>(outcomes@) == i);
                        }
                        return (batches, Some(e));
                    }
                    if first_err.is_none() {
                        first_err = Some(e);
                    }
                    proof {
                        assert(outcomes@.take(i + 1) =~= outcomes@.take(i as int).push(ov));
                        lemma_ok_units_snoc::<T>(outcomes@.take(i as int), ov);
                    }
                },
                None => {
                    proof {
                        if !self.fail_early {
                            assert(outcomes@.take(i + 1) =~= outcomes@.take(i as int).push(ov));
                            lemma_ok_units_snoc::<T>(outcomes@.take(i as int), ov);
                            assert(batch_views::<T>(batches@) =~= batch_views::<T>(
                                batches_before,
                            ).push(seq_view(batches@[batches@.len() - 1]@)));
                        }
                        if self.fail_early && first_bad::<T>(outcomes@) == i {
                            assert(false);
                        }
                    }
                },
            }
            i = i + 1;
        }
        proof {
            assert(outcomes@.take(n as int) =~= outcomes@);
        }
        (batches, first_err)
    }
}

/// A copy of a byte buffer.
pub fn copy_bytes(v: &Vec<u8>) -> (r: Vec<u8>)
    ensures
        r@ == v@,
{
    let mut r: Vec<u8> = Vec::new();
    let mut i: usize = 0;
    while i < v.len()
        invariant
            i <= v@.len(),
            r@ == v@.take(i as int),
        decreases v@.len() - i,
    {
        r.push(v[i]);
        proof {
            assert(v@.take(i + 1) =~= v@.take(i as int).push(v@[i as int]));
        }
        i = i + 1;
    }
    proof {
        assert(v@.take(v@.len() as int) =~= v@);
    }
    r
}

/// A transfer manager that replays prepared reports instead of performing
/// network transfers, recording every drive it is asked for: the stand-in
/// used by tests and dry runs.
pub struct ScriptedTransferManager {
    pub reports: Vec<DriveReport>,
    pub calls: Vec<Vec<PreparedTransfer>>,
}

impl ScriptedTransferManager {
    /// A manager that answers successive drives with `reports`, front to
    /// back, and with an empty report once they run out.
    pub fn new(reports: Vec<DriveReport>) -> (r: ScriptedTransferManager)
        ensures
            r.reports@ == reports@,
            r.calls@ == Seq::<Vec<PreparedTransfer>>::empty(),
    {
        ScriptedTransferManager { reports, calls: Vec::new() }
    }
}

impl TransferManager for ScriptedTransferManager {
    fn perform_all(&mut self, transfers: Vec<PreparedTransfer>) -> DriveReport {
        self.calls.push(transfers);
        if self.reports.len() > 0 {
            self.reports.remove(0)
        } else {
            DriveReport { outcomes: Vec::new(), elapsed_ms: 0 }
        }
    }
}

} // verus!
