//! The storage sinks that decoded entries are written into.
//!
//! The two store traits mirror the stores a user of this library brings: a
//! delta store taking `add(delta, metadata)` and a history store taking
//! `add_entry(entry)`. Their contracts say that a successful add appends the
//! value — and, for deltas, the metadata handed along with it — to the
//! store's contents; the in-memory stores here implement them, verified,
//! and any failure of a user's store surfaces as a storage error.

use vstd::prelude::*;
use crate::errors::ApiError;
use crate::keys::{spec_valid_entry, validate_entry, Key, KeyView};
use crate::proto::{DataEntryView, DataResponse, HistoryEntry, HistoryEntryView};
use crate::wire::seq_view;
use crate::driver::copy_bytes;

verus! {

/// What a delta store records about one object besides its content.
#[derive(Clone, Copy)]
pub struct StoreMetadata {
    pub size: Option<u64>,
    pub flags: Option<u64>,
}

/// One object handed to a delta store: its full content, an optional base
/// key it is a delta against (never set by this client), and its own key.
pub struct Delta {
    pub data: Vec<u8>,
    pub base: Option<Key>,
    pub key: Key,
}

#[verifier::ext_equal]
pub ghost struct DeltaView {
    pub data: Seq<u8>,
    pub base: Option<KeyView>,
    pub key: KeyView,
}

impl View for Delta {
    type V = DeltaView;

    open spec fn view(&self) -> DeltaView {
        DeltaView {
            data: self.data@,
            base: match self.base {
                None => None,
                Some(ref k) => Some(k@),
            },
            key: self.key@,
        }
    }
}

/// A store of object contents, written one delta at a time; its contents
/// are the deltas written so far, each with the metadata it was written
/// under.
pub trait DeltaStore {
    spec fn view(&self) -> Seq<(DeltaView, StoreMetadata)>;

    fn add(&mut self, delta: &Delta, metadata: &StoreMetadata) -> (r: Result<(), String>)
        ensures
            r is Ok ==> final(self).view() == old(self).view().push((delta@, *metadata)),
            r is Err ==> final(self).view() == old(self).view(),
    ;
}

/// A store of history entries, written one entry at a time.
pub trait HistoryStore {
    spec fn view(&self) -> Seq<HistoryEntryView>;

    fn add_entry(&mut self, entry: &HistoryEntry) -> (r: Result<(), String>)
        ensures
            r is Ok ==> final(self).view() == old(self).view().push(entry@),
            r is Err ==> final(self).view() == old(self).view(),
    ;
}

/// An in-memory delta store.
pub struct MemDeltaStore {
    pub deltas: Vec<(Delta, StoreMetadata)>,
}

impl MemDeltaStore {
    pub fn new() -> (r: MemDeltaStore)
        ensures
            r.view() == Seq::<(DeltaView, StoreMetadata)>::empty(),
    {
        let r = MemDeltaStore { deltas: Vec::new() };
        proof {
            assert(mem_delta_view(r.deltas@) =~= Seq::<(DeltaView, StoreMetadata)>::empty());
        }
        r
    }
}

/// The contents an in-memory delta store denotes.
pub open spec fn mem_delta_view(rows: Seq<(Delta, StoreMetadata)>) -> Seq<(DeltaView, StoreMetadata)> {
    rows.map_values(|row: (Delta, StoreMetadata)| (row.0@, row.1))
}

impl DeltaStore for MemDeltaStore {
    open spec fn view(&self) -> Seq<(DeltaView, StoreMetadata)> {
        mem_delta_view(self.deltas@)
    }

    fn add(&mut self, delta: &Delta, metadata: &StoreMetadata) -> (r: Result<(), String>)
        ensures
            r is Ok,
    {
        let copy = Delta {
            data: copy_bytes(&delta.data),
            base: match &delta.base {
                None => None,
                Some(k) => Some(Key { path: copy_bytes(&k.path), node: copy_bytes(&k.node) }),
            },
            key: Key { path: copy_bytes(&delta.key.path), node: copy_bytes(&delta.key.node) },
        };
        proof {
            assert(copy@ == delta@);
        }
        self.deltas.push((copy, *metadata));
        proof {
            assert(mem_delta_view(self.deltas@) =~= mem_delta_view(old(self).deltas@).push(
                (delta@, *metadata),
            ));
        }
        Ok(())
    }
}

/// An in-memory history store.
pub struct MemHistoryStore {
    pub entries: Vec<HistoryEntry>,
}

impl MemHistoryStore {
    pub fn new() -> (r: MemHistoryStore)
        ensures
            r.view() == Seq::<HistoryEntryView>::empty(),
    {
        let r = MemHistoryStore { entries: Vec::new() };
        proof {
            assert(seq_view(r.entries@) =~= Seq::<HistoryEntryView>::empty());
        }
        r
    }
}

impl HistoryStore for MemHistoryStore {
    open spec fn view(&self) -> Seq<HistoryEntryView> {
        seq_view(self.entries@)
    }

    fn add_entry(&mut self, entry: &HistoryEntry) -> (r: Result<(), String>)
        ensures
            r is Ok,
    {
        let copy = HistoryEntry {
            path: copy_bytes(&entry.path),
            node: copy_bytes(&entry.node),
            p1: copy_bytes(&entry.p1),
            p2: copy_bytes(&entry.p2),
            linknode: copy_bytes(&entry.linknode),
        };
        proof {
            assert(copy@ == entry@);
        }
        self.entries.push(copy);
        proof {
            assert(seq_view(self.entries@) =~= seq_view(old(self).entries@).push(entry@));
        }
        Ok(())
    }
}

// ---------------------------------------------------------------------------
// Writing decoded data entries into a delta store.
// ---------------------------------------------------------------------------

/// The delta a decoded entry becomes: its content under its own key, with
/// no base.
pub open spec fn delta_of(e: DataEntryView) -> DeltaView {
    DeltaView { data: e.data, base: None, key: e.key }
}

/// The metadata a decoded entry is written under: the content's size, no
/// flags.
pub open spec fn meta_of(e: DataEntryView) -> StoreMetadata {
    StoreMetadata { size: Some(e.data.len() as u64), flags: None }
}

/// What a batch of decoded entries adds to a delta store, in order.
pub open spec fn rows_of(entries: Seq<DataEntryView>) -> Seq<(DeltaView, StoreMetadata)> {
    entries.map_values(|e: DataEntryView| (delta_of(e), meta_of(e)))
}

/// Writes one object: the delta is the content under its key, the metadata
/// records the content's size and carries no flags; a store failure comes
/// back as a storage error.
pub fn add_delta<S: DeltaStore>(store: &mut S, key: Key, data: Vec<u8>) -> (r: Result<
    (),
    ApiError,
>)
    ensures
        r is Ok ==> final(store).view() == old(store).view().push(
            (
                DeltaView { data: data@, base: None, key: key@ },
                StoreMetadata { size: Some(data@.len() as u64), flags: None },
            ),
        ),
        r matches Err(e) ==> final(store).view() == old(store).view() && e is Storage,
{
    let metadata = StoreMetadata { size: Some(data.len() as u64), flags: None };
    let delta = Delta { data, base: None, key };
    match store.add(&delta, &metadata) {
        Ok(()) => Ok(()),
        Err(msg) => Err(ApiError::Storage { msg }),
    }
}

/// Writes every entry of one decoded response into the store, validating
/// each entry's content against its key first when asked to.
///
/// On success the store grew by exactly the response's entries, as deltas
/// under size metadata, in order. On failure exactly the entries before the
/// failing one were written and nothing else; a validation failure names
/// the offending key's path. Nothing already in the store is ever touched.
pub fn add_data_response<S: DeltaStore>(store: &mut S, response: DataResponse, validate: bool) -> (
    r: Result<(), ApiError>)
    ensures
        r is Ok ==> final(store).view() == old(store).view() + rows_of(response@.entries),
        r is Ok && validate ==> forall|i: int|
            0 <= i < response@.entries.len() ==> spec_valid_entry(
                (#[trigger] response@.entries[i]).key,
                response@.entries[i].data,
            ),
        r matches Err(e) ==> e is Validation || e is Storage,
        r is Err ==> exists|k: int|
            {
                &&& 0 <= k < response@.entries.len()
                &&& final(store).view() == old(store).view() + rows_of(
                    #[trigger] response@.entries.take(k),
                )
                &&& (validate ==> forall|j: int|
                    0 <= j < k ==> spec_valid_entry(
                        (#[trigger] response@.entries[j]).key,
                        response@.entries[j].data,
                    ))
            },
        r matches Err(e) && e is Validation ==> validate && exists|i: int|
            0 <= i < response@.entries.len() && !spec_valid_entry(
                (#[trigger] response@.entries[i]).key,
                response@.entries[i].data,
            ),
        old(store).view().is_prefix_of(final(store).view()),
{
    let n = response.entries.len();
    let mut i: usize = 0;
    proof {
        assert(rows_of(response@.entries.take(0)) =~= Seq::<(DeltaView, StoreMetadata)>::empty());
        assert(old(store).view() + rows_of(response@.entries.take(0)) =~= old(store).view());
    }
    while i < n
        invariant
            n == response@.entries.len(),
            i <= n,
            store.view() == old(store).view() + rows_of(response@.entries.take(i as int)),
            validate ==> forall|j: int|
                0 <= j < i ==> spec_valid_entry(
                    (#[trigger] response@.entries[j]).key,
                    response@.entries[j].data,
                ),
        decreases n - i,
    {
        let entry = &response.entries[i];
        proof {
            assert(entry@ == response@.entries[i as int]);
        }
        if validate {
            if !validate_entry(&entry.key, &entry.data) {
                proof {
                    assert(!spec_valid_entry(
                        response@.entries[i as int].key,
                        response@.entries[i as int].data,
                    ));
                    assert(exists|j: int|
                        0 <= j < response@.entries.len() && !spec_valid_entry(
                            (#[trigger] response@.entries[j]).key,
                            response@.entries[j].data,
                        ));
                    assert(old(store).view().is_prefix_of(store.view())) by {
                        assert(store.view().take(old(store).view().len() as int) =~= old(
                            store,
                        ).view());
                    }
                }
                return Err(ApiError::Validation { path: copy_bytes(&entry.key.path) });
            }
        }
        let key = Key { path: copy_bytes(&entry.key.path), node: copy_bytes(&entry.key.node) };
        let data = copy_bytes(&entry.data);
        let r = add_delta(store, key, data);
        proof {
            assert(response@.entries.take(i + 1) =~= response@.entries.take(i as int).push(
                response@.entries[i as int],
            ));
            assert(rows_of(response@.entries.take(i + 1)) =~= rows_of(
                response@.entries.take(i as int),
            ).push((delta_of(response@.entries[i as int]), meta_of(response@.entries[i as int]))));
        }
        match r {
            Ok(()) => {
                proof {
                    assert(store.view() =~= old(store).view() + rows_of(
                        response@.entries.take(i + 1),
                    ));
                }
            },
            Err(e) => {
                proof {
                    assert(old(store).view().is_prefix_of(store.view())) by {
                        assert(store.view().take(old(store).view().len() as int) =~= old(
                            store,
                        ).view());
                    }
                }
                return Err(e);
            },
        }
        i = i + 1;
    }
    proof {
        assert(response@.entries.take(n as int) =~= response@.entries);
        assert(old(store).view().is_prefix_of(store.view())) by {
            assert(store.view().take(old(store).view().len() as int) =~= old(store).view());
        }
    }
    Ok(())
}

/// Writes one batch of decoded history entries into the store, in order.
///
/// On success the store grew by exactly the batch's entries. On failure the
/// first refused entry stops the work: exactly the entries before it were
/// written, nothing else, and the failure comes back as a storage error.
pub fn add_history_entries<S: HistoryStore>(store: &mut S, entries: Vec<HistoryEntry>) -> (r:
    Result<(), ApiError>)
    ensures
        r is Ok ==> final(store).view() == old(store).view() + seq_view(entries@),
        r matches Err(e) ==> e is Storage,
        r is Err ==> exists|k: int|
            0 <= k < entries@.len() && final(store).view() == old(store).view() + seq_view(
                #[trigger] entries@.take(k),
            ),
        old(store).view().is_prefix_of(final(store).view()),
{
    let n = entries.len();
    let mut i: usize = 0;
    proof {
        assert(seq_view(entries@.take(0)) =~= Seq::<HistoryEntryView>::empty());
        assert(old(store).view() + seq_view(entries@.take(0)) =~= old(store).view());
    }
    while i < n
        invariant
            n == entries@.len(),
            i <= n,
            store.view() == old(store).view() + seq_view(entries@.take(i as int)),
        decreases n - i,
    {
        let entry = &entries[i];
        let r = store.add_entry(entry);
        proof {
            assert(entries@.take(i + 1) =~= entries@.take(i as int).push(entries@[i as int]));
            assert(seq_view(entries@.take(i + 1)) =~= seq_view(entries@.take(i as int)).push(
                entries@[i as int]@,
            ));
        }
        match r {
            Ok(()) => {
                proof {
                    assert(store.view() =~= old(store).view() + seq_view(entries@.take(i + 1)));
                }
            },
            Err(msg) => {
                proof {
                    assert(old(store).view().is_prefix_of(store.view())) by {
                        assert(store.view().take(old(store).view().len() as int) =~= old(
                            store,
                        ).view());
                    }
                }
                return Err(ApiError::Storage { msg });
            },
        }
        i = i + 1;
    }
    proof {
        assert(entries@.take(n as int) =~= entries@);
        assert(old(store).view().is_prefix_of(store.view())) by {
            assert(store.view().take(old(store).view().len() as int) =~= old(store).view());
        }
    }
    Ok(())
}


/// What a sequence of decoded responses adds to a delta store: the rows of
/// each response's entries, responses in completion order.
pub open spec fn rows_of_responses(rs: Seq<crate::proto::DataResponseView>) -> Seq<
    (DeltaView, StoreMetadata),
>
    decreases rs.len(),
{
    if rs.len() == 0 {
        Seq::empty()
    } else {
        rows_of_responses(rs.drop_last()) + rows_of(rs.last().entries)
    }
}

/// Writes every entry of every decoded response of one delivered batch, in
/// order, validating when asked to, stopping at the first failure.
///
/// On success the store grew by exactly the rows of all the responses'
/// entries, in order; on failure the first refused entry stopped the work
/// and the error is the same one `add_data_response` owes for it. Nothing
/// already in the store is ever touched.
pub fn add_data_responses<S: DeltaStore>(
    store: &mut S,
    responses: Vec<DataResponse>,
    validate: bool,
) -> (r: Result<(), ApiError>)
    ensures
        r is Ok ==> final(store).view() == old(store).view() + rows_of_responses(
            seq_view(responses@),
        ),
        r matches Err(e) ==> e is Validation || e is Storage,
        old(store).view().is_prefix_of(final(store).view()),
{
    let ghost orig = seq_view(responses@);
    let n = responses.len();
    let mut responses = responses;
    let mut i: usize = 0;
    proof {
        assert(rows_of_responses(orig.take(0)) =~= Seq::<(DeltaView, StoreMetadata)>::empty());
        assert(old(store).view() + rows_of_responses(orig.take(0)) =~= old(store).view());
        assert(old(store).view().is_prefix_of(old(store).view())) by {
            assert(old(store).view().take(old(store).view().len() as int) =~= old(store).view());
        }
    }
    while responses.len() > 0
        invariant
            orig.len() == n,
            i + responses@.len() == orig.len(),
            seq_view(responses@) == orig.skip(i as int),
            store.view() == old(store).view() + rows_of_responses(orig.take(i as int)),
            old(store).view().is_prefix_of(store.view()),
        decreases responses@.len(),
    {
        let ghost before = responses@;
        let ghost mid = store.view();
        let response = responses.remove(0);
        proof {
            assert(responses@ =~= before.skip(1));
            assert(seq_view(before)[0] == before[0]@);
            assert(response@ == orig[i as int]);
            assert forall|j: int| 0 <= j < responses@.len() implies #[trigger] seq_view(
                responses@,
            )[j] == orig.skip(i + 1)[j] by {
                assert(seq_view(responses@)[j] == responses@[j]@);
                assert(responses@[j] == before[j + 1]);
                assert(before[j + 1]@ == seq_view(before)[j + 1]);
                assert(seq_view(before)[j + 1] == orig.skip(i as int)[j + 1]);
                assert(orig.skip(i as int)[j + 1] == orig[i + 1 + j]);
                assert(orig.skip(i + 1)[j] == orig[i + 1 + j]);
            }
            assert(seq_view(responses@) =~= orig.skip(i + 1));
        }
        let r = add_data_response(store, response, validate);
        proof {
            assert(orig.take(i + 1).drop_last() =~= orig.take(i as int));
            assert(orig.take(i + 1).last() == orig[i as int]);
        }
        match r {
            Ok(()) => {
                proof {
                    assert(store.view() =~= old(store).view() + rows_of_responses(
                        orig.take(i + 1),
                    ));
                    lemma_prefix_trans(old(store).view(), mid, store.view());
                }
            },
            Err(e) => {
                proof {
                    lemma_prefix_trans(old(store).view(), mid, store.view());
                }
                return Err(e);
            },
        }
        i = i + 1;
    }
    proof {
        assert(orig.take(orig.len() as int) =~= orig);
    }
    Ok(())
}

/// Prefixes chain: what was a prefix stays one as a store only grows.
pub proof fn lemma_prefix_trans<A>(a: Seq<A>, b: Seq<A>, c: Seq<A>)
    requires
        a.is_prefix_of(b),
        b.is_prefix_of(c),
    ensures
        a.is_prefix_of(c),
{
    assert(c.take(a.len() as int) =~= b.take(a.len() as int));
}

} // verus!
