//! A narrow blob-store interface and the layers composed over it.
//!
//! Orthogonal concerns — sampling for corpus generation, key prefixing,
//! content censorship — are layered over the narrow `get`/`put`/`is_present`
//! interface by wrapping one store in another, never by inheritance. Each
//! layer's contract says exactly what it adds over the store it wraps.

use vstd::prelude::*;
use vstd::string::StringExecFns;
use vstd::string::StrSliceExecFns;
use crate::context::CoreContext;
use crate::driver::copy_bytes;
use crate::wire::lemma_concat_skip;

verus! {

/// The narrow store interface: a mutable map from string keys to byte
/// blobs. `get` and `is_present` leave the contents untouched; a successful
/// `put` inserts its value. The operations take the whole store mutably so
/// that wrapping layers may record what passes through them.
pub trait Blobstore {
    spec fn view(&self) -> Map<Seq<char>, Seq<u8>>;

    fn get(&mut self, ctx: CoreContext, key: String) -> (r: Result<Option<Vec<u8>>, String>)
        ensures
            final(self).view() == old(self).view(),
            r matches Ok(Some(v)) ==> old(self).view().contains_key(key@) && v@ == old(
                self,
            ).view()[key@],
            r matches Ok(o) && o is None ==> !old(self).view().contains_key(key@),
    ;

    fn put(&mut self, ctx: CoreContext, key: String, value: Vec<u8>) -> (r: Result<(), String>)
        ensures
            r is Ok ==> final(self).view() == old(self).view().insert(key@, value@),
    ;

    fn is_present(&mut self, ctx: CoreContext, key: String) -> (r: Result<bool, String>)
        ensures
            final(self).view() == old(self).view(),
            r matches Ok(b) ==> b == old(self).view().contains_key(key@),
    ;
}

// ---------------------------------------------------------------------------
// The in-memory store at the bottom of a stack of layers.
// ---------------------------------------------------------------------------

/// The map a list of writes denotes: later writes to a key win.
pub open spec fn entries_map(s: Seq<(String, Vec<u8>)>) -> Map<Seq<char>, Seq<u8>>
    decreases s.len(),
{
    if s.len() == 0 {
        Map::empty()
    } else {
        entries_map(s.drop_last()).insert(s.last().0@, s.last().1@)
    }
}

/// An in-memory blob store: the recorded writes, in order.
pub struct MemBlob {
    pub entries: Vec<(String, Vec<u8>)>,
}

impl MemBlob {
    pub fn new() -> (r: MemBlob)
        ensures
            r.view() == Map::<Seq<char>, Seq<u8>>::empty(),
    {
        MemBlob { entries: Vec::new() }
    }
}

impl Blobstore for MemBlob {
    open spec fn view(&self) -> Map<Seq<char>, Seq<u8>> {
        entries_map(self.entries@)
    }

    fn get(&mut self, _ctx: CoreContext, key: String) -> (r: Result<Option<Vec<u8>>, String>)
        ensures
            r is Ok,
    {
        let ghost s = self.entries@;
        let mut i: usize = self.entries.len();
        proof {
            assert(s.take(s.len() as int) =~= s);
        }
        while i > 0
            invariant
                self.entries@ == s,
                s == old(self).entries@,
                i <= s.len(),
                entries_map(s).contains_key(key@) == entries_map(s.take(i as int)).contains_key(
                    key@,
                ),
                entries_map(s).contains_key(key@) ==> entries_map(s)[key@] == entries_map(
                    s.take(i as int),
                )[key@],
            decreases i,
        {
            i = i - 1;
            let hit = self.entries[i].0 == key;
            proof {
                assert(s.take(i + 1).drop_last() =~= s.take(i as int));
                assert(s.take(i + 1).last() == s[i as int]);
            }
            if hit {
                let v = copy_bytes(&self.entries[i].1);
                return Ok(Some(v));
            }
        }
        proof {
            assert(s.take(0) =~= Seq::<(String, Vec<u8>)>::empty());
        }
        Ok(None)
    }

    fn put(&mut self, _ctx: CoreContext, key: String, value: Vec<u8>) -> (r: Result<(), String>)
        ensures
            r is Ok,
    {
        let ghost k = key@;
        let ghost v = value@;
        self.entries.push((key, value));
        proof {
            assert(self.entries@.drop_last() =~= old(self).entries@);
            assert(self.entries@.last().0@ == k && self.entries@.last().1@ == v);
        }
        Ok(())
    }

    fn is_present(&mut self, _ctx: CoreContext, key: String) -> (r: Result<bool, String>)
        ensures
            r is Ok,
    {
        let ghost s = self.entries@;
        let mut i: usize = self.entries.len();
        proof {
            assert(s.take(s.len() as int) =~= s);
        }
        while i > 0
            invariant
                self.entries@ == s,
                s == old(self).entries@,
                i <= s.len(),
                entries_map(s).contains_key(key@) == entries_map(s.take(i as int)).contains_key(
                    key@,
                ),
            decreases i,
        {
            i = i - 1;
            let hit = self.entries[i].0 == key;
            proof {
                assert(s.take(i + 1).drop_last() =~= s.take(i as int));
                assert(s.take(i + 1).last() == s[i as int]);
            }
            if hit {
                return Ok(true);
            }
        }
        proof {
            assert(s.take(0) =~= Seq::<(String, Vec<u8>)>::empty());
        }
        Ok(false)
    }
}

// ---------------------------------------------------------------------------
// Sampling: a layer that shows every operation to a handler, e.g. for
// corpus generation, before handing the result through unchanged.
// ---------------------------------------------------------------------------

/// One store operation as a handler saw it: the context and key, and —
/// depending on the kind of operation — the value read, the value written,
/// or the presence answer.
#[verifier::ext_equal]
pub ghost struct SampleEvent {
    pub ctx: CoreContext,
    pub key: Seq<char>,
    pub read: Option<Option<Seq<u8>>>,
    pub written: Option<Seq<u8>>,
    pub present: Option<bool>,
}

/// A read shown to a handler, carrying the value found, if any.
pub open spec fn get_event(ctx: CoreContext, key: Seq<char>, value: Option<Seq<u8>>) -> SampleEvent {
    SampleEvent { ctx, key, read: Some(value), written: None, present: None }
}

/// A write shown to a handler, carrying the value written.
pub open spec fn put_event(ctx: CoreContext, key: Seq<char>, value: Seq<u8>) -> SampleEvent {
    SampleEvent { ctx, key, read: None, written: Some(value), present: None }
}

/// A presence check shown to a handler, carrying the answer.
pub open spec fn present_event(ctx: CoreContext, key: Seq<char>, value: bool) -> SampleEvent {
    SampleEvent { ctx, key, read: None, written: None, present: Some(value) }
}

/// The contents of an optional borrowed value.
pub open spec fn opt_ref_view(v: Option<&Vec<u8>>) -> Option<Seq<u8>> {
    match v {
        None => None,
        Some(b) => Some(b@),
    }
}

/// The contents of an optional owned value.
pub open spec fn opt_view(v: Option<Vec<u8>>) -> Option<Seq<u8>> {
    match v {
        None => None,
        Some(b) => Some(b@),
    }
}

/// Sees every store operation that passes the sampling layer; each call
/// appends the operation to what the handler has seen. A handler error
/// fails the operation it sampled.
pub trait SamplingHandler {
    spec fn seen(&self) -> Seq<SampleEvent>;

    fn sample_get(&mut self, ctx: CoreContext, key: &String, value: Option<&Vec<u8>>) -> (r:
        Result<(), String>)
        ensures
            final(self).seen() == old(self).seen().push(get_event(ctx, key@, opt_ref_view(value))),
    ;

    fn sample_put(&mut self, ctx: &CoreContext, key: &String, value: &Vec<u8>) -> (r: Result<
        (),
        String,
    >)
        ensures
            final(self).seen() == old(self).seen().push(put_event(*ctx, key@, value@)),
    ;

    fn sample_is_present(&mut self, ctx: CoreContext, key: String, value: bool) -> (r: Result<
        (),
        String,
    >)
        ensures
            final(self).seen() == old(self).seen().push(present_event(ctx, key@, value)),
    ;
}

/// A layer over an existing blobstore that allows sampling of blobs.
pub struct SamplingBlobstore<T, H> {
    pub inner: T,
    pub handler: H,
}

impl<T, H> SamplingBlobstore<T, H> {
    pub fn new(inner: T, handler: H) -> (r: SamplingBlobstore<T, H>)
        ensures
            r.inner == inner,
            r.handler == handler,
    {
        SamplingBlobstore { inner, handler }
    }
}

impl<T: Blobstore, H: SamplingHandler> Blobstore for SamplingBlobstore<T, H> {
    open spec fn view(&self) -> Map<Seq<char>, Seq<u8>> {
        self.inner.view()
    }

    fn get(&mut self, ctx: CoreContext, key: String) -> (r: Result<Option<Vec<u8>>, String>)
        ensures
            r matches Ok(opt) ==> final(self).handler.seen() == old(self).handler.seen().push(
                get_event(ctx, key@, opt_view(opt)),
            ),
            r is Err ==> final(self).handler.seen() == old(self).handler.seen() || exists|
                v: Option<Seq<u8>>,
            |
                final(self).handler.seen() == old(self).handler.seen().push(
                    #[trigger] get_event(ctx, key@, v),
                ),
    {
        match self.inner.get(ctx, key.clone()) {
            Err(e) => Err(e),
            Ok(opt) => {
                let opt_ref = opt.as_ref();
                let sampled = self.handler.sample_get(ctx, &key, opt_ref);
                proof {
                    assert(opt_ref_view(opt_ref) == opt_view(opt));
                }
                match sampled {
                    Err(e) => Err(e),
                    Ok(()) => Ok(opt),
                }
            },
        }
    }

    fn put(&mut self, ctx: CoreContext, key: String, value: Vec<u8>) -> (r: Result<(), String>)
        ensures
            final(self).handler.seen() == old(self).handler.seen().push(
                put_event(ctx, key@, value@),
            ),
    {
        let sample_res = self.handler.sample_put(&ctx, &key, &value);
        match self.inner.put(ctx, key, value) {
            Err(e) => Err(e),
            Ok(()) => sample_res,
        }
    }

    fn is_present(&mut self, ctx: CoreContext, key: String) -> (r: Result<bool, String>)
        ensures
            r matches Ok(b) ==> final(self).handler.seen() == old(self).handler.seen().push(
                present_event(ctx, key@, b),
            ),
            r is Err ==> final(self).handler.seen() == old(self).handler.seen() || exists|b: bool|
                final(self).handler.seen() == old(self).handler.seen().push(
                    #[trigger] present_event(ctx, key@, b),
                ),
    {
        match self.inner.is_present(ctx, key.clone()) {
            Err(e) => Err(e),
            Ok(present) => match self.handler.sample_is_present(ctx, key, present) {
                Err(e) => Err(e),
                Ok(()) => Ok(present),
            },
        }
    }
}

/// A handler that watches for one sampling key and remembers whether any
/// operation carried it; its log holds everything it was shown.
pub struct RecordingHandler {
    pub looking_for: crate::context::SamplingKey,
    pub sampled: bool,
    pub log: Ghost<Seq<SampleEvent>>,
}

impl RecordingHandler {
    pub fn new(looking_for: crate::context::SamplingKey) -> (r: RecordingHandler)
        ensures
            r.looking_for == looking_for,
            !r.sampled,
            r.seen() == Seq::<SampleEvent>::empty(),
    {
        RecordingHandler { looking_for, sampled: false, log: Ghost(Seq::empty()) }
    }

    /// Remembers the sighting when the context carries the watched key.
    pub fn check_sample(&mut self, ctx: &CoreContext) -> (r: Result<(), String>)
        ensures
            r is Ok,
            final(self).looking_for == old(self).looking_for,
            final(self).log == old(self).log,
            final(self).sampled == (old(self).sampled || ctx.sampling_key == Some(
                old(self).looking_for,
            )),
    {
        match ctx.sampling_key {
            Some(k) => {
                if k == self.looking_for {
                    self.sampled = true;
                }
            },
            None => {},
        }
        Ok(())
    }
}

impl SamplingHandler for RecordingHandler {
    open spec fn seen(&self) -> Seq<SampleEvent> {
        self.log@
    }

    fn sample_get(&mut self, ctx: CoreContext, key: &String, value: Option<&Vec<u8>>) -> Result<
        (),
        String,
    > {
        self.log = Ghost(self.log@.push(get_event(ctx, key@, opt_ref_view(value))));
        self.check_sample(&ctx)
    }

    fn sample_put(&mut self, ctx: &CoreContext, key: &String, value: &Vec<u8>) -> Result<
        (),
        String,
    > {
        self.log = Ghost(self.log@.push(put_event(*ctx, key@, value@)));
        self.check_sample(ctx)
    }

    fn sample_is_present(&mut self, ctx: CoreContext, key: String, value: bool) -> Result<
        (),
        String,
    > {
        self.log = Ghost(self.log@.push(present_event(ctx, key@, value)));
        self.check_sample(&ctx)
    }
}

// ---------------------------------------------------------------------------
// Prefixing: a layer that stores every key under a fixed prefix.
// ---------------------------------------------------------------------------

/// Appending to a common prefix is injective in what was appended.
pub proof fn lemma_append_cancel(a: Seq<char>, b: Seq<char>, c: Seq<char>)
    requires
        a + b == a + c,
    ensures
        b == c,
{
    lemma_concat_skip(a, b);
    lemma_concat_skip(a, c);
}

/// A layer that prepends a fixed prefix to every key before handing the
/// operation to the store it wraps: its contents are the wrapped store's
/// contents under the prefixed keys.
pub struct PrefixBlobstore<T> {
    pub inner: T,
    pub prefix: String,
}

impl<T> PrefixBlobstore<T> {
    pub fn new(inner: T, prefix: String) -> (r: PrefixBlobstore<T>)
        ensures
            r.inner == inner,
            r.prefix@ == prefix@,
    {
        PrefixBlobstore { inner, prefix }
    }
}

impl<T: Blobstore> Blobstore for PrefixBlobstore<T> {
    open spec fn view(&self) -> Map<Seq<char>, Seq<u8>> {
        Map::new(
            |k: Seq<char>| self.inner.view().contains_key(self.prefix@ + k),
            |k: Seq<char>| self.inner.view()[self.prefix@ + k],
        )
    }

    fn get(&mut self, ctx: CoreContext, key: String) -> (r: Result<Option<Vec<u8>>, String>) {
        let mut full = self.prefix.clone();
        full.append(key.as_str());
        let r = self.inner.get(ctx, full);
        proof {
            assert(self.view() =~= old(self).view());
        }
        r
    }

    fn put(&mut self, ctx: CoreContext, key: String, value: Vec<u8>) -> (r: Result<(), String>) {
        let ghost k = key@;
        let ghost v = value@;
        let ghost p = self.prefix@;
        let ghost old_view = self.view();
        let mut full = self.prefix.clone();
        full.append(key.as_str());
        let r = self.inner.put(ctx, full, value);
        proof {
            if r is Ok {
                let m1 = self.view();
                let m2 = old_view.insert(k, v);
                assert forall|q: Seq<char>|
                    #[trigger] m1.contains_key(q) == m2.contains_key(q) by {
                    if p + q == p + k {
                        lemma_append_cancel(p, q, k);
                    }
                }
                assert forall|q: Seq<char>| m1.contains_key(q) implies #[trigger] m1[q]
                    == m2[q] by {
                    if p + q == p + k {
                        lemma_append_cancel(p, q, k);
                    }
                }
                assert(m1 =~= m2);
            }
        }
        r
    }

    fn is_present(&mut self, ctx: CoreContext, key: String) -> (r: Result<bool, String>) {
        let mut full = self.prefix.clone();
        full.append(key.as_str());
        let r = self.inner.is_present(ctx, full);
        proof {
            assert(self.view() =~= old(self).view());
        }
        r
    }
}

// ---------------------------------------------------------------------------
// Censorship: a layer that refuses to serve the keys on a censor list.
// ---------------------------------------------------------------------------

/// A layer that refuses reads of censored keys and hands everything else to
/// the store it wraps. The censor list pairs each censored key with the
/// identifier of the decision that censored it.
pub struct CensoredBlob<T> {
    pub inner: T,
    pub censored: Option<Vec<(String, String)>>,
}

impl<T> CensoredBlob<T> {
    pub fn new(inner: T, censored: Option<Vec<(String, String)>>) -> (r: CensoredBlob<T>)
        ensures
            r.inner == inner,
            r.censored == censored,
    {
        CensoredBlob { inner, censored }
    }

    /// Whether this layer refuses to serve `key`.
    pub open spec fn spec_censored(&self, key: Seq<char>) -> bool {
        match self.censored {
            None => false,
            Some(list) => exists|i: int| 0 <= i < list@.len() && (#[trigger] list@[i]).0@ == key,
        }
    }

    /// True exactly when the key stands on the censor list.
    pub fn is_censored(&self, key: &String) -> (r: bool)
        ensures
            r == self.spec_censored(key@),
    {
        censored_contains(&self.censored, key)
    }
}

impl<T: Blobstore> CensoredBlob<T> {
    /// Serves `get` from the wrapped store, except that a censored key is
    /// refused outright, with the store left untouched.
    pub fn get(&mut self, ctx: CoreContext, key: String) -> (r: Result<Option<Vec<u8>>, String>)
        ensures
            final(self).censored == old(self).censored,
            final(self).inner.view() == old(self).inner.view(),
            old(self).spec_censored(key@) ==> r is Err,
            !old(self).spec_censored(key@) ==> {
                &&& (r matches Ok(Some(v)) ==> old(self).inner.view().contains_key(key@) && v@
                    == old(self).inner.view()[key@])
                &&& (r matches Ok(o) && o is None ==> !old(self).inner.view().contains_key(key@))
            },
    {
        if self.is_censored(&key) {
            return Err(String::from_str("the blob is censored"));
        }
        self.inner.get(ctx, key)
    }
}


/// Whether `key` stands on a censor list.
pub fn censored_contains(censored: &Option<Vec<(String, String)>>, key: &String) -> (r: bool)
    ensures
        r == match *censored {
            None => false,
            Some(list) => exists|i: int| 0 <= i < list@.len() && (#[trigger] list@[i]).0@ == key@,
        },
{
    match censored {
        None => false,
        Some(list) => {
            let mut i: usize = 0;
            while i < list.len()
                invariant
                    *censored matches Some(l) && l@ == list@,
                    i <= list@.len(),
                    forall|j: int| 0 <= j < i ==> (#[trigger] list@[j]).0@ != key@,
                decreases list@.len() - i,
            {
                if list[i].0 == *key {
                    proof {
                        assert(exists|j: int|
                            0 <= j < list@.len() && (#[trigger] list@[j]).0@ == key@);
                    }
                    return true;
                }
                i = i + 1;
            }
            false
        },
    }
}

// ---------------------------------------------------------------------------
// Caching: a layer that remembers what was read from the store it wraps.
// ---------------------------------------------------------------------------

/// Looks one key up in a list of writes, answering as the map the list
/// denotes.
pub fn lookup_entries(entries: &Vec<(String, Vec<u8>)>, key: &String) -> (r: Option<Vec<u8>>)
    ensures
        r matches Some(v) ==> entries_map(entries@).contains_key(key@) && v@ == entries_map(
            entries@,
        )[key@],
        r is None ==> !entries_map(entries@).contains_key(key@),
{
    let ghost s = entries@;
    let mut i: usize = entries.len();
    proof {
        assert(s.take(s.len() as int) =~= s);
    }
    while i > 0
        invariant
            s == entries@,
            i <= s.len(),
            entries_map(s).contains_key(key@) == entries_map(s.take(i as int)).contains_key(key@),
            entries_map(s).contains_key(key@) ==> entries_map(s)[key@] == entries_map(
                s.take(i as int),
            )[key@],
        decreases i,
    {
        i = i - 1;
        let hit = entries[i].0 == *key;
        proof {
            assert(s.take(i + 1).drop_last() =~= s.take(i as int));
            assert(s.take(i + 1).last() == s[i as int]);
        }
        if hit {
            return Some(copy_bytes(&entries[i].1));
        }
    }
    proof {
        assert(s.take(0) =~= Seq::<(String, Vec<u8>)>::empty());
    }
    None
}

/// A read-through cache over a store. The cache only ever holds copies of
/// the wrapped store's current values, so every answer it serves equals the
/// store's own; the cache here lives as long as its owner keeps it.
pub struct CacheBlob<T> {
    pub inner: T,
    pub cache: Vec<(String, Vec<u8>)>,
}

impl<T: Blobstore> CacheBlob<T> {
    /// Every cached value is the wrapped store's current value for its key.
    pub open spec fn inv(&self) -> bool {
        forall|k: Seq<char>|
            #[trigger] entries_map(self.cache@).contains_key(k) ==> self.inner.view().contains_key(
                k,
            ) && entries_map(self.cache@)[k] == self.inner.view()[k]
    }

    /// An empty cache over the given store.
    pub fn new(inner: T) -> (r: CacheBlob<T>)
        ensures
            r.inner == inner,
            entries_map(r.cache@) == Map::<Seq<char>, Seq<u8>>::empty(),
            r.inv(),
    {
        let r = CacheBlob { inner, cache: Vec::new() };
        proof {
            assert(entries_map(r.cache@) =~= Map::<Seq<char>, Seq<u8>>::empty());
        }
        r
    }

    /// Reads through the cache: a hit answers from memory, a miss asks the
    /// wrapped store and remembers a found value.
    pub fn get(&mut self, ctx: CoreContext, key: String) -> (r: Result<Option<Vec<u8>>, String>)
        requires
            old(self).inv(),
        ensures
            final(self).inv(),
            final(self).inner.view() == old(self).inner.view(),
            r matches Ok(Some(v)) ==> old(self).inner.view().contains_key(key@) && v@ == old(
                self,
            ).inner.view()[key@],
            r matches Ok(o) && o is None ==> !old(self).inner.view().contains_key(key@),
    {
        match lookup_entries(&self.cache, &key) {
            Some(v) => Ok(Some(v)),
            None => {
                match self.inner.get(ctx, key.clone()) {
                    Err(e) => Err(e),
                    Ok(None) => Ok(None),
                    Ok(Some(v)) => {
                        let ghost k = key@;
                        let ghost cache_before = self.cache@;
                        let copy = copy_bytes(&v);
                        self.cache.push((key, copy));
                        proof {
                            assert(self.cache@.drop_last() =~= cache_before);
                            assert(self.cache@.last().0@ == k && self.cache@.last().1@ == v@);
                            assert forall|q: Seq<char>|
                                #[trigger] entries_map(self.cache@).contains_key(q) implies self
                                .inner.view().contains_key(q) && entries_map(self.cache@)[q]
                                == self.inner.view()[q] by {
                                if q != k {
                                    assert(entries_map(cache_before).contains_key(q));
                                }
                            }
                        }
                        Ok(Some(v))
                    },
                }
            },
        }
    }

    /// Answers from the cache alone, never consulting the wrapped store; a
    /// value never read through this cache is simply not found.
    pub fn get_cache_only(&mut self, _ctx: CoreContext, key: String) -> (r: Result<
        Option<Vec<u8>>,
        String,
    >)
        requires
            old(self).inv(),
        ensures
            *final(self) == *old(self),
            final(self).inv(),
            r is Ok,
            r matches Ok(Some(v)) ==> entries_map(old(self).cache@).contains_key(key@) && v@
                == old(self).inner.view()[key@] && old(self).inner.view().contains_key(key@),
            r matches Ok(o) && o is None ==> !entries_map(old(self).cache@).contains_key(key@),
    {
        Ok(lookup_entries(&self.cache, &key))
    }

    /// Reads through the cache without remembering anything new.
    pub fn get_no_cache_fill(&mut self, ctx: CoreContext, key: String) -> (r: Result<
        Option<Vec<u8>>,
        String,
    >)
        requires
            old(self).inv(),
        ensures
            final(self).inv(),
            final(self).cache@ == old(self).cache@,
            final(self).inner.view() == old(self).inner.view(),
            r matches Ok(Some(v)) ==> old(self).inner.view().contains_key(key@) && v@ == old(
                self,
            ).inner.view()[key@],
            r matches Ok(o) && o is None ==> !old(self).inner.view().contains_key(key@),
    {
        match lookup_entries(&self.cache, &key) {
            Some(v) => Ok(Some(v)),
            None => self.inner.get(ctx, key),
        }
    }
}

/// Reads one key through a cache in the asked-for mode: from the cache
/// alone, through it without filling, or — any other mode — reading through
/// and remembering. Only the cache-alone mode may miss a key the wrapped
/// store holds.
pub fn get_cache<T: Blobstore>(
    ctx: CoreContext,
    blobstore: &mut CacheBlob<T>,
    key: String,
    mode: String,
) -> (r: Result<Option<Vec<u8>>, String>)
    requires
        old(blobstore).inv(),
    ensures
        final(blobstore).inv(),
        final(blobstore).inner.view() == old(blobstore).inner.view(),
        r matches Ok(Some(v)) ==> old(blobstore).inner.view().contains_key(key@) && v@ == old(
            blobstore,
        ).inner.view()[key@],
        mode@ != "cache-only"@ ==> (r matches Ok(o) && o is None ==> !old(
            blobstore,
        ).inner.view().contains_key(key@)),
{
    let cache_only = String::from_str("cache-only");
    let no_fill = String::from_str("no-fill");
    if mode == cache_only {
        blobstore.get_cache_only(ctx, key)
    } else if mode == no_fill {
        blobstore.get_no_cache_fill(ctx, key)
    } else {
        blobstore.get(ctx, key)
    }
}

// ---------------------------------------------------------------------------
// Reading one blob through the composed layers.
// ---------------------------------------------------------------------------

/// Reads one key through the layers a fetch composes over a bare store:
/// the censor list first, then the repository prefix (unless suppressed),
/// then — when a cache mode is named — a read-through cache in that mode.
/// The read fails on a censored key; otherwise it behaves as a read of the
/// prefixed key against the bare store, except that the cache-alone mode
/// answers from a cache that this call just created, and so finds nothing.
pub fn get_from_sources<T: Blobstore>(
    blobstore: T,
    use_memcache: Option<String>,
    no_prefix: bool,
    key: String,
    ctx: CoreContext,
    censored_blobs: Option<Vec<(String, String)>>,
    repo_prefix: String,
) -> (r: Result<Option<Vec<u8>>, String>)
    ensures
        ({
            let censored = match censored_blobs {
                None => false,
                Some(list) => exists|i: int|
                    0 <= i < list@.len() && (#[trigger] list@[i]).0@ == key@,
            };
            let full = if no_prefix {
                key@
            } else {
                repo_prefix@ + key@
            };
            let cache_only = use_memcache matches Some(m) && m@ == "cache-only"@;
            &&& (censored ==> r is Err)
            &&& (!censored ==> (r matches Ok(Some(v)) ==> blobstore.view().contains_key(full)
                && v@ == blobstore.view()[full]))
            &&& (!censored && !cache_only ==> (r matches Ok(o) && o is None
                ==> !blobstore.view().contains_key(full)))
        }),
{
    if censored_contains(&censored_blobs, &key) {
        return Err(String::from_str("the blob is censored"));
    }
    let prefix = if no_prefix {
        String::new()
    } else {
        repo_prefix
    };
    let mut prefixed = PrefixBlobstore::new(blobstore, prefix);
    proof {
        if no_prefix {
            assert(Seq::<char>::empty() + key@ =~= key@);
        }
    }
    match use_memcache {
        None => prefixed.get(ctx, key),
        Some(mode) => {
            let mut cached = CacheBlob::new(prefixed);
            get_cache(ctx, &mut cached, key, mode)
        },
    }
}

} // verus!