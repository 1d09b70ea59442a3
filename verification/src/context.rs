//! The request context handed through store operations: the part read by
//! this crate's logic is the optional sampling key that marks a request
//! whose store operations should be sampled.

use vstd::prelude::*;

verus! {

/// Marks the requests whose store operations a sampler is interested in.
#[derive(Clone, Copy, PartialEq, Eq, Structural)]
pub struct SamplingKey {
    pub id: u64,
}

impl SamplingKey {
    pub fn new(id: u64) -> (r: SamplingKey)
        ensures
            r.id == id,
    {
        SamplingKey { id }
    }
}

/// A request's context, as far as store operations read it.
#[derive(Clone, Copy)]
pub struct CoreContext {
    pub sampling_key: Option<SamplingKey>,
}

impl CoreContext {
    /// A context carrying no sampling key.
    pub fn test_mock() -> (r: CoreContext)
        ensures
            r.sampling_key is None,
    {
        CoreContext { sampling_key: None }
    }

    /// This context, marked for sampling under the given key.
    pub fn clone_and_sample(&self, key: SamplingKey) -> (r: CoreContext)
        ensures
            r.sampling_key == Some(key),
    {
        CoreContext { sampling_key: Some(key) }
    }

    pub fn sampling_key(&self) -> (r: Option<SamplingKey>)
        ensures
            r == self.sampling_key,
    {
        self.sampling_key
    }
}

} // verus!
