//! The per-thread cache of superversions.

use vstd::prelude::*;

verus! {

/// How many superversions a thread caches unless told otherwise.
pub const DEFAULT_SV_CACHE_SIZE: usize = 4;

/// A thread's cache of up to `N` superversions.
#[derive(Debug)]
pub struct SVCache<const N: usize> {
    pub cache: Option<()>,
}

impl SVCache<DEFAULT_SV_CACHE_SIZE> {
    /// An empty cache of the default size.
    pub fn new() -> (cache: Self)
        ensures
            cache.cache is None,
    {
        SVCache { cache: None }
    }
}

impl<const N: usize> SVCache<N> {
    /// An empty cache for `N` superversions.
    pub fn new_with_size() -> (cache: Self)
        ensures
            cache.cache is None,
    {
        SVCache { cache: None }
    }
}

} // verus!
