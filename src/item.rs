use vstd::prelude::*;

verus! {

/// A request to cache `data` under `key` for `ttl` seconds.
#[derive(Clone)]
pub struct CacheItem {
    pub key: String,
    pub data: String,
    pub ttl: u64,
}

} // verus!
