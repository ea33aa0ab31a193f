//! The message deduplication filter.
//!
//! A bounded, time-windowed set of recently seen message identifiers, used
//! to suppress replay and duplicate processing. The store is
//! `lru_time_cache`'s cache; entries it holds may lapse with time or
//! capacity, so a filter answers "duplicate" only for identifiers it has
//! really seen.

use vstd::prelude::*;

verus! {

#[verifier::external_type_specification]
#[verifier::external_body]
#[verifier::reject_recursive_types(K)]
#[verifier::reject_recursive_types(V)]
/// `lru_time_cache::LruCache`, declared so its values can be carried.
pub struct ExLruCache<K, V>(lru_time_cache::LruCache<K, V>);

/// The set of keys the cache currently stores. Stored entries may be
/// dropped by later operations as they expire or the capacity fills; no
/// operation puts in a key that was not inserted.
pub uninterp spec fn lru_keys(cache: lru_time_cache::LruCache<u64, ()>) -> Set<u64>;

/// The capacity the cache was built with; inserting into a cache of
/// capacity zero would panic while it evicts down to its bound.
pub uninterp spec fn lru_capacity(cache: lru_time_cache::LruCache<u64, ()>) -> nat;

/// Relies on `LruCache::with_expiry_duration_and_capacity`: a fresh cache
/// stores nothing and keeps the capacity it was built with.
#[verifier::external_body]
fn cache_new(time_to_live_ms: u64, capacity: usize) -> (r: lru_time_cache::LruCache<u64, ()>)
    ensures
        lru_keys(r) == Set::<u64>::empty(),
        lru_capacity(r) == capacity,
{
    lru_time_cache::LruCache::with_expiry_duration_and_capacity(
        std::time::Duration::from_millis(time_to_live_ms),
        capacity,
    )
}

/// Relies on `LruCache::insert`: afterwards the key is stored, and nothing
/// is stored that was not stored before or just inserted (expired entries
/// are evicted, none added). A cache of capacity zero is excluded: evicting
/// down to its bound would drain more entries than its list holds.
#[verifier::external_body]
fn cache_insert(cache: &mut lru_time_cache::LruCache<u64, ()>, key: u64)
    requires
        lru_capacity(*old(cache)) >= 1,
    ensures
        lru_keys(*final(cache)).contains(key),
        lru_keys(*final(cache)).subset_of(lru_keys(*old(cache)).insert(key)),
        lru_capacity(*final(cache)) == lru_capacity(*old(cache)),
{
    let _ = cache.insert(key, ());
}

/// Relies on `LruCache::contains_key`: it answers true only for a key the
/// cache stores (a stored but expired key may answer false).
#[verifier::external_body]
fn cache_contains(cache: &lru_time_cache::LruCache<u64, ()>, key: u64) -> (r: bool)
    ensures
        r ==> lru_keys(*cache).contains(key),
{
    cache.contains_key(&key)
}

/// A bounded, time-windowed filter of recently seen message identifiers.
pub struct MessageFilter {
    /// The bounded, expiring store of identifiers.
    cache: lru_time_cache::LruCache<u64, ()>,
    /// Every identifier ever inserted into this filter.
    seen: Ghost<Set<u64>>,
}

impl MessageFilter {
    /// The filter never stores an identifier it was not given, and its
    /// store holds at least one slot.
    pub closed spec fn wf(self) -> bool {
        lru_keys(self.cache).subset_of(self.seen@) && lru_capacity(self.cache) >= 1
    }

    /// All identifiers this filter was ever given.
    pub closed spec fn spec_seen(self) -> Set<u64> {
        self.seen@
    }

    /// A filter that forgets identifiers after `time_to_live_ms`
    /// milliseconds or beyond `capacity` entries, whichever comes first.
    pub fn new(time_to_live_ms: u64, capacity: usize) -> (r: MessageFilter)
        requires
            capacity >= 1,
        ensures
            r.wf(),
            r.spec_seen() == Set::<u64>::empty(),
    {
        MessageFilter { cache: cache_new(time_to_live_ms, capacity), seen: Ghost(Set::empty()) }
    }

    /// Records `msg_id` and reports whether it is a duplicate. A true
    /// answer is reliable: the identifier was inserted before. A false
    /// answer may miss an identifier the window already dropped, which
    /// costs a reprocessing, never a wrong suppression.
    pub fn check_and_insert(&mut self, msg_id: u64) -> (dup: bool)
        requires
            old(self).wf(),
        ensures
            final(self).wf(),
            dup ==> old(self).spec_seen().contains(msg_id),
            final(self).spec_seen() == old(self).spec_seen().insert(msg_id),
    {
        let dup = cache_contains(&self.cache, msg_id);
        cache_insert(&mut self.cache, msg_id);
        self.seen = Ghost(self.seen@.insert(msg_id));
        dup
    }
}

} // verus!
