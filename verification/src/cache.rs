//! The executable cache, proved against the transition functions of
//! [`crate::model`].
//!
//! The store is an association vector in insertion order. Lookups and
//! eviction scans are linear in the number of live records, which the
//! capacity bounds.

use vstd::pervasive::cloned;
use vstd::prelude::*;

use crate::entry::{check_expired, make_entry, CacheEntry};
use crate::model::{
    has_key, is_first_oldest, lemma_cleanup_preserves_wf, lemma_first_oldest_unique,
    lemma_index_of_unique, lemma_push_keeps_distinct, lemma_remove_keeps_distinct,
    lemma_unexpired_step, lemma_update_keeps_distinct, sat_add, spec_cleanup,
    spec_clear, spec_get, spec_new, spec_remove, spec_set_with_ttl, spec_unexpired, wf, CacheModel,
};
use crate::stats::{compute_hit_rate_hundredths, compute_memory_size, spec_stats, CacheStats};

verus! {

/// One stored record with its key.
struct Slot<T> {
    key: String,
    entry: CacheEntry<T>,
}

/// A keyed cache with bounded capacity, per-record time-to-live,
/// oldest-by-creation eviction and running hit/miss/eviction counters.
///
/// Time enters as an explicit argument of the `*_at` operations, in
/// whole seconds; the operations without that argument read the wall
/// clock and behave like the `*_at` ones at the second they read.
///
/// Every operation takes the cache by exclusive reference, so each is
/// atomic for its caller: no read can observe a half-finished
/// insert-and-evict sequence. A host that shares one instance among
/// concurrent callers serialises them through a lock around the cache
/// and releases it once the operation's owned result is out.
///
/// A cache constructed with capacity zero is disabled: nothing is ever
/// stored in it.
pub struct Cache<T> {
    store: Vec<Slot<T>>,
    hits: u64,
    misses: u64,
    evictions: u64,
    max_entries: usize,
    default_ttl_seconds: u64,
}

/// How a returned value relates to the one the model returns: absent
/// together, or a clone of it.
pub open spec fn option_cloned<T: Clone>(stored: Option<T>, returned: Option<T>) -> bool {
    match stored {
        Some(v) => returned matches Some(r) && cloned(v, r),
        None => returned is None,
    }
}

/// Counter increment, saturated so that the counters never wrap.
fn sat_inc(c: u64) -> (r: u64)
    ensures
        r == sat_add(c, 1),
{
    if c < u64::MAX {
        c + 1
    } else {
        c
    }
}

/// Counter addition, saturated so that the counters never wrap.
fn sat_add_exec(a: u64, b: u64) -> (r: u64)
    ensures
        r == sat_add(a, b),
{
    if a <= u64::MAX - b {
        a + b
    } else {
        u64::MAX
    }
}

/// The records a sequence of slots stores, as the model sees them.
spec fn slot_pairs<T>(slots: Seq<Slot<T>>) -> Seq<(Seq<char>, CacheEntry<T>)> {
    slots.map_values(|s: Slot<T>| (s.key@, s.entry))
}

impl<T> Cache<T> {
    /// The abstract state this cache implements.
    pub closed spec fn model(self) -> CacheModel<T> {
        CacheModel {
            entries: slot_pairs(self.store@),
            hits: self.hits,
            misses: self.misses,
            evictions: self.evictions,
            max_entries: self.max_entries,
            default_ttl: self.default_ttl_seconds,
        }
    }

    #[verifier::type_invariant]
    spec fn inv(self) -> bool {
        wf(self.model())
    }

    /// Constructs a cache with the given capacity and default
    /// time-to-live in seconds (zero: records never expire by default).
    pub fn new(max_entries: usize, default_ttl_seconds: u64) -> (cache: Self)
        ensures
            cache.model() == spec_new::<T>(max_entries, default_ttl_seconds),
    {
        let cache = Cache {
            store: Vec::new(),
            hits: 0,
            misses: 0,
            evictions: 0,
            max_entries,
            default_ttl_seconds,
        };
        proof {
            assert(cache.model().entries =~= Seq::<(Seq<char>, CacheEntry<T>)>::empty());
            assert(cache.model() =~= spec_new::<T>(max_entries, default_ttl_seconds));
        }
        cache
    }

    /// The position of `key` in the store, if it is present.
    fn find_index(&self, key: &String) -> (found: Option<usize>)
        ensures
            match found {
                Some(i) => {
                    &&& i < self.model().entries.len()
                    &&& self.model().entries[i as int].0 == key@
                    &&& has_key(self.model().entries, key@)
                },
                None => !has_key(self.model().entries, key@),
            },
    {
        let mut i: usize = 0;
        while i < self.store.len()
            invariant
                i <= self.store@.len(),
                forall|j: int| 0 <= j < i ==> self.model().entries[j].0 != key@,
            decreases self.store@.len() - i,
        {
            if self.store[i].key == *key {
                proof {
                    assert(self.store@[i as int].key@ == key@);
                    assert(self.model().entries[i as int].0 == key@);
                    assert(has_key(self.model().entries, key@));
                }
                return Some(i);
            }
            i += 1;
        }
        None
    }

    /// The position of the first record with the minimal creation time:
    /// the one the eviction policy removes.
    fn oldest_slot_index(&self) -> (j: usize)
        requires
            self.model().entries.len() > 0,
        ensures
            j < self.model().entries.len(),
            is_first_oldest(self.model().entries, j as int),
    {
        let mut j: usize = 0;
        let mut oldest: u64 = self.store[0].entry.created_at;
        let mut i: usize = 1;
        while i < self.store.len()
            invariant
                (j as int) < (i as int) <= self.store@.len(),
                self.store@.len() > 0,
                oldest == self.model().entries[j as int].1.created_at,
                forall|t: int|
                    0 <= t < i ==> oldest <= #[trigger] self.model().entries[t].1.created_at,
                forall|t: int|
                    0 <= t < j ==> oldest < #[trigger] self.model().entries[t].1.created_at,
            decreases self.store@.len() - i,
        {
            let c = self.store[i].entry.created_at;
            if c < oldest {
                j = i;
                oldest = c;
            }
            i += 1;
        }
        j
    }

    /// An insertion at time `now` with an optional TTL override in
    /// seconds (the configured default applies when none is given; an
    /// effective TTL of zero means the record never expires). A present
    /// key is overwritten in place with no eviction; a new key on a full
    /// store first evicts the first record with the minimal creation
    /// time, counting one eviction. A capacity-zero cache stores
    /// nothing.
    pub fn set_with_ttl_at(&mut self, key: String, value: T, ttl_seconds: Option<u64>, now: u64)
        ensures
            final(self).model() == spec_set_with_ttl(
                old(self).model(),
                key@,
                value,
                ttl_seconds,
                now,
            ),
    {
        proof {
            use_type_invariant(&*self);
        }
        let ghost pre = self.model();
        if self.max_entries == 0 {
            proof {
                assert(self.model() =~= spec_set_with_ttl(pre, key@, value, ttl_seconds, now));
            }
            return ;
        }
        let ttl = match ttl_seconds {
            Some(t) => t,
            None => self.default_ttl_seconds,
        };
        let found = self.find_index(&key);
        let entry = make_entry(value, now, ttl);
        let ghost pair = (key@, entry);
        match found {
            Some(i) => {
                proof {
                    lemma_index_of_unique(pre.entries, key@, i as int);
                    lemma_update_keeps_distinct(pre.entries, i as int, pair);
                }
                let mut store: Vec<Slot<T>> = Vec::new();
                core::mem::swap(&mut store, &mut self.store);
                let _old_slot = store.remove(i);
                let new_slot = Slot { key, entry };
                let ghost new_slot_spec = new_slot;
                store.insert(i, new_slot);
                proof {
                    old(self).store@.remove_ensures(i as int);
                    old(self).store@.remove(i as int).insert_ensures(i as int, new_slot_spec);
                    assert(slot_pairs(store@) =~= pre.entries.update(i as int, pair));
                }
                self.store = store;
            },
            None => {
                if self.store.len() >= self.max_entries {
                    let j = self.oldest_slot_index();
                    proof {
                        lemma_first_oldest_unique(pre.entries, j as int);
                        lemma_remove_keeps_distinct(pre.entries, j as int);
                        lemma_push_keeps_distinct(pre.entries.remove(j as int), pair);
                    }
                    let mut store: Vec<Slot<T>> = Vec::new();
                    core::mem::swap(&mut store, &mut self.store);
                    let _evicted = store.remove(j);
                    store.push(Slot { key, entry });
                    proof {
                        old(self).store@.remove_ensures(j as int);
                        pre.entries.remove_ensures(j as int);
                        assert(slot_pairs(store@) =~= pre.entries.remove(j as int).push(pair));
                    }
                    self.store = store;
                    self.evictions = sat_inc(self.evictions);
                } else {
                    proof {
                        lemma_push_keeps_distinct(pre.entries, pair);
                    }
                    let mut store: Vec<Slot<T>> = Vec::new();
                    core::mem::swap(&mut store, &mut self.store);
                    store.push(Slot { key, entry });
                    proof {
                        assert(slot_pairs(store@) =~= pre.entries.push(pair));
                    }
                    self.store = store;
                }
            },
        }
        proof {
            assert(self.model() =~= spec_set_with_ttl(pre, key@, value, ttl_seconds, now));
        }
    }

    /// An insertion at time `now` with the configured default TTL.
    pub fn set_at(&mut self, key: String, value: T, now: u64)
        ensures
            final(self).model() == spec_set_with_ttl(old(self).model(), key@, value, None, now),
    {
        self.set_with_ttl_at(key, value, None, now)
    }

    /// Deletes the record under `key`, if any, and returns its value.
    /// No counter moves.
    pub fn remove(&mut self, key: &str) -> (result: Option<T>)
        ensures
            final(self).model() == spec_remove(old(self).model(), key@).0,
            result == spec_remove(old(self).model(), key@).1,
    {
        proof {
            use_type_invariant(&*self);
        }
        let ghost pre = self.model();
        let owned_key: String = key.to_string();
        let found = self.find_index(&owned_key);
        match found {
            Some(i) => {
                proof {
                    lemma_index_of_unique(pre.entries, key@, i as int);
                    lemma_remove_keeps_distinct(pre.entries, i as int);
                }
                let mut store: Vec<Slot<T>> = Vec::new();
                core::mem::swap(&mut store, &mut self.store);
                let slot = store.remove(i);
                proof {
                    old(self).store@.remove_ensures(i as int);
                    pre.entries.remove_ensures(i as int);
                    assert(slot_pairs(store@) =~= pre.entries.remove(i as int));
                }
                self.store = store;
                proof {
                    assert(self.model() =~= spec_remove(pre, key@).0);
                }
                Some(slot.entry.data)
            },
            None => {
                proof {
                    assert(self.model() =~= spec_remove(pre, key@).0);
                }
                None
            },
        }
    }

    /// Deletes every record; the counters stay.
    pub fn clear(&mut self)
        ensures
            final(self).model() == spec_clear(old(self).model()),
    {
        proof {
            use_type_invariant(&*self);
        }
        let ghost pre = self.model();
        let empty: Vec<Slot<T>> = Vec::new();
        self.store = empty;
        proof {
            assert(slot_pairs(Seq::<Slot<T>>::empty()) =~= Seq::<(
                Seq<char>,
                CacheEntry<T>,
            )>::empty());
            assert(self.model() =~= spec_clear(pre));
        }
    }

    /// A batch cleanup at time `now`: removes every expired record and
    /// counts one eviction per removal. Reads reclaim only the expired
    /// records they touch; this scan is meant to be driven periodically
    /// by an outside scheduler so that untouched expired records are
    /// reclaimed too.
    pub fn cleanup_expired_at(&mut self, now: u64)
        ensures
            final(self).model() == spec_cleanup(old(self).model(), now),
    {
        proof {
            use_type_invariant(&*self);
        }
        let ghost pre = self.model();
        let mut store: Vec<Slot<T>> = Vec::new();
        core::mem::swap(&mut store, &mut self.store);
        let ghost orig = store@;
        let mut kept: Vec<Slot<T>> = Vec::new();
        let mut removed: u64 = 0;
        proof {
            assert(pre.entries.subrange(0, 0) =~= Seq::<(Seq<char>, CacheEntry<T>)>::empty());
            assert(orig.subrange(0, orig.len() as int) =~= orig);
            reveal(Seq::filter);
        }
        while store.len() > 0
            invariant
                wf(pre),
                orig.len() <= usize::MAX,
                store@ == orig.subrange(orig.len() - store@.len(), orig.len() as int),
                pre.entries == slot_pairs(orig),
                slot_pairs(kept@) == spec_unexpired(
                    pre.entries.subrange(0, orig.len() - store@.len()),
                    now,
                ),
                removed as int == orig.len() - store@.len() - kept@.len(),
            decreases store@.len(),
        {
            let ghost processed = orig.len() - store@.len();
            let ghost before = store@;
            let slot = store.remove(0);
            let ghost slot_spec = slot;
            proof {
                before.remove_ensures(0);
                assert(slot_spec == orig[processed]);
                assert(store@ =~= orig.subrange(orig.len() - store@.len(), orig.len() as int));
            }
            let expired = check_expired(&slot.entry, now);
            proof {
                let done = pre.entries.subrange(0, processed + 1);
                assert(done.drop_last() =~= pre.entries.subrange(0, processed));
                assert(done.last() == (slot_spec.key@, slot_spec.entry));
                lemma_unexpired_step(done, now);
            }
            if !expired {
                kept.push(slot);
                proof {
                    assert(slot_pairs(kept@) =~= spec_unexpired(
                        pre.entries.subrange(0, processed + 1),
                        now,
                    ));
                }
            } else {
                removed = sat_inc(removed);
                proof {
                    assert(removed as int == orig.len() - store@.len() - kept@.len());
                }
            }
        }
        proof {
            assert(pre.entries.subrange(0, orig.len() as int) =~= pre.entries);
            lemma_cleanup_preserves_wf(pre, now);
        }
        self.store = kept;
        self.evictions = sat_add_exec(self.evictions, removed);
        proof {
            assert(self.model() =~= spec_cleanup(pre, now));
        }
    }

    /// An insertion at the second the wall clock shows, with the
    /// configured default TTL.
    pub fn set(&mut self, key: String, value: T)
        ensures
            exists|now: u64|
                final(self).model() == #[trigger] spec_set_with_ttl(
                    old(self).model(),
                    key@,
                    value,
                    None,
                    now,
                ),
    {
        let now = crate::clock::now_seconds();
        self.set_with_ttl_at(key, value, None, now)
    }

    /// An insertion at the second the wall clock shows, with an optional
    /// TTL override in seconds.
    pub fn set_with_ttl(&mut self, key: String, value: T, ttl_seconds: Option<u64>)
        ensures
            exists|now: u64|
                final(self).model() == #[trigger] spec_set_with_ttl(
                    old(self).model(),
                    key@,
                    value,
                    ttl_seconds,
                    now,
                ),
    {
        let now = crate::clock::now_seconds();
        self.set_with_ttl_at(key, value, ttl_seconds, now)
    }

    /// A batch cleanup at the second the wall clock shows.
    pub fn cleanup_expired(&mut self)
        ensures
            exists|now: u64|
                final(self).model() == #[trigger] spec_cleanup(old(self).model(), now),
    {
        let now = crate::clock::now_seconds();
        self.cleanup_expired_at(now)
    }

    /// A fully formed snapshot of the counters and current size. The
    /// reported memory size is the record count times a representative
    /// per-record footprint: an approximation, not an exact accounting.
    /// The snapshot also witnesses the capacity bound: the store never
    /// holds more records than `max_entries`.
    pub fn get_stats(&self) -> (stats: CacheStats)
        ensures
            stats == spec_stats(self.model()),
            stats.total_entries <= self.model().max_entries,
    {
        proof {
            use_type_invariant(&*self);
        }
        let total = self.store.len();
        let rate = compute_hit_rate_hundredths(self.hits, self.misses);
        let mem = compute_memory_size(total);
        CacheStats {
            total_entries: total,
            hits: self.hits,
            misses: self.misses,
            evictions: self.evictions,
            hit_rate_hundredths: rate,
            memory_size_bytes: mem,
        }
    }
}

impl<T: Clone> Cache<T> {
    /// A read at time `now`: a miss on an absent key; on an expired key
    /// the record is removed, counting a miss and an eviction; on a live
    /// key a hit, returning an independent copy of the stored value.
    pub fn get_at(&mut self, key: &str, now: u64) -> (result: Option<T>)
        ensures
            final(self).model() == spec_get(old(self).model(), key@, now).0,
            option_cloned(spec_get(old(self).model(), key@, now).1, result),
    {
        proof {
            use_type_invariant(&*self);
        }
        let ghost pre = self.model();
        let owned_key: String = key.to_string();
        let found = self.find_index(&owned_key);
        match found {
            Some(i) => {
                proof {
                    lemma_index_of_unique(pre.entries, key@, i as int);
                }
                let expired = check_expired(&self.store[i].entry, now);
                if expired {
                    proof {
                        lemma_remove_keeps_distinct(pre.entries, i as int);
                    }
                    let mut store: Vec<Slot<T>> = Vec::new();
                    core::mem::swap(&mut store, &mut self.store);
                    let _slot = store.remove(i);
                    proof {
                        old(self).store@.remove_ensures(i as int);
                        pre.entries.remove_ensures(i as int);
                        assert(slot_pairs(store@) =~= pre.entries.remove(i as int));
                    }
                    self.store = store;
                    self.misses = sat_inc(self.misses);
                    self.evictions = sat_inc(self.evictions);
                    proof {
                        assert(self.model() =~= spec_get(pre, key@, now).0);
                    }
                    None
                } else {
                    let value = self.store[i].entry.data.clone();
                    self.hits = sat_inc(self.hits);
                    proof {
                        assert(self.model() =~= spec_get(pre, key@, now).0);
                    }
                    Some(value)
                }
            },
            None => {
                self.misses = sat_inc(self.misses);
                proof {
                    assert(self.model() =~= spec_get(pre, key@, now).0);
                }
                None
            },
        }
    }

    /// A read at the second the wall clock shows.
    pub fn get(&mut self, key: &str) -> (result: Option<T>)
        ensures
            exists|now: u64|
                {
                    &&& final(self).model() == (#[trigger] spec_get(
                        old(self).model(),
                        key@,
                        now,
                    )).0
                    &&& option_cloned(spec_get(old(self).model(), key@, now).1, result)
                },
    {
        let now = crate::clock::now_seconds();
        self.get_at(key, now)
    }
}

} // verus!
