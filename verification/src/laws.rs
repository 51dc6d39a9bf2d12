//! The properties that relate several cache operations, stated over the
//! model transitions of [`crate::model`] and proved once and for all.
//! Every executable operation is proved to implement those transitions,
//! so these laws hold of the executable cache as well.

use vstd::arithmetic::div_mod::{
    lemma_div_by_multiple, lemma_div_is_ordered, lemma_div_pos_is_pos,
};
use vstd::prelude::*;

use crate::entry::{is_expired, spec_expiry, CacheEntry};
use crate::model::{
    entry_of, has_key, is_first_oldest, lemma_cleanup_preserves_wf, lemma_first_oldest_exists,
    lemma_set_key_present, lemma_set_preserves_wf, lemma_unexpired_key, lemma_unexpired_membership,
    oldest_index, sat_add, spec_cleanup, spec_get, spec_new, spec_set_with_ttl, wf, CacheModel,
};
use crate::stats::{spec_hit_rate_hundredths, spec_stats};

verus! {

/// Expiry correctness: a record inserted at `t_insert` with TTL
/// `ttl > 0` is returned by a read strictly before `t_insert + ttl` and
/// refused by a read strictly after it — whether or not a batch cleanup
/// ran in between (one that ran while the record was still live keeps
/// it). A read exactly at `t_insert + ttl` still returns the value: a
/// record expires strictly after its expiry second.
pub proof fn lemma_expiry_correctness<T>(
    m: CacheModel<T>,
    key: Seq<char>,
    value: T,
    ttl: u64,
    t_insert: u64,
    t_cleanup: u64,
    t_read: u64,
)
    requires
        wf(m),
        m.max_entries > 0,
        ttl > 0,
        t_insert + ttl <= u64::MAX,
    ensures
        ({
            let m1 = spec_set_with_ttl(m, key, value, Some(ttl), t_insert);
            let m2 = spec_cleanup(m1, t_cleanup);
            &&& t_read < t_insert + ttl ==> spec_get(m1, key, t_read).1 == Some(value)
            &&& t_read > t_insert + ttl ==> spec_get(m1, key, t_read).1 is None
            &&& (t_read < t_insert + ttl && t_cleanup <= t_insert + ttl) ==> spec_get(
                m2,
                key,
                t_read,
            ).1 == Some(value)
            &&& t_read > t_insert + ttl ==> spec_get(m2, key, t_read).1 is None
        }),
{
    let m1 = spec_set_with_ttl(m, key, value, Some(ttl), t_insert);
    let m2 = spec_cleanup(m1, t_cleanup);
    let expiry = (t_insert + ttl) as u64;
    let e_new = CacheEntry {
        data: value,
        created_at: t_insert,
        expires_at: spec_expiry(t_insert, ttl),
    };
    lemma_set_key_present(m, key, value, Some(ttl), t_insert);
    lemma_set_preserves_wf(m, key, value, Some(ttl), t_insert);
    assert(e_new.expires_at == Some(expiry));
    assert(is_expired(e_new, t_read) == (t_read > expiry));
    lemma_unexpired_key(m1.entries, t_cleanup, key);
    if t_cleanup <= expiry {
        assert(!is_expired(e_new, t_cleanup));
        assert(has_key(m2.entries, key));
        assert(entry_of(m2.entries, key) == e_new);
    }
    if t_read > expiry {
        if has_key(m2.entries, key) {
            assert(entry_of(m2.entries, key) == e_new);
            assert(spec_get(m2, key, t_read).1 is None);
        }
    }
}

/// An expired or absent record is never served: a read of a key whose
/// record is expired at the reading time returns nothing, whether or
/// not the record is still physically present.
pub proof fn lemma_expired_never_served<T>(m: CacheModel<T>, key: Seq<char>, now: u64)
    ensures
        (has_key(m.entries, key) && is_expired(entry_of(m.entries, key), now)) ==> spec_get(
            m,
            key,
            now,
        ).1 is None,
        !has_key(m.entries, key) ==> spec_get(m, key, now).1 is None,
{
}

/// No-expiry: a record whose effective TTL is zero — by an explicit
/// override of zero, or by default on a cache configured with default
/// TTL zero — is never removed by expiry logic: a read at any time
/// returns its value, and a batch cleanup at any time keeps it.
pub proof fn lemma_no_expiry<T>(
    m: CacheModel<T>,
    key: Seq<char>,
    value: T,
    ttl_seconds: Option<u64>,
    t_insert: u64,
    t_other: u64,
)
    requires
        wf(m),
        m.max_entries > 0,
        ttl_seconds matches Some(t) ==> t == 0,
        ttl_seconds is None ==> m.default_ttl == 0,
    ensures
        ({
            let m1 = spec_set_with_ttl(m, key, value, ttl_seconds, t_insert);
            let m2 = spec_cleanup(m1, t_other);
            &&& spec_get(m1, key, t_other).1 == Some(value)
            &&& has_key(m2.entries, key)
            &&& entry_of(m2.entries, key) == entry_of(m1.entries, key)
        }),
{
    let m1 = spec_set_with_ttl(m, key, value, ttl_seconds, t_insert);
    lemma_set_key_present(m, key, value, ttl_seconds, t_insert);
    lemma_set_preserves_wf(m, key, value, ttl_seconds, t_insert);
    let e_new = entry_of(m1.entries, key);
    assert(e_new.expires_at is None);
    lemma_unexpired_key(m1.entries, t_other, key);
}

/// Capacity bound: an insertion preserves well-formedness, so the store
/// never holds more records than `max_entries`; and at capacity a new
/// key is admitted only after the first record with the minimal
/// creation time leaves, counted as exactly one eviction.
pub proof fn lemma_capacity_bound<T>(
    m: CacheModel<T>,
    key: Seq<char>,
    value: T,
    ttl_seconds: Option<u64>,
    now: u64,
)
    requires
        wf(m),
    ensures
        wf(spec_set_with_ttl(m, key, value, ttl_seconds, now)),
        spec_set_with_ttl(m, key, value, ttl_seconds, now).entries.len() <= m.max_entries,
        ({
            let m1 = spec_set_with_ttl(m, key, value, ttl_seconds, now);
            (m.max_entries > 0 && !has_key(m.entries, key) && m.entries.len() == m.max_entries)
                ==> {
                &&& is_first_oldest(m.entries, oldest_index(m.entries))
                &&& m1.entries.len() == m.max_entries
                &&& m1.evictions == sat_add(m.evictions, 1)
                &&& forall|i: int|
                    0 <= i < m.entries.len() && i != oldest_index(m.entries)
                        ==> has_key(m1.entries, #[trigger] m.entries[i].0)
            }
        }),
{
    lemma_set_preserves_wf(m, key, value, ttl_seconds, now);
    let m1 = spec_set_with_ttl(m, key, value, ttl_seconds, now);
    if m.max_entries > 0 && !has_key(m.entries, key) && m.entries.len() == m.max_entries {
        lemma_first_oldest_exists(m.entries);
        let j = oldest_index(m.entries);
        m.entries.remove_ensures(j);
        assert forall|i: int|
            0 <= i < m.entries.len() && i != j implies has_key(
            m1.entries,
            #[trigger] m.entries[i].0,
        ) by {
            let i1 = if i < j {
                i
            } else {
                i - 1
            };
            assert(m1.entries[i1] == m.entries.remove(j)[i1]);
            assert(m.entries.remove(j)[i1] == m.entries[i]);
        }
    }
}

/// One insertion request: a key, a value, an optional TTL override and
/// the second at which it is issued.
pub ghost struct SetRequest<T> {
    pub key: Seq<char>,
    pub value: T,
    pub ttl_seconds: Option<u64>,
    pub at: u64,
}

/// The state after a cache in state `m` performs the insertions in
/// order.
pub open spec fn spec_run_sets<T>(m: CacheModel<T>, reqs: Seq<SetRequest<T>>) -> CacheModel<T>
    decreases reqs.len(),
{
    if reqs.len() == 0 {
        m
    } else {
        spec_run_sets(
            spec_set_with_ttl(m, reqs[0].key, reqs[0].value, reqs[0].ttl_seconds, reqs[0].at),
            reqs.drop_first(),
        )
    }
}

/// Capacity bound over any run of insertions: a well-formed cache stays
/// well-formed, its capacity never changes, and the store never ends up
/// holding more records than `max_entries`. (Every intermediate state
/// of the run is `spec_run_sets` of a prefix, so the bound holds at
/// every point of the run.)
pub proof fn lemma_run_sets_capacity<T>(m: CacheModel<T>, reqs: Seq<SetRequest<T>>)
    requires
        wf(m),
    ensures
        wf(spec_run_sets(m, reqs)),
        spec_run_sets(m, reqs).max_entries == m.max_entries,
        spec_run_sets(m, reqs).entries.len() <= m.max_entries,
    decreases reqs.len(),
{
    if reqs.len() > 0 {
        let m1 = spec_set_with_ttl(m, reqs[0].key, reqs[0].value, reqs[0].ttl_seconds, reqs[0].at);
        lemma_set_preserves_wf(m, reqs[0].key, reqs[0].value, reqs[0].ttl_seconds, reqs[0].at);
        lemma_run_sets_capacity(m1, reqs.drop_first());
    }
}

/// Overwrite is free: re-insertion under a present key triggers no
/// eviction and leaves the number of live records unchanged.
pub proof fn lemma_overwrite_free<T>(
    m: CacheModel<T>,
    key: Seq<char>,
    value: T,
    ttl_seconds: Option<u64>,
    now: u64,
)
    requires
        wf(m),
        has_key(m.entries, key),
    ensures
        spec_set_with_ttl(m, key, value, ttl_seconds, now).entries.len() == m.entries.len(),
        spec_set_with_ttl(m, key, value, ttl_seconds, now).evictions == m.evictions,
        spec_stats(spec_set_with_ttl(m, key, value, ttl_seconds, now)).total_entries == spec_stats(
            m,
        ).total_entries,
{
}

/// One read request: a key and the second at which it is issued.
pub ghost struct GetRequest {
    pub key: Seq<char>,
    pub at: u64,
}

/// The state after a cache in state `m` serves the reads in order.
pub open spec fn spec_run_gets<T>(m: CacheModel<T>, reqs: Seq<GetRequest>) -> CacheModel<T>
    decreases reqs.len(),
{
    if reqs.len() == 0 {
        m
    } else {
        spec_run_gets(spec_get(m, reqs[0].key, reqs[0].at).0, reqs.drop_first())
    }
}

/// How many of the reads, served in order, return a value.
pub open spec fn spec_count_hits<T>(m: CacheModel<T>, reqs: Seq<GetRequest>) -> nat
    decreases reqs.len(),
{
    if reqs.len() == 0 {
        0
    } else {
        let hit: nat = if spec_get(m, reqs[0].key, reqs[0].at).1 is Some {
            1
        } else {
            0
        };
        hit + spec_count_hits(spec_get(m, reqs[0].key, reqs[0].at).0, reqs.drop_first())
    }
}

/// No run hits more often than it reads.
pub proof fn lemma_count_hits_le<T>(m: CacheModel<T>, reqs: Seq<GetRequest>)
    ensures
        spec_count_hits(m, reqs) <= reqs.len(),
    decreases reqs.len(),
{
    if reqs.len() > 0 {
        lemma_count_hits_le(spec_get(m, reqs[0].key, reqs[0].at).0, reqs.drop_first());
    }
}

/// Hit/miss accounting along any run of reads: each read that returns a
/// value adds one hit, each other read adds one miss, and nothing else
/// moves the two counters.
pub proof fn lemma_run_counts<T>(m: CacheModel<T>, reqs: Seq<GetRequest>)
    requires
        m.hits + reqs.len() <= u64::MAX,
        m.misses + reqs.len() <= u64::MAX,
    ensures
        spec_run_gets(m, reqs).hits == m.hits + spec_count_hits(m, reqs),
        spec_run_gets(m, reqs).misses == m.misses + reqs.len() - spec_count_hits(m, reqs),
    decreases reqs.len(),
{
    lemma_count_hits_le(m, reqs);
    if reqs.len() > 0 {
        let m1 = spec_get(m, reqs[0].key, reqs[0].at).0;
        lemma_count_hits_le(m1, reqs.drop_first());
        lemma_run_counts(m1, reqs.drop_first());
    }
}

/// Hit/miss accounting for a fresh cache: after a run with `h` hits and
/// `reqs.len() - h` misses the counters read exactly that, and the
/// reported hit rate is `hits / (hits + misses)` in hundredths of a
/// percent — zero for the empty run.
pub proof fn lemma_hit_miss_accounting<T>(
    max_entries: usize,
    default_ttl: u64,
    reqs: Seq<GetRequest>,
)
    requires
        reqs.len() <= u64::MAX,
    ensures
        ({
            let start = spec_new::<T>(max_entries, default_ttl);
            let end = spec_run_gets(start, reqs);
            let h = spec_count_hits(start, reqs);
            &&& end.hits == h
            &&& end.misses == reqs.len() - h
            &&& reqs.len() > 0 ==> spec_stats(end).hit_rate_hundredths == 10000 * h / reqs.len()
            &&& reqs.len() == 0 ==> spec_stats(end).hit_rate_hundredths == 0
        }),
{
    let start = spec_new::<T>(max_entries, default_ttl);
    let end = spec_run_gets(start, reqs);
    let h = spec_count_hits(start, reqs);
    lemma_count_hits_le(start, reqs);
    lemma_run_counts(start, reqs);
    if reqs.len() > 0 {
        let n = reqs.len() as int;
        assert(end.hits + end.misses == n);
        lemma_div_pos_is_pos(10000 * (h as int), n);
        lemma_div_is_ordered(10000 * (h as int), 10000 * n, n);
        lemma_div_by_multiple(10000, n);
        assert(spec_hit_rate_hundredths(end.hits, end.misses) == 10000 * (h as int) / n);
    }
}

/// Eviction accounting for expiry removals: a read that removes an
/// expired record counts exactly one eviction and removes exactly one
/// record; any other read removes nothing and counts none. A batch
/// cleanup counts exactly one eviction per record it removes. (For
/// capacity-driven removals see `lemma_capacity_bound`.) Counted at
/// most once per physical removal, as long as the counter has room.
pub proof fn lemma_eviction_accounting<T>(m: CacheModel<T>, key: Seq<char>, now: u64)
    requires
        wf(m),
        m.evictions + 1 <= u64::MAX,
        m.evictions + m.entries.len() <= u64::MAX,
    ensures
        ({
            let m1 = spec_get(m, key, now).0;
            &&& (has_key(m.entries, key) && is_expired(entry_of(m.entries, key), now)) ==> (
            m1.entries.len() == m.entries.len() - 1 && m1.evictions == m.evictions + 1)
            &&& !(has_key(m.entries, key) && is_expired(entry_of(m.entries, key), now)) ==> (
            m1.entries == m.entries && m1.evictions == m.evictions)
        }),
        ({
            let m2 = spec_cleanup(m, now);
            m2.evictions == m.evictions + (m.entries.len() - m2.entries.len())
        }),
{
    if has_key(m.entries, key) && is_expired(entry_of(m.entries, key), now) {
        crate::model::lemma_index_of_points_to(m.entries, key);
    }
    lemma_unexpired_membership(m.entries, now);
}

/// The counters never decrease, and the configuration never changes:
/// no operation resets what a cache has counted or re-sizes it.
pub proof fn lemma_counters_monotonic<T>(
    m: CacheModel<T>,
    key: Seq<char>,
    value: T,
    ttl_seconds: Option<u64>,
    now: u64,
)
    ensures
        counters_advance(m, spec_get(m, key, now).0),
        counters_advance(m, spec_set_with_ttl(m, key, value, ttl_seconds, now)),
        counters_advance(m, crate::model::spec_remove(m, key).0),
        counters_advance(m, crate::model::spec_clear(m)),
        counters_advance(m, spec_cleanup(m, now)),
{
}

/// `post` keeps every counter at least as high as `pre` had it, and the
/// configuration identical.
pub open spec fn counters_advance<T>(pre: CacheModel<T>, post: CacheModel<T>) -> bool {
    &&& post.hits >= pre.hits
    &&& post.misses >= pre.misses
    &&& post.evictions >= pre.evictions
    &&& post.max_entries == pre.max_entries
    &&& post.default_ttl == pre.default_ttl
}

} // verus!
