//! The mathematical state of a cache and the transition functions that
//! every executable operation is proved to implement.
//!
//! The store is modelled as a sequence of `(key, record)` pairs in
//! insertion order, each key occurring at most once. Keeping the order
//! in the model makes the eviction choice — the first record with the
//! minimal creation time — a function of the state, so the contracts
//! below are deterministic.

use vstd::prelude::*;

use crate::entry::{is_expired, spec_expiry, CacheEntry};

verus! {

/// The abstract state: the stored records in insertion order, the three
/// counters, and the two configuration scalars fixed at construction.
#[verifier::ext_equal]
pub ghost struct CacheModel<T> {
    pub entries: Seq<(Seq<char>, CacheEntry<T>)>,
    pub hits: u64,
    pub misses: u64,
    pub evictions: u64,
    pub max_entries: usize,
    pub default_ttl: u64,
}

/// Addition on a counter, saturated at the largest representable value;
/// the counters never wrap around.
pub open spec fn sat_add(a: u64, b: u64) -> u64 {
    if a + b <= u64::MAX {
        (a + b) as u64
    } else {
        u64::MAX
    }
}

/// Whether some record is stored under `key`.
pub open spec fn has_key<T>(entries: Seq<(Seq<char>, CacheEntry<T>)>, key: Seq<char>) -> bool {
    exists|i: int| 0 <= i < entries.len() && entries[i].0 == key
}

/// No key occurs twice.
pub open spec fn distinct_keys<T>(entries: Seq<(Seq<char>, CacheEntry<T>)>) -> bool {
    forall|i: int, j: int|
        0 <= i < j < entries.len() ==> entries[i].0 != entries[j].0
}

/// The position of `key`; meaningful only when `has_key` holds, and then
/// unique under `distinct_keys`.
pub open spec fn index_of<T>(entries: Seq<(Seq<char>, CacheEntry<T>)>, key: Seq<char>) -> int {
    choose|i: int| 0 <= i < entries.len() && entries[i].0 == key
}

/// The record stored under `key`; meaningful only when `has_key` holds.
pub open spec fn entry_of<T>(entries: Seq<(Seq<char>, CacheEntry<T>)>, key: Seq<char>) -> CacheEntry<
    T,
> {
    entries[index_of(entries, key)].1
}

/// `j` is the first position whose record has the minimal creation time:
/// the position the eviction policy removes.
pub open spec fn is_first_oldest<T>(entries: Seq<(Seq<char>, CacheEntry<T>)>, j: int) -> bool {
    &&& 0 <= j < entries.len()
    &&& forall|i: int|
        0 <= i < entries.len() ==> entries[j].1.created_at <= #[trigger] entries[i].1.created_at
    &&& forall|i: int| 0 <= i < j ==> entries[j].1.created_at < #[trigger] entries[i].1.created_at
}

/// The position evicted when the store is full; meaningful only when the
/// store is non-empty, and then unique.
pub open spec fn oldest_index<T>(entries: Seq<(Seq<char>, CacheEntry<T>)>) -> int {
    choose|j: int| is_first_oldest(entries, j)
}

/// Well-formedness: keys are distinct and the store never holds more
/// records than its capacity.
pub open spec fn wf<T>(m: CacheModel<T>) -> bool {
    &&& distinct_keys(m.entries)
    &&& m.entries.len() <= m.max_entries
}

/// The state of a freshly constructed cache: empty store, all counters
/// zero.
pub open spec fn spec_new<T>(max_entries: usize, default_ttl: u64) -> CacheModel<T> {
    CacheModel {
        entries: Seq::empty(),
        hits: 0,
        misses: 0,
        evictions: 0,
        max_entries,
        default_ttl,
    }
}

/// A read at time `now`: a miss on an absent key; on an expired key the
/// record is removed and the read counts both a miss and an eviction; on
/// a live key a hit, and the stored value is returned.
pub open spec fn spec_get<T>(m: CacheModel<T>, key: Seq<char>, now: u64) -> (CacheModel<T>, Option<
    T,
>) {
    if !has_key(m.entries, key) {
        (CacheModel { misses: sat_add(m.misses, 1), ..m }, None)
    } else {
        let e = entry_of(m.entries, key);
        if is_expired(e, now) {
            (
                CacheModel {
                    entries: m.entries.remove(index_of(m.entries, key)),
                    misses: sat_add(m.misses, 1),
                    evictions: sat_add(m.evictions, 1),
                    ..m
                },
                None,
            )
        } else {
            (CacheModel { hits: sat_add(m.hits, 1), ..m }, Some(e.data))
        }
    }
}

/// An insertion at time `now`. The effective TTL is the override if one
/// is given, else the configured default. A present key is overwritten
/// in place, with no eviction. A new key on a full store first evicts
/// the first-oldest record and counts one eviction. A cache constructed
/// with capacity zero is disabled and never stores anything.
pub open spec fn spec_set_with_ttl<T>(
    m: CacheModel<T>,
    key: Seq<char>,
    value: T,
    ttl_seconds: Option<u64>,
    now: u64,
) -> CacheModel<T> {
    let ttl = match ttl_seconds {
        Some(t) => t,
        None => m.default_ttl,
    };
    let entry = CacheEntry { data: value, created_at: now, expires_at: spec_expiry(now, ttl) };
    if m.max_entries == 0 {
        m
    } else if has_key(m.entries, key) {
        CacheModel { entries: m.entries.update(index_of(m.entries, key), (key, entry)), ..m }
    } else if m.entries.len() >= m.max_entries {
        CacheModel {
            entries: m.entries.remove(oldest_index(m.entries)).push((key, entry)),
            evictions: sat_add(m.evictions, 1),
            ..m
        }
    } else {
        CacheModel { entries: m.entries.push((key, entry)), ..m }
    }
}

/// A removal: the record under `key` leaves and its value is returned;
/// no counter moves.
pub open spec fn spec_remove<T>(m: CacheModel<T>, key: Seq<char>) -> (CacheModel<T>, Option<T>) {
    if has_key(m.entries, key) {
        (
            CacheModel { entries: m.entries.remove(index_of(m.entries, key)), ..m },
            Some(entry_of(m.entries, key).data),
        )
    } else {
        (m, None)
    }
}

/// Emptying the store; the counters stay.
pub open spec fn spec_clear<T>(m: CacheModel<T>) -> CacheModel<T> {
    CacheModel { entries: Seq::empty(), ..m }
}

/// The records kept by a batch cleanup at time `now`: the unexpired
/// ones, in order.
pub open spec fn spec_unexpired<T>(entries: Seq<(Seq<char>, CacheEntry<T>)>, now: u64) -> Seq<
    (Seq<char>, CacheEntry<T>),
> {
    entries.filter(|p: (Seq<char>, CacheEntry<T>)| !is_expired(p.1, now))
}

/// A batch cleanup at time `now`: every expired record leaves, and each
/// removal counts one eviction.
pub open spec fn spec_cleanup<T>(m: CacheModel<T>, now: u64) -> CacheModel<T> {
    let kept = spec_unexpired(m.entries, now);
    CacheModel {
        entries: kept,
        evictions: sat_add(m.evictions, (m.entries.len() - kept.len()) as u64),
        ..m
    }
}

/// `index_of` names a position holding `key` whenever one exists.
pub proof fn lemma_index_of_points_to<T>(entries: Seq<(Seq<char>, CacheEntry<T>)>, key: Seq<char>)
    requires
        has_key(entries, key),
    ensures
        0 <= index_of(entries, key) < entries.len(),
        entries[index_of(entries, key)].0 == key,
{
}

/// Under distinct keys, `index_of` is the one position holding `key`.
pub proof fn lemma_index_of_unique<T>(
    entries: Seq<(Seq<char>, CacheEntry<T>)>,
    key: Seq<char>,
    i: int,
)
    requires
        distinct_keys(entries),
        0 <= i < entries.len(),
        entries[i].0 == key,
    ensures
        index_of(entries, key) == i,
{
    assert(has_key(entries, key));
    lemma_index_of_points_to(entries, key);
}

/// A non-empty store has a first-oldest position, and `oldest_index`
/// names it.
pub proof fn lemma_first_oldest_exists<T>(entries: Seq<(Seq<char>, CacheEntry<T>)>)
    requires
        entries.len() > 0,
    ensures
        is_first_oldest(entries, oldest_index(entries)),
    decreases entries.len(),
{
    let last = entries.len() - 1;
    if entries.len() == 1 {
        assert(is_first_oldest(entries, 0));
    } else {
        let s = entries.drop_last();
        lemma_first_oldest_exists(s);
        let j = oldest_index(s);
        assert(forall|i: int| 0 <= i < last ==> s[i] == entries[i]);
        if entries[last].1.created_at < s[j].1.created_at {
            assert forall|i: int|
                0 <= i < last implies entries[last].1.created_at
                < #[trigger] entries[i].1.created_at by {
                assert(s[j].1.created_at <= s[i].1.created_at);
            }
            assert(is_first_oldest(entries, last));
        } else {
            assert(is_first_oldest(entries, j));
        }
    }
    assert(exists|j: int| is_first_oldest(entries, j));
}

/// The first-oldest position is unique.
pub proof fn lemma_first_oldest_unique<T>(entries: Seq<(Seq<char>, CacheEntry<T>)>, j: int)
    requires
        is_first_oldest(entries, j),
    ensures
        oldest_index(entries) == j,
{
    assert(exists|i: int| is_first_oldest(entries, i));
    let j2 = oldest_index(entries);
    assert(is_first_oldest(entries, j2));
    if j < j2 {
        assert(entries[j2].1.created_at < entries[j].1.created_at);
        assert(entries[j].1.created_at <= entries[j2].1.created_at);
    } else if j2 < j {
        assert(entries[j].1.created_at < entries[j2].1.created_at);
        assert(entries[j2].1.created_at <= entries[j].1.created_at);
    }
}

/// Removing a record keeps the remaining keys distinct and introduces
/// no key that was not there.
pub proof fn lemma_remove_keeps_distinct<T>(entries: Seq<(Seq<char>, CacheEntry<T>)>, i: int)
    requires
        distinct_keys(entries),
        0 <= i < entries.len(),
    ensures
        distinct_keys(entries.remove(i)),
        forall|k: Seq<char>| #[trigger]
            has_key(entries.remove(i), k) ==> has_key(entries, k),
{
    entries.remove_ensures(i);
    let r = entries.remove(i);
    assert forall|a: int, b: int| 0 <= a < b < r.len() implies r[a].0 != r[b].0 by {
        let a0 = if a < i {
            a
        } else {
            a + 1
        };
        let b0 = if b < i {
            b
        } else {
            b + 1
        };
        assert(r[a] == entries[a0]);
        assert(r[b] == entries[b0]);
    }
    assert forall|k: Seq<char>| #[trigger] has_key(r, k) implies has_key(entries, k) by {
        let a = choose|a: int| 0 <= a < r.len() && r[a].0 == k;
        let a0 = if a < i {
            a
        } else {
            a + 1
        };
        assert(r[a] == entries[a0]);
    }
}

/// Appending a record under a fresh key keeps the keys distinct.
pub proof fn lemma_push_keeps_distinct<T>(
    entries: Seq<(Seq<char>, CacheEntry<T>)>,
    p: (Seq<char>, CacheEntry<T>),
)
    requires
        distinct_keys(entries),
        !has_key(entries, p.0),
    ensures
        distinct_keys(entries.push(p)),
{
    let s = entries.push(p);
    assert forall|a: int, b: int| 0 <= a < b < s.len() implies s[a].0 != s[b].0 by {
        if b < entries.len() {
            assert(s[a] == entries[a]);
            assert(s[b] == entries[b]);
        } else {
            assert(s[a] == entries[a]);
            assert(s[b] == p);
            assert(!(entries[a].0 == p.0));
        }
    }
}

/// Overwriting a record in place, key unchanged, keeps the keys distinct.
pub proof fn lemma_update_keeps_distinct<T>(
    entries: Seq<(Seq<char>, CacheEntry<T>)>,
    i: int,
    p: (Seq<char>, CacheEntry<T>),
)
    requires
        distinct_keys(entries),
        0 <= i < entries.len(),
        entries[i].0 == p.0,
    ensures
        distinct_keys(entries.update(i, p)),
{
    let s = entries.update(i, p);
    assert forall|a: int, b: int| 0 <= a < b < s.len() implies s[a].0 != s[b].0 by {
        assert(s[a].0 == entries[a].0);
        assert(s[b].0 == entries[b].0);
    }
}

/// The records a batch cleanup keeps: distinct keys, no more records
/// than before, each one a record of the store before the cleanup, and
/// every unexpired record of that store among them.
pub proof fn lemma_unexpired_membership<T>(entries: Seq<(Seq<char>, CacheEntry<T>)>, now: u64)
    requires
        distinct_keys(entries),
    ensures
        distinct_keys(spec_unexpired(entries, now)),
        spec_unexpired(entries, now).len() <= entries.len(),
        forall|i: int|
            0 <= i < spec_unexpired(entries, now).len() ==> exists|j: int|
                0 <= j < entries.len() && entries[j] == #[trigger] spec_unexpired(entries, now)[i],
        forall|j: int|
            0 <= j < entries.len() && !is_expired(#[trigger] entries[j].1, now)
                ==> spec_unexpired(entries, now).contains(entries[j]),
        forall|i: int|
            0 <= i < spec_unexpired(entries, now).len() ==> !is_expired(
                #[trigger] spec_unexpired(entries, now)[i].1,
                now,
            ),
    decreases entries.len(),
{
    reveal(Seq::filter);
    let pred = |p: (Seq<char>, CacheEntry<T>)| !is_expired(p.1, now);
    let kept = spec_unexpired(entries, now);
    if entries.len() == 0 {
    } else {
        let s = entries.drop_last();
        let last = entries.len() - 1;
        assert(forall|i: int| 0 <= i < last ==> s[i] == entries[i]);
        assert(distinct_keys(s));
        lemma_unexpired_membership(s, now);
        let skept = spec_unexpired(s, now);
        assert(kept == if pred(entries.last()) {
            skept.push(entries.last())
        } else {
            skept
        });
        if pred(entries.last()) {
            assert forall|a: int, b: int| 0 <= a < b < kept.len() implies kept[a].0 != kept[b].0 by {
                if b < skept.len() {
                    assert(kept[a] == skept[a]);
                    assert(kept[b] == skept[b]);
                } else {
                    assert(kept[a] == skept[a]);
                    assert(kept[b] == entries[last]);
                    let j = choose|j: int| 0 <= j < s.len() && s[j] == skept[a];
                    assert(entries[j] == skept[a]);
                    assert(entries[j].0 != entries[last].0);
                }
            }
        }
        assert forall|j: int|
            0 <= j < entries.len() && !is_expired(
                #[trigger] entries[j].1,
                now,
            ) implies kept.contains(entries[j]) by {
            if j < last {
                assert(skept.contains(s[j]));
                let a = choose|a: int| 0 <= a < skept.len() && skept[a] == s[j];
                assert(kept[a] == entries[j]);
            } else {
                assert(kept[kept.len() - 1] == entries[last]);
            }
        }
    }
}

/// One unfolding of the kept-records filter, from the back.
pub proof fn lemma_unexpired_step<T>(entries: Seq<(Seq<char>, CacheEntry<T>)>, now: u64)
    requires
        entries.len() > 0,
    ensures
        spec_unexpired(entries, now) == if !is_expired(entries.last().1, now) {
            spec_unexpired(entries.drop_last(), now).push(entries.last())
        } else {
            spec_unexpired(entries.drop_last(), now)
        },
{
    reveal(Seq::filter);
}

/// What a batch cleanup does to one key: an unexpired record stays, under
/// the same key with the same content; an expired or absent one is gone.
pub proof fn lemma_unexpired_key<T>(
    entries: Seq<(Seq<char>, CacheEntry<T>)>,
    now: u64,
    key: Seq<char>,
)
    requires
        distinct_keys(entries),
    ensures
        has_key(spec_unexpired(entries, now), key) <==> (has_key(entries, key) && !is_expired(
            entry_of(entries, key),
            now,
        )),
        has_key(spec_unexpired(entries, now), key) ==> entry_of(spec_unexpired(entries, now), key)
            == entry_of(entries, key),
{
    lemma_unexpired_membership(entries, now);
    let kept = spec_unexpired(entries, now);
    if has_key(kept, key) {
        lemma_index_of_points_to(kept, key);
        let i = index_of(kept, key);
        let j = choose|j: int| 0 <= j < entries.len() && entries[j] == kept[i];
        assert(has_key(entries, key));
        lemma_index_of_unique(entries, key, j);
        assert(entry_of(entries, key) == kept[i].1);
        assert(!is_expired(kept[i].1, now));
    }
    if has_key(entries, key) && !is_expired(entry_of(entries, key), now) {
        lemma_index_of_points_to(entries, key);
        let j = index_of(entries, key);
        assert(kept.contains(entries[j]));
        let a = choose|a: int| 0 <= a < kept.len() && kept[a] == entries[j];
        assert(kept[a].0 == key);
        assert(has_key(kept, key));
    }
}

/// A fresh cache is well-formed.
pub proof fn lemma_new_wf<T>(max_entries: usize, default_ttl: u64)
    ensures
        wf(spec_new::<T>(max_entries, default_ttl)),
{
}

/// After an insertion into an enabled cache, the key is present and
/// holds exactly the record built at `now` from the effective TTL.
pub proof fn lemma_set_key_present<T>(
    m: CacheModel<T>,
    key: Seq<char>,
    value: T,
    ttl_seconds: Option<u64>,
    now: u64,
)
    requires
        wf(m),
        m.max_entries > 0,
    ensures
        ({
            let ttl = match ttl_seconds {
                Some(t) => t,
                None => m.default_ttl,
            };
            let m1 = spec_set_with_ttl(m, key, value, ttl_seconds, now);
            &&& has_key(m1.entries, key)
            &&& entry_of(m1.entries, key) == (CacheEntry {
                data: value,
                created_at: now,
                expires_at: spec_expiry(now, ttl),
            })
        }),
{
    let ttl = match ttl_seconds {
        Some(t) => t,
        None => m.default_ttl,
    };
    let entry = CacheEntry { data: value, created_at: now, expires_at: spec_expiry(now, ttl) };
    let m1 = spec_set_with_ttl(m, key, value, ttl_seconds, now);
    lemma_set_preserves_wf(m, key, value, ttl_seconds, now);
    if has_key(m.entries, key) {
        lemma_index_of_points_to(m.entries, key);
        let i = index_of(m.entries, key);
        assert(m1.entries[i] == (key, entry));
        lemma_index_of_unique(m1.entries, key, i);
    } else if m.entries.len() >= m.max_entries {
        lemma_first_oldest_exists(m.entries);
        let j = oldest_index(m.entries);
        let last = m1.entries.len() - 1;
        assert(m1.entries[last] == (key, entry));
        lemma_index_of_unique(m1.entries, key, last);
    } else {
        let last = m1.entries.len() - 1;
        assert(m1.entries[last] == (key, entry));
        lemma_index_of_unique(m1.entries, key, last);
    }
}

/// A read preserves well-formedness.
pub proof fn lemma_get_preserves_wf<T>(m: CacheModel<T>, key: Seq<char>, now: u64)
    requires
        wf(m),
    ensures
        wf(spec_get(m, key, now).0),
{
    if has_key(m.entries, key) && is_expired(entry_of(m.entries, key), now) {
        lemma_index_of_points_to(m.entries, key);
        lemma_remove_keeps_distinct(m.entries, index_of(m.entries, key));
    }
}

/// An insertion preserves well-formedness: the store never outgrows its
/// capacity.
pub proof fn lemma_set_preserves_wf<T>(
    m: CacheModel<T>,
    key: Seq<char>,
    value: T,
    ttl_seconds: Option<u64>,
    now: u64,
)
    requires
        wf(m),
    ensures
        wf(spec_set_with_ttl(m, key, value, ttl_seconds, now)),
{
    if m.max_entries == 0 {
    } else if has_key(m.entries, key) {
        lemma_index_of_points_to(m.entries, key);
        let i = index_of(m.entries, key);
        let ttl = match ttl_seconds {
            Some(t) => t,
            None => m.default_ttl,
        };
        let entry = CacheEntry { data: value, created_at: now, expires_at: spec_expiry(now, ttl) };
        lemma_update_keeps_distinct(m.entries, i, (key, entry));
    } else if m.entries.len() >= m.max_entries {
        lemma_first_oldest_exists(m.entries);
        let j = oldest_index(m.entries);
        lemma_remove_keeps_distinct(m.entries, j);
        let ttl = match ttl_seconds {
            Some(t) => t,
            None => m.default_ttl,
        };
        let entry = CacheEntry { data: value, created_at: now, expires_at: spec_expiry(now, ttl) };
        assert(!has_key(m.entries.remove(j), key));
        lemma_push_keeps_distinct(m.entries.remove(j), (key, entry));
    } else {
        let ttl = match ttl_seconds {
            Some(t) => t,
            None => m.default_ttl,
        };
        let entry = CacheEntry { data: value, created_at: now, expires_at: spec_expiry(now, ttl) };
        lemma_push_keeps_distinct(m.entries, (key, entry));
    }
}

/// A removal preserves well-formedness.
pub proof fn lemma_remove_preserves_wf<T>(m: CacheModel<T>, key: Seq<char>)
    requires
        wf(m),
    ensures
        wf(spec_remove(m, key).0),
{
    if has_key(m.entries, key) {
        lemma_index_of_points_to(m.entries, key);
        lemma_remove_keeps_distinct(m.entries, index_of(m.entries, key));
    }
}

/// A batch cleanup preserves well-formedness.
pub proof fn lemma_cleanup_preserves_wf<T>(m: CacheModel<T>, now: u64)
    requires
        wf(m),
    ensures
        wf(spec_cleanup(m, now)),
{
    lemma_unexpired_membership(m.entries, now);
}

} // verus!
