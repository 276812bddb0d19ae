//! What holds of every cache, stated over the entries that
//! [`crate::cache_map`] defines and proved from their definitions.
use crate::cache_map::{found, holds, inserted, promoted, rank, valid_entries, CacheEntry};
use vstd::prelude::*;

verus! {

/// One use of a cache: storing a value under a hash, or looking a hash up.
pub enum CacheOp<V> {
    Insert(u64, V),
    Get(u64),
}

/// The entries after one use of the cache.
pub open spec fn applied<V>(entries: Seq<CacheEntry<V>>, capacity: nat, op: CacheOp<V>) -> Seq<
    CacheEntry<V>,
> {
    match op {
        CacheOp::Insert(hash, value) => inserted(entries, capacity, hash, value),
        CacheOp::Get(hash) => promoted(entries, hash),
    }
}

/// The entries after the uses `ops`, made in order.
pub open spec fn applied_all<V>(
    entries: Seq<CacheEntry<V>>,
    capacity: nat,
    ops: Seq<CacheOp<V>>,
) -> Seq<CacheEntry<V>>
    decreases ops.len(),
{
    if ops.len() == 0 {
        entries
    } else {
        applied(applied_all(entries, capacity, ops.drop_last()), capacity, ops.last())
    }
}

/// Among valid entries, a hash is found exactly at the position of its entry.
pub proof fn lemma_rank_of_entry<V>(entries: Seq<CacheEntry<V>>, capacity: nat, i: int)
    requires
        valid_entries(entries, capacity),
        0 <= i < entries.len(),
    ensures
        holds(entries, entries[i].hash),
        rank(entries, entries[i].hash) == i,
        found(entries, entries[i].hash) == Some(entries[i].value),
{
    let hash = entries[i].hash;
    assert(holds(entries, hash));
    let r = rank(entries, hash);
    assert(entries[r].hash == hash);
    if r < i {
        assert(entries[r].hash != entries[i].hash);
    } else if i < r {
        assert(entries[i].hash != entries[r].hash);
    }
}

/// A hash that is held is held at its rank.
pub proof fn lemma_rank_in_range<V>(entries: Seq<CacheEntry<V>>, hash: u64)
    requires
        holds(entries, hash),
    ensures
        0 <= rank(entries, hash) < entries.len(),
        entries[rank(entries, hash)].hash == hash,
{
}

/// An insertion keeps the entries valid: in particular there are never more
/// of them than the capacity allows.
pub proof fn lemma_insert_keeps_valid<V>(
    entries: Seq<CacheEntry<V>>,
    capacity: nat,
    hash: u64,
    value: V,
)
    requires
        valid_entries(entries, capacity),
        capacity > 0,
    ensures
        valid_entries(inserted(entries, capacity, hash, value), capacity),
        inserted(entries, capacity, hash, value).len() <= capacity,
{
    let after = inserted(entries, capacity, hash, value);
    let n = entries.len() as int;
    if holds(entries, hash) {
        let r = rank(entries, hash);
        lemma_rank_in_range(entries, hash);
        assert forall|i: int| 0 <= i < after.len() implies (#[trigger] after[i]).hash == (if i < r {
            entries[i]
        } else if i < n - 1 {
            entries[i + 1]
        } else {
            entries[r]
        }).hash && after[i].slot == (if i < r {
            entries[i]
        } else if i < n - 1 {
            entries[i + 1]
        } else {
            entries[r]
        }).slot by {}
        lemma_moved_valid(entries, after, capacity, r);
    } else if entries.len() < capacity {
        assert forall|i: int, j: int| 0 <= i < j < after.len() implies (#[trigger] after[i]).hash
            != (#[trigger] after[j]).hash by {
            if j == n {
                assert(entries[i].hash != hash);
            }
        }
        assert forall|i: int, j: int| 0 <= i < j < after.len() implies (#[trigger] after[i]).slot
            != (#[trigger] after[j]).slot by {
            if j == n {
                assert(entries[i].slot < n);
            }
        }
    } else {
        assert forall|i: int| 0 <= i < after.len() implies (#[trigger] after[i]).hash == (if i < n
            - 1 {
            entries[i + 1].hash
        } else {
            hash
        }) && after[i].slot == (if i < n - 1 {
            entries[i + 1]
        } else {
            entries[0]
        }).slot by {}
        assert forall|i: int, j: int| 0 <= i < j < after.len() implies (#[trigger] after[i]).hash
            != (#[trigger] after[j]).hash by {
            if j == n - 1 {
                assert(entries[i + 1].hash != hash);
            } else {
                assert(entries[i + 1].hash != entries[j + 1].hash);
            }
        }
        assert forall|i: int, j: int| 0 <= i < j < after.len() implies (#[trigger] after[i]).slot
            != (#[trigger] after[j]).slot by {
            if j == n - 1 {
                assert(entries[0].slot != entries[i + 1].slot);
            } else {
                assert(entries[i + 1].slot != entries[j + 1].slot);
            }
        }
        assert forall|i: int| 0 <= i < after.len() implies (#[trigger] after[i]).slot
            < after.len() by {
            if i < n - 1 {
                assert(entries[i + 1].slot < n);
            } else {
                assert(entries[0].slot < n);
            }
        }
    }
}

/// Entries that hold the hashes and slots of valid entries, with the one at
/// `r` moved to the end, are valid.
proof fn lemma_moved_valid<V>(
    entries: Seq<CacheEntry<V>>,
    after: Seq<CacheEntry<V>>,
    capacity: nat,
    r: int,
)
    requires
        valid_entries(entries, capacity),
        0 <= r < entries.len(),
        after.len() == entries.len(),
        forall|i: int|
            0 <= i < after.len() ==> (#[trigger] after[i]).hash == (if i < r {
                entries[i]
            } else if i < entries.len() - 1 {
                entries[i + 1]
            } else {
                entries[r]
            }).hash && after[i].slot == (if i < r {
                entries[i]
            } else if i < entries.len() - 1 {
                entries[i + 1]
            } else {
                entries[r]
            }).slot,
    ensures
        valid_entries(after, capacity),
{
    let n = entries.len() as int;
    let from = |i: int|
        if i < r {
            i
        } else if i < n - 1 {
            i + 1
        } else {
            r
        };
    assert forall|i: int, j: int| 0 <= i < j < after.len() implies (#[trigger] after[i]).hash
        != (#[trigger] after[j]).hash by {
        let a = from(i);
        let b = from(j);
        assert(after[i].hash == entries[a].hash);
        assert(after[j].hash == entries[b].hash);
        if a < b {
            assert(entries[a].hash != entries[b].hash);
        } else {
            assert(entries[b].hash != entries[a].hash);
        }
    }
    assert forall|i: int, j: int| 0 <= i < j < after.len() implies (#[trigger] after[i]).slot
        != (#[trigger] after[j]).slot by {
        let a = from(i);
        let b = from(j);
        assert(after[i].slot == entries[a].slot);
        assert(after[j].slot == entries[b].slot);
        if a < b {
            assert(entries[a].slot != entries[b].slot);
        } else {
            assert(entries[b].slot != entries[a].slot);
        }
    }
    assert forall|i: int| 0 <= i < after.len() implies (#[trigger] after[i]).slot
        < after.len() by {
        let a = from(i);
        assert(after[i].slot == entries[a].slot);
        assert(entries[a].slot < n);
    }
}

/// A lookup keeps the entries valid and their number unchanged.
pub proof fn lemma_get_keeps_valid<V>(entries: Seq<CacheEntry<V>>, capacity: nat, hash: u64)
    requires
        valid_entries(entries, capacity),
    ensures
        valid_entries(promoted(entries, hash), capacity),
        promoted(entries, hash).len() == entries.len(),
{
    if holds(entries, hash) {
        let r = rank(entries, hash);
        let after = promoted(entries, hash);
        let n = entries.len() as int;
        assert forall|i: int| 0 <= i < after.len() implies (#[trigger] after[i]).hash == (if i < r {
            entries[i]
        } else if i < n - 1 {
            entries[i + 1]
        } else {
            entries[r]
        }).hash && after[i].slot == (if i < r {
            entries[i]
        } else if i < n - 1 {
            entries[i + 1]
        } else {
            entries[r]
        }).slot by {}
        lemma_moved_valid(entries, after, capacity, r);
    }
}

/// The capacity invariant: whatever insertions and lookups are made, in
/// whatever order, a cache that starts out valid stays valid, and so never
/// holds more entries than its capacity.
pub proof fn lemma_capacity_never_exceeded<V>(
    entries: Seq<CacheEntry<V>>,
    capacity: nat,
    ops: Seq<CacheOp<V>>,
)
    requires
        valid_entries(entries, capacity),
        capacity > 0,
    ensures
        valid_entries(applied_all(entries, capacity, ops), capacity),
        applied_all(entries, capacity, ops).len() <= capacity,
    decreases ops.len(),
{
    if ops.len() > 0 {
        lemma_capacity_never_exceeded(entries, capacity, ops.drop_last());
        let before = applied_all(entries, capacity, ops.drop_last());
        match ops.last() {
            CacheOp::Insert(hash, value) => lemma_insert_keeps_valid(before, capacity, hash, value),
            CacheOp::Get(hash) => lemma_get_keeps_valid(before, capacity, hash),
        }
    }
}

/// Eviction takes the least recently used entry and no other: when a new hash
/// is stored in a full cache, the hash at the front leaves, every other hash
/// stays with its value, and the new hash is the most recently used one.
pub proof fn lemma_overflow_evicts_least_recent<V>(
    entries: Seq<CacheEntry<V>>,
    capacity: nat,
    hash: u64,
    value: V,
)
    requires
        valid_entries(entries, capacity),
        capacity > 0,
        entries.len() == capacity,
        !holds(entries, hash),
    ensures
        inserted(entries, capacity, hash, value).len() == capacity,
        !holds(inserted(entries, capacity, hash, value), entries[0].hash),
        inserted(entries, capacity, hash, value).last() == (CacheEntry {
            hash,
            slot: entries[0].slot,
            value,
        }),
        forall|i: int|
            1 <= i < entries.len() ==> inserted(entries, capacity, hash, value)[i - 1]
                == #[trigger] entries[i],
        forall|other: u64|
            other != entries[0].hash && other != hash ==> found(
                inserted(entries, capacity, hash, value),
                other,
            ) == found(entries, other),
{
    let after = inserted(entries, capacity, hash, value);
    let n = entries.len() as int;
    lemma_insert_keeps_valid(entries, capacity, hash, value);
    assert(entries[0].hash != hash);
    if holds(after, entries[0].hash) {
        let r = rank(after, entries[0].hash);
        if r < n - 1 {
            assert(entries[0].hash != entries[r + 1].hash);
        }
    }
    assert forall|other: u64| other != entries[0].hash && other != hash implies found(
        after,
        other,
    ) == found(entries, other) by {
        if holds(entries, other) {
            let r = rank(entries, other);
            assert(after[r - 1] == entries[r]);
            lemma_rank_of_entry(after, capacity, r - 1);
        } else if holds(after, other) {
            let r = rank(after, other);
            assert(after[r] == entries[r + 1]);
        }
    }
}

/// An insertion removes no hash but the least recently used one: a hash that
/// is held and does not stand at the front is still held afterwards.
pub proof fn lemma_insert_spares_recent<V>(
    entries: Seq<CacheEntry<V>>,
    capacity: nat,
    hash: u64,
    value: V,
    kept: u64,
)
    requires
        valid_entries(entries, capacity),
        capacity > 0,
        holds(entries, kept),
        entries[0].hash != kept,
    ensures
        holds(inserted(entries, capacity, hash, value), kept),
{
    let after = inserted(entries, capacity, hash, value);
    let n = entries.len() as int;
    let k = rank(entries, kept);
    if holds(entries, hash) {
        let r = rank(entries, hash);
        if k < r {
            assert(after[k].hash == kept);
        } else if k == r {
            assert(after[n - 1].hash == kept);
        } else {
            assert(after[k - 1].hash == kept);
        }
    } else if entries.len() < capacity {
        assert(after[k].hash == kept);
    } else {
        assert(after[k - 1].hash == kept);
    }
}

/// Recency promotion: a lookup that hits moves the entry to the most recently
/// used position, unchanged, and leaves the others in their order.
pub proof fn lemma_get_promotes<V>(entries: Seq<CacheEntry<V>>, capacity: nat, hash: u64)
    requires
        valid_entries(entries, capacity),
        holds(entries, hash),
    ensures
        promoted(entries, hash).len() == entries.len(),
        promoted(entries, hash).last() == entries[rank(entries, hash)],
        promoted(entries, hash).last().hash == hash,
        promoted(entries, hash).drop_last() == entries.remove(rank(entries, hash)),
        forall|other: u64| found(promoted(entries, hash), other) == found(entries, other),
{
    let after = promoted(entries, hash);
    let r = rank(entries, hash);
    let n = entries.len() as int;
    lemma_get_keeps_valid(entries, capacity, hash);
    assert(after.drop_last() =~= entries.remove(r));
    assert forall|other: u64| found(after, other) == found(entries, other) by {
        if holds(entries, other) {
            let k = rank(entries, other);
            let to = if k < r {
                k
            } else if k == r {
                n - 1
            } else {
                k - 1
            };
            assert(after[to] == entries[k]);
            lemma_rank_of_entry(after, capacity, to);
        } else if holds(after, other) {
            let k = rank(after, other);
            let from = if k < r {
                k
            } else if k < n - 1 {
                k + 1
            } else {
                r
            };
            assert(after[k] == entries[from]);
        }
    }
}

/// A hash that was just looked up survives the next insertion, whatever is
/// inserted, as long as the cache holds another entry that is older.
pub proof fn lemma_promoted_survives_insert<V>(
    entries: Seq<CacheEntry<V>>,
    capacity: nat,
    hash: u64,
    next_hash: u64,
    next_value: V,
)
    requires
        valid_entries(entries, capacity),
        capacity > 0,
        holds(entries, hash),
        entries.len() >= 2,
    ensures
        holds(inserted(promoted(entries, hash), capacity, next_hash, next_value), hash),
{
    let after = promoted(entries, hash);
    let n = entries.len() as int;
    lemma_get_promotes(entries, capacity, hash);
    lemma_get_keeps_valid(entries, capacity, hash);
    assert(after[n - 1].hash == hash);
    assert(after[0].hash != after[n - 1].hash);
    lemma_insert_spares_recent(after, capacity, next_hash, next_value, hash);
}

/// Update in place: storing a value under a hash that is present changes
/// neither the number of entries nor any other value; the entry keeps its
/// slot, takes the new value and becomes the most recently used one.
pub proof fn lemma_reinsert_updates_in_place<V>(
    entries: Seq<CacheEntry<V>>,
    capacity: nat,
    hash: u64,
    value: V,
)
    requires
        valid_entries(entries, capacity),
        capacity > 0,
        holds(entries, hash),
    ensures
        inserted(entries, capacity, hash, value).len() == entries.len(),
        inserted(entries, capacity, hash, value).last() == (CacheEntry {
            hash,
            slot: entries[rank(entries, hash)].slot,
            value,
        }),
        inserted(entries, capacity, hash, value).drop_last() == entries.remove(
            rank(entries, hash),
        ),
        found(inserted(entries, capacity, hash, value), hash) == Some(value),
        forall|other: u64|
            other != hash ==> found(inserted(entries, capacity, hash, value), other) == found(
                entries,
                other,
            ),
{
    let after = inserted(entries, capacity, hash, value);
    let r = rank(entries, hash);
    let n = entries.len() as int;
    lemma_insert_keeps_valid(entries, capacity, hash, value);
    assert(after.drop_last() =~= entries.remove(r));
    lemma_rank_of_entry(after, capacity, n - 1);
    assert forall|other: u64| other != hash implies found(after, other) == found(
        entries,
        other,
    ) by {
        if holds(entries, other) {
            let k = rank(entries, other);
            let to = if k < r {
                k
            } else {
                k - 1
            };
            assert(after[to] == entries[k]);
            lemma_rank_of_entry(after, capacity, to);
        } else if holds(after, other) {
            let k = rank(after, other);
            let from = if k < r {
                k
            } else {
                k + 1
            };
            assert(after[k] == entries[from]);
        }
    }
}

/// What is stored is found: after a value was stored under a hash, a lookup
/// of that hash finds this value, whether the hash was present, new with
/// room left, or new in a full cache.
pub proof fn lemma_inserted_is_found<V>(
    entries: Seq<CacheEntry<V>>,
    capacity: nat,
    hash: u64,
    value: V,
)
    requires
        valid_entries(entries, capacity),
        capacity > 0,
    ensures
        holds(inserted(entries, capacity, hash, value), hash),
        found(inserted(entries, capacity, hash, value), hash) == Some(value),
        inserted(entries, capacity, hash, value).last().hash == hash,
        inserted(entries, capacity, hash, value).last().value == value,
{
    let after = inserted(entries, capacity, hash, value);
    lemma_insert_keeps_valid(entries, capacity, hash, value);
    if holds(entries, hash) {
        lemma_rank_in_range(entries, hash);
    }
    assert(after.len() > 0);
    assert(after.last().hash == hash);
    lemma_rank_of_entry(after, capacity, after.len() - 1);
}

} // verus!
