//! A fixed-capacity cache that evicts the least recently used entry.
//!
//! The cache keeps `N` value slots, a doubly linked recency list threaded
//! through the slot indices, and a hash map from the hash of a key to the slot
//! that holds its value. Lookup, insertion and eviction take constant time.
//!
//! Contracts speak of the cache through its view: the live entries in order
//! from the least recently used to the most recently used one.
use std::collections::hash_map::DefaultHasher;
use std::collections::HashMap;
use std::hash::Hash;
use std::hash::Hasher;
use std::marker::PhantomData;
use vstd::prelude::*;

verus! {

/// One live entry of a cache as contracts see it: the hash of its key, the
/// slot that stores its value, and the value.
pub struct CacheEntry<V> {
    pub hash: u64,
    pub slot: usize,
    pub value: V,
}

/// Whether some entry belongs to `hash`.
pub open spec fn holds<V>(entries: Seq<CacheEntry<V>>, hash: u64) -> bool {
    exists|i: int| 0 <= i < entries.len() && (#[trigger] entries[i]).hash == hash
}

/// The position of the entry that belongs to `hash`, counted from the least
/// recently used entry. Meaningful only when `holds(entries, hash)`.
pub open spec fn rank<V>(entries: Seq<CacheEntry<V>>, hash: u64) -> int {
    choose|i: int| 0 <= i < entries.len() && (#[trigger] entries[i]).hash == hash
}

/// The invariant of the entries of a cache with room for `capacity` entries:
/// the capacity is respected (and is a number of slots that a machine can
/// count), no hash and no slot occurs twice, and the slots in use are the
/// first `entries.len()` ones.
pub open spec fn valid_entries<V>(entries: Seq<CacheEntry<V>>, capacity: nat) -> bool {
    &&& capacity <= usize::MAX
    &&& entries.len() <= capacity
    &&& forall|i: int, j: int|
        0 <= i < j < entries.len() ==> (#[trigger] entries[i]).hash != (#[trigger] entries[j]).hash
    &&& forall|i: int, j: int|
        0 <= i < j < entries.len() ==> (#[trigger] entries[i]).slot != (#[trigger] entries[j]).slot
    &&& forall|i: int| 0 <= i < entries.len() ==> (#[trigger] entries[i]).slot < entries.len()
}

/// The entries after `value` was stored under `hash`.
///
/// A hash that is present keeps its slot, takes the new value and becomes the
/// most recently used entry. A new hash takes the next unused slot while there
/// is room, and otherwise the slot of the least recently used entry, which
/// leaves the cache.
pub open spec fn inserted<V>(
    entries: Seq<CacheEntry<V>>,
    capacity: nat,
    hash: u64,
    value: V,
) -> Seq<CacheEntry<V>> {
    if holds(entries, hash) {
        let i = rank(entries, hash);
        entries.remove(i).push(CacheEntry { hash, slot: entries[i].slot, value })
    } else if entries.len() < capacity {
        entries.push(CacheEntry { hash, slot: entries.len() as usize, value })
    } else {
        entries.drop_first().push(CacheEntry { hash, slot: entries[0].slot, value })
    }
}

/// The entries after a lookup of `hash`: an entry that is found becomes the
/// most recently used one, and a miss changes nothing.
pub open spec fn promoted<V>(entries: Seq<CacheEntry<V>>, hash: u64) -> Seq<CacheEntry<V>> {
    if holds(entries, hash) {
        let i = rank(entries, hash);
        entries.remove(i).push(entries[i])
    } else {
        entries
    }
}

/// The value stored under `hash`, if there is one.
pub open spec fn found<V>(entries: Seq<CacheEntry<V>>, hash: u64) -> Option<V> {
    if holds(entries, hash) {
        Some(entries[rank(entries, hash)].value)
    } else {
        None
    }
}

/// Links of one slot in the recency list.
#[derive(Clone, Copy, Debug)]
pub struct NodeInfo {
    pub prev: Option<usize>,
    pub next: Option<usize>,
}

/// This container can hold a fixed number of elements. When an insertion
/// exceeds the capacity, the least recently used entry is purged to make
/// place for the new one. Lookup, insertion and eviction all operate at
/// constant complexity.
pub struct CacheMap<K, V, const N: usize> where K: Hash + ?Sized {
    storage: Vec<V>,
    keys: Vec<u64>,
    node_info: Vec<NodeInfo>,
    lookup: HashMap<u64, usize>,
    marker: PhantomData<K>,
    first: Option<usize>,
    last: Option<usize>,
    order: Ghost<Seq<usize>>,
}

impl<K, V, const N: usize> View for CacheMap<K, V, N> where K: Hash + ?Sized {
    type V = Seq<CacheEntry<V>>;

    closed spec fn view(&self) -> Seq<CacheEntry<V>> {
        Seq::new(
            self.order@.len(),
            |i: int|
                CacheEntry {
                    hash: self.keys@[self.order@[i] as int],
                    slot: self.order@[i],
                    value: self.storage@[self.order@[i] as int],
                },
        )
    }
}

impl<K, V, const N: usize> CacheMap<K, V, N> where K: Hash + ?Sized, V: Default + Clone {
    /// The recency list is threaded through `node_info` exactly as `order`
    /// says, from `first` to `last`.
    spec fn linked(&self) -> bool {
        let order = self.order@;
        let n = order.len() as int;
        &&& n == 0 ==> self.first.is_none() && self.last.is_none()
        &&& n > 0 ==> self.first == Some(order[0]) && self.last == Some(order[n - 1])
        &&& forall|p: int|
            0 <= p < n ==> (#[trigger] self.node_info@[order[p] as int]).prev == (if p == 0 {
                None
            } else {
                Some(order[p - 1])
            })
        &&& forall|p: int|
            0 <= p < n ==> (#[trigger] self.node_info@[order[p] as int]).next == (if p == n - 1 {
                None
            } else {
                Some(order[p + 1])
            })
    }

    /// The slots in use are the first `order.len()` ones, each listed once.
    spec fn slots_listed(&self) -> bool {
        let order = self.order@;
        &&& order.len() <= N
        &&& forall|p: int| 0 <= p < order.len() ==> #[trigger] order[p] < order.len()
        &&& forall|p: int, q: int| 0 <= p < q < order.len() ==> order[p] != order[q]
    }

    /// The lookup table knows exactly the hashes of the live entries, each
    /// with its slot.
    spec fn indexed(&self) -> bool {
        let order = self.order@;
        &&& self.lookup@.len() == order.len()
        &&& forall|p: int|
            0 <= p < order.len() ==> self.lookup@.contains_key(
                #[trigger] self.keys@[order[p] as int],
            ) && self.lookup@[self.keys@[order[p] as int]] == order[p]
        &&& forall|h: u64| #[trigger]
            self.lookup@.contains_key(h) ==> exists|p: int|
                0 <= p < order.len() && #[trigger] order[p] == self.lookup@[h]
                    && self.keys@[order[p] as int] == h
    }

    /// The representation invariant.
    pub closed spec fn wf(&self) -> bool {
        &&& N > 0
        &&& self.storage@.len() == N
        &&& self.keys@.len() == N
        &&& self.node_info@.len() == N
        &&& self.slots_listed()
        &&& self.indexed()
        &&& self.linked()
        &&& forall|s: int|
            self.order@.len() <= s < N ==> call_ensures(V::default, (), #[trigger] self.storage@[s])
    }

    /// The content of every slot, in use or not.
    pub closed spec fn slots(&self) -> Seq<V> {
        self.storage@
    }

    /// Whether `slot` is on the recency list.
    spec fn lists(&self, slot: usize) -> bool {
        exists|p: int| 0 <= p < self.order@.len() && #[trigger] self.order@[p] == slot
    }

    /// The position of `slot` on the recency list.
    spec fn place(&self, slot: usize) -> int {
        choose|p: int| 0 <= p < self.order@.len() && #[trigger] self.order@[p] == slot
    }

    /// What the invariant means for the view and the slots.
    pub proof fn lemma_wf(&self)
        requires
            self.wf(),
        ensures
            N > 0,
            valid_entries(self@, N as nat),
            self.slots().len() == N,
            forall|i: int|
                0 <= i < self@.len() ==> self.slots()[(#[trigger] self@[i]).slot as int]
                    == self@[i].value,
            forall|s: int|
                self@.len() <= s < N ==> call_ensures(V::default, (), #[trigger] self.slots()[s]),
    {
        let order = self.order@;
        assert forall|i: int, j: int| 0 <= i < j < self@.len() implies (#[trigger] self@[i]).hash
            != (#[trigger] self@[j]).hash by {
            if self@[i].hash == self@[j].hash {
                assert(self.lookup@[self.keys@[order[i] as int]] == order[i]);
                assert(self.lookup@[self.keys@[order[j] as int]] == order[j]);
            }
        }
    }

    /// The lookup table and the view agree on `hash`.
    proof fn lemma_lookup(&self, hash: u64)
        requires
            self.wf(),
        ensures
            self.lookup@.contains_key(hash) <==> holds(self@, hash),
            self.lookup@.contains_key(hash) ==> {
                &&& self.lists(self.lookup@[hash])
                &&& self.place(self.lookup@[hash]) == rank(self@, hash)
                &&& self@[rank(self@, hash)].slot == self.lookup@[hash]
                &&& 0 <= rank(self@, hash) < self@.len()
            },
    {
        self.lemma_wf();
        let order = self.order@;
        if self.lookup@.contains_key(hash) {
            let p = choose|p: int|
                0 <= p < order.len() && #[trigger] order[p] == self.lookup@[hash]
                    && self.keys@[order[p] as int] == hash;
            assert(self@[p].hash == hash);
            assert(self.lists(self.lookup@[hash]));
            let r = rank(self@, hash);
            assert(self@[r].hash == hash);
            assert(r == p);
            let q = self.place(self.lookup@[hash]);
            assert(order[q] == order[p]);
            assert(q == p);
        }
        if holds(self@, hash) {
            let r = rank(self@, hash);
            assert(self@[r].hash == hash);
            assert(self.lookup@.contains_key(self.keys@[order[r] as int]));
        }
    }

    /// Creates an empty cache in which every slot holds the default value.
    pub fn new() -> (cache: Self)
        requires
            N > 0,
        ensures
            cache.wf(),
            cache@ == Seq::<CacheEntry<V>>::empty(),
    {
        let mut storage: Vec<V> = Vec::with_capacity(N);
        let mut keys: Vec<u64> = Vec::with_capacity(N);
        let mut node_info: Vec<NodeInfo> = Vec::with_capacity(N);
        let mut i: usize = 0;
        while i < N
            invariant
                i <= N,
                storage@.len() == i,
                keys@.len() == i,
                node_info@.len() == i,
                forall|s: int| 0 <= s < i ==> call_ensures(V::default, (), #[trigger] storage@[s]),
            decreases N - i,
        {
            storage.push(V::default());
            keys.push(0);
            node_info.push(NodeInfo { prev: None, next: None });
            i += 1;
        }
        let cache = CacheMap {
            storage,
            keys,
            node_info,
            lookup: HashMap::with_capacity(N),
            marker: PhantomData,
            first: None,
            last: None,
            order: Ghost(Seq::empty()),
        };
        proof {
            assert(cache@ =~= Seq::<CacheEntry<V>>::empty());
        }
        cache
    }
    /// Takes `index` out of the chain of links: its neighbours are linked to
    /// each other. The links of `index` itself stay as they were.
    fn remove_from_link_list(&mut self, index: usize)
        requires
            index < N,
            old(self).node_info@.len() == N,
            old(self).node_info@[index as int].next != Some(index),
            old(self).node_info@[index as int].prev != Some(index),
            old(self).node_info@[index as int].next matches Some(x) ==> x < N,
            old(self).node_info@[index as int].prev matches Some(x) ==> x < N,
        ensures
            final(self).storage == old(self).storage,
            final(self).keys == old(self).keys,
            final(self).lookup == old(self).lookup,
            final(self).first == old(self).first,
            final(self).last == old(self).last,
            final(self).order == old(self).order,
            final(self).node_info@.len() == N,
            forall|s: int|
                0 <= s < N ==> (#[trigger] final(self).node_info@[s]).prev == (if Some(s as usize)
                    == old(self).node_info@[index as int].next {
                    old(self).node_info@[index as int].prev
                } else {
                    old(self).node_info@[s].prev
                }),
            forall|s: int|
                0 <= s < N ==> (#[trigger] final(self).node_info@[s]).next == (if Some(s as usize)
                    == old(self).node_info@[index as int].prev {
                    old(self).node_info@[index as int].next
                } else {
                    old(self).node_info@[s].next
                }),
    {
        if let Some(next) = self.node_info[index].next {
            self.node_info[next].prev = self.node_info[index].prev;
        }
        if let Some(previous) = self.node_info[index].prev {
            self.node_info[previous].next = self.node_info[index].next;
        }
    }

    /// Makes the slot `i` the most recently used one.
    fn update_to_most_recent(&mut self, i: usize)
        requires
            old(self).wf(),
            old(self).lists(i),
        ensures
            final(self).wf(),
            final(self).order@ == old(self).order@.remove(old(self).place(i)).push(i),
            final(self).storage == old(self).storage,
            final(self).keys == old(self).keys,
            final(self).lookup == old(self).lookup,
    {
        let ghost order = self.order@;
        let ghost n = order.len() as int;
        let ghost p = self.place(i);
        let ghost moved = order.remove(p).push(i);
        if self.first == self.last {
            proof {
                assert(n == 1);
                assert(moved =~= order);
            }
            return ;
        }
        if self.first == Some(i) {
            self.first = self.node_info[i].next;
        }
        if Some(i) != self.last {
            assert(p < n - 1);
            assert(self.node_info@[order[p] as int].next == Some(order[p + 1]));
            let ghost before = self.node_info@;
            self.remove_from_link_list(i);
            self.node_info[i].next = None;
            self.node_info[i].prev = self.last;
            let tail = self.last.unwrap();
            self.node_info[tail].next = Some(i);
            self.last = Some(i);
            proof {
                self.order = Ghost(moved);
                assert forall|q: int| 0 <= q < n implies #[trigger] moved[q] == (if q < p {
                    order[q]
                } else if q < n - 1 {
                    order[q + 1]
                } else {
                    i
                }) by {}
                assert forall|q: int| 0 <= q < n implies (#[trigger] self.node_info@[moved[q] as int]).prev
                    == (if q == 0 {
                    None
                } else {
                    Some(moved[q - 1])
                }) by {
                    if q < p {
                        assert(before[order[q] as int].prev == (if q == 0 {
                            None
                        } else {
                            Some(order[q - 1])
                        }));
                    } else if q < n - 1 {
                        assert(before[order[q + 1] as int].prev == Some(order[q]));
                        assert(before[order[p] as int].prev == (if p == 0 {
                            None
                        } else {
                            Some(order[p - 1])
                        }));
                    }
                }
                assert forall|q: int| 0 <= q < n implies (#[trigger] self.node_info@[moved[q] as int]).next
                    == (if q == n - 1 {
                    None
                } else {
                    Some(moved[q + 1])
                }) by {
                    if q < p {
                        assert(before[order[q] as int].next == Some(order[q + 1]));
                        assert(before[order[p] as int].prev == (if p == 0 {
                            None
                        } else {
                            Some(order[p - 1])
                        }));
                    } else if q < n - 1 {
                        assert(before[order[q + 1] as int].next == (if q + 1 == n - 1 {
                            None
                        } else {
                            Some(order[q + 2])
                        }));
                        assert(before[order[p] as int].prev == (if p == 0 {
                            None
                        } else {
                            Some(order[p - 1])
                        }));
                    }
                }
                assert forall|q: int| 0 <= q < n implies self.lookup@.contains_key(
                    #[trigger] self.keys@[moved[q] as int],
                ) && self.lookup@[self.keys@[moved[q] as int]] == moved[q] by {
                    if q < p {
                        assert(self.lookup@.contains_key(self.keys@[order[q] as int]));
                    } else if q < n - 1 {
                        assert(self.lookup@.contains_key(self.keys@[order[q + 1] as int]));
                    } else {
                        assert(self.lookup@.contains_key(self.keys@[order[p] as int]));
                    }
                }
                assert forall|h: u64| #[trigger] self.lookup@.contains_key(h) implies exists|q: int|
                    0 <= q < moved.len() && #[trigger] moved[q] == self.lookup@[h]
                        && self.keys@[moved[q] as int] == h by {
                    let w = choose|w: int|
                        0 <= w < order.len() && #[trigger] order[w] == self.lookup@[h]
                            && self.keys@[order[w] as int] == h;
                    let q = if w < p {
                        w
                    } else if w == p {
                        n - 1
                    } else {
                        w - 1
                    };
                    assert(moved[q] == order[w]);
                }
            }
        } else {
            proof {
                assert(p == n - 1);
                assert(moved =~= order);
            }
        }
    }
    /// Stores `item` under the hash of `key` and makes it the most recently
    /// used entry. Which hash the key has is left to its `Hash` impl; the
    /// entries change as [`Self::insert_hashed`] says for that hash.
    pub fn insert(&mut self, key: &K, item: V) -> (stored: &V)
        requires
            old(self).wf(),
        ensures
            final(self).wf(),
            *stored == item,
            final(self)@.len() <= N,
            exists|hash: u64|
                {
                    &&& final(self)@ == #[trigger] inserted(old(self)@, N as nat, hash, item)
                    &&& final(self).slots() == old(self).slots().update(
                        final(self)@.last().slot as int,
                        item,
                    )
                },
    {
        let hash = calculate_hash(key);
        self.insert_hashed(hash, item)
    }

    /// Stores `item` under `hash` and makes it the most recently used entry.
    ///
    /// A hash that is present keeps its slot. A new hash takes the next unused
    /// slot while fewer than `N` entries are live, and the slot of the least
    /// recently used entry afterwards; that entry leaves the cache.
    pub fn insert_hashed(&mut self, hash: u64, item: V) -> (stored: &V)
        requires
            old(self).wf(),
        ensures
            final(self).wf(),
            *stored == item,
            final(self)@ == inserted(old(self)@, N as nat, hash, item),
            final(self)@.len() <= N,
            final(self).slots() == old(self).slots().update(final(self)@.last().slot as int, item),
    {
        proof {
            self.lemma_lookup(hash);
            self.lemma_wf();
        }
        let ghost entries = self@;
        let ghost order = self.order@;
        let ghost n = order.len() as int;
        let index;
        // if the key already exists, update its value and adjust node info
        if let Some(i) = self.lookup.get(&hash).cloned() {
            self.update_to_most_recent(i);
            index = i;
            proof {
                let r = rank(entries, hash);
                assert(self@ =~= entries.remove(r).push(
                    CacheEntry { hash, slot: i, value: self.storage@[i as int] },
                ));
            }
        } else if self.lookup.len() < N {
            index = self.lookup.len();
            match self.last {
                None => {
                    // first item added, also init first
                    self.first = Some(index);
                    self.node_info[index].prev = None;
                },
                Some(tail) => {
                    self.node_info[tail].next = Some(index);
                    self.node_info[index].prev = self.last;
                },
            }
            self.node_info[index].next = None;
            self.lookup.insert(hash, index);
            self.keys[index] = hash;
            self.last = Some(index);
            proof {
                let grown = order.push(index);
                self.order = Ghost(grown);
                assert forall|p: int| 0 <= p < grown.len() implies self.lookup@.contains_key(
                    #[trigger] self.keys@[grown[p] as int],
                ) && self.lookup@[self.keys@[grown[p] as int]] == grown[p] by {
                    if p < n {
                        assert(entries[p].hash != hash);
                        assert(order[p] != index);
                    }
                }
                assert forall|h: u64| #[trigger] self.lookup@.contains_key(h) implies exists|p: int|
                    0 <= p < grown.len() && #[trigger] grown[p] == self.lookup@[h]
                        && self.keys@[grown[p] as int] == h by {
                    if h == hash {
                        assert(grown[n] == index);
                    } else {
                        let w = choose|w: int|
                            0 <= w < order.len() && #[trigger] order[w] == old(self).lookup@[h]
                                && old(self).keys@[order[w] as int] == h;
                        assert(grown[w] == order[w]);
                    }
                }
                assert forall|p: int| 0 <= p < grown.len() implies (#[trigger] self.node_info@[grown[p] as int]).prev
                    == (if p == 0 {
                    None
                } else {
                    Some(grown[p - 1])
                }) by {
                    if p < n {
                        assert(old(self).node_info@[order[p] as int].prev == (if p == 0 {
                            None
                        } else {
                            Some(order[p - 1])
                        }));
                    }
                }
                assert forall|p: int| 0 <= p < grown.len() implies (#[trigger] self.node_info@[grown[p] as int]).next
                    == (if p == grown.len() - 1 {
                    None
                } else {
                    Some(grown[p + 1])
                }) by {
                    if p < n {
                        assert(old(self).node_info@[order[p] as int].next == (if p == n - 1 {
                            None
                        } else {
                            Some(order[p + 1])
                        }));
                    }
                }
                assert(self@ =~= entries.push(
                    CacheEntry { hash, slot: index, value: self.storage@[index as int] },
                ));
            }
        } else {
            let recycle_id = self.first.unwrap();
            proof {
                assert(order[0] == recycle_id);
                assert(self.lists(recycle_id));
                assert(self.place(recycle_id) == 0);
                assert(self.lookup@.contains_key(self.keys@[order[0] as int]));
            }
            self.update_to_most_recent(recycle_id);
            let evicted = self.keys[recycle_id];
            let ghost moved = self.order@;
            self.lookup.remove(&evicted);
            self.lookup.insert(hash, recycle_id);
            self.keys[recycle_id] = hash;
            index = recycle_id;
            proof {
                assert forall|q: int| 0 <= q < n implies #[trigger] moved[q] == (if q < n - 1 {
                    order[q + 1]
                } else {
                    recycle_id
                }) by {}
                assert forall|p: int| 0 <= p < moved.len() implies self.lookup@.contains_key(
                    #[trigger] self.keys@[moved[p] as int],
                ) && self.lookup@[self.keys@[moved[p] as int]] == moved[p] by {
                    if p < n - 1 {
                        assert(entries[p + 1].hash != entries[0].hash);
                        assert(old(self).lookup@.contains_key(
                            old(self).keys@[order[p + 1] as int],
                        ));
                    }
                }
                assert forall|h: u64| #[trigger] self.lookup@.contains_key(h) implies exists|p: int|
                    0 <= p < moved.len() && #[trigger] moved[p] == self.lookup@[h]
                        && self.keys@[moved[p] as int] == h by {
                    if h == hash {
                        assert(moved[n - 1] == recycle_id);
                    } else {
                        let w = choose|w: int|
                            0 <= w < order.len() && #[trigger] order[w] == old(self).lookup@[h]
                                && old(self).keys@[order[w] as int] == h;
                        assert(w != 0);
                        assert(moved[w - 1] == order[w]);
                    }
                }
                assert(self@ =~= entries.drop_first().push(
                    CacheEntry { hash, slot: recycle_id, value: self.storage@[recycle_id as int] },
                ));
            }
        }
        let ghost kept = self@;
        self.storage[index] = item;
        proof {
            self.lemma_wf();
            assert(self@ =~= kept.drop_last().push(
                CacheEntry { hash, slot: index, value: item },
            ));
            assert(self@ =~= inserted(entries, N as nat, hash, item));
        }
        &self.storage[index]
    }
    /// Looks up the value stored under the hash of `key`. A hit makes the
    /// entry the most recently used one. Which hash the key has is left to its
    /// `Hash` impl; the outcome is what [`Self::get_hashed`] gives for it.
    pub fn get(&mut self, key: &K) -> (value: Option<&V>)
        requires
            old(self).wf(),
        ensures
            final(self).wf(),
            final(self).slots() == old(self).slots(),
            exists|hash: u64|
                {
                    &&& final(self)@ == #[trigger] promoted(old(self)@, hash)
                    &&& match value {
                        Some(v) => found(old(self)@, hash) == Some(*v),
                        None => found(old(self)@, hash).is_none(),
                    }
                },
    {
        let hash = calculate_hash(key);
        self.get_hashed(hash)
    }

    /// Looks up the value stored under `hash`. A hit makes the entry the most
    /// recently used one; a miss changes nothing.
    pub fn get_hashed(&mut self, hash: u64) -> (value: Option<&V>)
        requires
            old(self).wf(),
        ensures
            final(self).wf(),
            final(self).slots() == old(self).slots(),
            final(self)@ == promoted(old(self)@, hash),
            match value {
                Some(v) => found(old(self)@, hash) == Some(*v),
                None => found(old(self)@, hash).is_none(),
            },
    {
        proof {
            self.lemma_lookup(hash);
            self.lemma_wf();
        }
        let ghost entries = self@;
        if let Some(i) = self.lookup.get(&hash).cloned() {
            self.update_to_most_recent(i);
            proof {
                let r = rank(entries, hash);
                assert(self@ =~= entries.remove(r).push(entries[r]));
            }
            return Some(&self.storage[i]);
        }
        None
    }

    /// Starts a traversal of the values from the least recently used entry to
    /// the most recently used one.
    pub fn iter(&self) -> (iterator: CacheMapIterator<'_, K, V, N>)
        requires
            self.wf(),
        ensures
            iterator.wf(),
            iterator.remaining() == self@,
    {
        let iterator = CacheMapIterator {
            cache: self,
            node_info_index: self.first,
            position: Ghost(0),
        };
        proof {
            assert(iterator.remaining() =~= self@);
        }
        iterator
    }

    /// The slot of the least recently used entry.
    pub fn first(&self) -> (slot: Option<usize>)
        requires
            self.wf(),
        ensures
            slot == (if self@.len() == 0 {
                None
            } else {
                Some(self@.first().slot)
            }),
    {
        self.first
    }

    /// The slot of the most recently used entry.
    pub fn last(&self) -> (slot: Option<usize>)
        requires
            self.wf(),
        ensures
            slot == (if self@.len() == 0 {
                None
            } else {
                Some(self@.last().slot)
            }),
    {
        self.last
    }

    /// The content of the slot `index`: the value of the entry that uses it,
    /// or what the slot was created with.
    pub fn slot(&self, index: usize) -> (value: &V)
        requires
            self.wf(),
            index < N,
        ensures
            *value == self.slots()[index as int],
    {
        &self.storage[index]
    }
}

/// A traversal of a cache in order of use. It borrows the cache, which
/// therefore cannot change while the traversal is alive.
pub struct CacheMapIterator<'a, K, V, const N: usize> where K: Hash + ?Sized {
    cache: &'a CacheMap<K, V, N>,
    node_info_index: Option<usize>,
    position: Ghost<int>,
}

impl<'a, K, V, const N: usize> CacheMapIterator<'a, K, V, N> where
    K: Hash + ?Sized,
    V: Default + Clone,
 {
    /// The representation invariant: the cursor stands on the slot of the
    /// first entry that is still to come.
    pub closed spec fn wf(&self) -> bool {
        let order = self.cache.order@;
        &&& self.cache.wf()
        &&& 0 <= self.position@ <= order.len()
        &&& self.node_info_index == (if self.position@ < order.len() {
            Some(order[self.position@])
        } else {
            None
        })
    }

    /// The entries that are still to come, least recently used first.
    pub closed spec fn remaining(&self) -> Seq<CacheEntry<V>> {
        self.cache@.skip(self.position@)
    }

    /// Hands out a clone of the next value, or `None` at the end.
    pub fn next(&mut self) -> (item: Option<V>)
        requires
            old(self).wf(),
        ensures
            final(self).wf(),
            old(self).remaining().len() == 0 ==> item.is_none() && final(self).remaining() == old(
                self,
            ).remaining(),
            old(self).remaining().len() > 0 ==> final(self).remaining() == old(
                self,
            ).remaining().drop_first() && match item {
                Some(v) => cloned(old(self).remaining().first().value, v),
                None => false,
            },
    {
        let index = self.node_info_index?;
        let item = self.cache.storage[index].clone();
        self.node_info_index = self.cache.node_info[index].next;
        proof {
            let position = self.position@;
            assert(self.cache.node_info@[self.cache.order@[position] as int].next == (if position
                == self.cache.order@.len() - 1 {
                None
            } else {
                Some(self.cache.order@[position + 1])
            }));
            self.position = Ghost(position + 1);
            assert(self.remaining() =~= old(self).remaining().drop_first());
        }
        Some(item)
    }
}

/// The hash of a key as the cache uses it: the key is written into a fresh
/// `DefaultHasher`, and this is what the hasher makes of it. Which number
/// that is depends on the `Hash` impl of the key, so nothing is promised of
/// it.
fn calculate_hash<T: Hash + ?Sized>(t: &T) -> u64 {
    let mut s = DefaultHasher::new();
    write_hash(t, &mut s);
    s.finish()
}

/// `Hash::hash` of std: writes `t` into `state`. What is written is up to
/// the `Hash` impl of `T`; nothing is claimed of it.
#[verifier::external_body]
fn write_hash<T: Hash + ?Sized>(t: &T, state: &mut DefaultHasher) {
    t.hash(state);
}

} // verus!
