//! A bounded cache of embedding vectors, keyed by the hash of the text that
//! was embedded.
//!
//! A vector is held as its 32-bit words, one per component: the bit pattern
//! of each single-precision number. Each key has a use count, set to 1 when
//! the vector is stored and raised by every hit; when the cache is full, the
//! keys with the lowest counts leave.

use vstd::prelude::*;
use vstd::string::*;
use dashmap::DashMap;
use crate::hashing::{text_hash, text_key};
use crate::ranking::{
    lemma_best_distinct,
    lemma_best_leaves_out_the_rest,
    lemma_best_len,
    lemma_best_members,
    select_best,
    Ranked,
};
use crate::stores::{
    cache_slots,
    slots_clear,
    slots_contains,
    slots_insert,
    slots_len,
    slots_new,
    slots_remove,
    slots_uses,
    slots_vectors,
};

verus! {

/// What a cache holds.
pub struct CacheView {
    /// Under each key the vector and the use count.
    pub slots: Map<Seq<char>, (Seq<u32>, u64)>,
    /// How many lookups found a vector.
    pub hits: u64,
    /// How many lookups found none.
    pub misses: u64,
}

/// The cache.
pub struct EmbeddingCache {
    slots: DashMap<String, (Vec<u32>, u64)>,
    max_size: usize,
    hits: u64,
    misses: u64,
}

impl View for EmbeddingCache {
    type V = CacheView;

    closed spec fn view(&self) -> CacheView {
        CacheView { slots: cache_slots(self.slots), hits: self.hits, misses: self.misses }
    }
}

/// A key as eviction sees it: where it stands in the listing of the cache
/// and how often it was used.
#[derive(Clone, Copy, Debug)]
pub struct Used {
    pub position: usize,
    pub uses: u64,
}

impl Ranked for Used {
    /// `self` was used strictly less often than `other`.
    open spec fn ahead_of(self, other: Self) -> bool {
        self.uses < other.uses
    }

    fn is_ahead_of(&self, other: &Self) -> (ahead: bool) {
        self.uses < other.uses
    }

    proof fn lemma_strict_order(a: Self, b: Self, c: Self) {
    }
}

/// How many keys leave at once: a tenth of the capacity, and at least one.
pub open spec fn evicted_at_once(capacity: usize) -> nat {
    if capacity / 10 < 1 {
        1
    } else {
        (capacity / 10) as nat
    }
}

/// A counter raised by one; it wraps around at 64 bits.
pub open spec fn counted(counter: u64) -> u64 {
    if counter == u64::MAX {
        0
    } else {
        (counter + 1) as u64
    }
}

/// A use count raised by one; it stays at the highest value once there.
pub open spec fn used_again(uses: u64) -> u64 {
    if uses == u64::MAX {
        uses
    } else {
        (uses + 1) as u64
    }
}

/// The vector that a lookup of `text` finds.
pub open spec fn found(cache: CacheView, text: Seq<char>) -> Option<Seq<u32>> {
    if cache.slots.contains_key(text_key(text)) {
        Some(cache.slots[text_key(text)].0)
    } else {
        None
    }
}

/// The size, the hits and the misses of a cache.
pub open spec fn stats_of(cache: CacheView) -> (nat, u64, u64) {
    (cache.slots.len(), cache.hits, cache.misses)
}

/// What an eviction does: `after` holds some of the slots of `before`,
/// unchanged; as many are gone as leave at once, or all if there were no
/// more; and no key that is gone was used more often than one that stayed.
pub open spec fn evicted(before: CacheView, after: CacheView, capacity: usize) -> bool {
    &&& after.slots.submap_of(before.slots)
    &&& after.slots.dom().finite()
    &&& before.slots.dom().finite()
    &&& after.slots.len() == if before.slots.len() <= evicted_at_once(capacity) {
        0
    } else {
        before.slots.len() - evicted_at_once(capacity)
    }
    &&& forall|gone: Seq<char>, kept: Seq<char>|
        before.slots.contains_key(gone) && !after.slots.contains_key(gone) && #[trigger] after.slots.contains_key(kept)
            ==> (#[trigger] before.slots[gone]).1 <= before.slots[kept].1
    &&& after.hits == before.hits
    &&& after.misses == before.misses
}

/// What storing a vector does: if the cache was full, an eviction comes
/// first; then the key of the text holds the vector with a use count of 1.
pub open spec fn stored(
    before: CacheView,
    after: CacheView,
    capacity: usize,
    text: Seq<char>,
    vector: Seq<u32>,
) -> bool {
    &&& before.slots.dom().finite()
    &&& after.hits == before.hits
    &&& after.misses == before.misses
    &&& if before.slots.len() >= capacity {
        exists|between: CacheView| #[trigger]
            evicted(before, between, capacity) && after.slots == between.slots.insert(text_key(text), (vector, 1u64))
    } else {
        after.slots == before.slots.insert(text_key(text), (vector, 1u64))
    }
}

/// A vector that was stored is found again, equal to what was stored.
pub proof fn lemma_stored_is_found(
    before: CacheView,
    after: CacheView,
    capacity: usize,
    text: Seq<char>,
    vector: Seq<u32>,
)
    requires
        stored(before, after, capacity, text, vector),
    ensures
        found(after, text) == Some(vector),
{
}

/// An eviction from a full cache of a capacity above ten leaves something
/// behind.
pub proof fn lemma_eviction_leaves_some(before: CacheView, after: CacheView, capacity: usize)
    requires
        evicted(before, after, capacity),
        capacity > 10,
        before.slots.len() >= capacity,
    ensures
        after.slots.len() > 0,
        after.slots.len() == before.slots.len() - evicted_at_once(capacity),
{
}

/// After storing a vector the cache holds no more keys than before, or
/// one more if it was not full.
pub proof fn lemma_stored_size(before: CacheView, after: CacheView, capacity: usize, text: Seq<char>, vector: Seq<u32>)
    requires
        stored(before, after, capacity, text, vector),
    ensures
        after.slots.dom().finite(),
        before.slots.len() >= capacity && before.slots.len() > 0 ==> after.slots.len() <= before.slots.len(),
        before.slots.len() < capacity ==> after.slots.len() <= before.slots.len() + 1,
{
    if before.slots.len() >= capacity {
        let between = choose|between: CacheView| #[trigger]
            evicted(before, between, capacity) && after.slots == between.slots.insert(text_key(text), (vector, 1u64));
        assert(after.slots.dom() =~= between.slots.dom().insert(text_key(text)));
    } else {
        assert(after.slots.dom() =~= before.slots.dom().insert(text_key(text)));
    }
}

/// Copies a vector.
fn copy_words(words: &Vec<u32>) -> (copy: Vec<u32>)
    ensures
        copy@ == words@,
{
    let mut copy: Vec<u32> = Vec::new();
    let mut i: usize = 0;
    while i < words.len()
        invariant
            i <= words.len(),
            copy@ == words@.take(i as int),
        decreases words.len() - i,
    {
        copy.push(words[i]);
        i += 1;
    }
    copy
}

impl EmbeddingCache {
    /// How many keys the cache is meant to hold at most.
    pub closed spec fn capacity(&self) -> usize {
        self.max_size
    }

    /// An empty cache.
    pub fn new(max_size: usize) -> (cache: Self)
        ensures
            cache.capacity() == max_size,
            cache@.slots == Map::<Seq<char>, (Seq<u32>, u64)>::empty(),
            cache@.hits == 0,
            cache@.misses == 0,
    {
        let slots = slots_new();
        EmbeddingCache { slots, max_size, hits: 0, misses: 0 }
    }

    /// Looks a text up. A hit hands out a copy of the vector, raises the use
    /// count of the key and counts as a hit; anything else counts as a miss.
    pub fn get(&mut self, text: &str) -> (vector: Option<Vec<u32>>)
        ensures
            final(self).capacity() == old(self).capacity(),
            match vector {
                Some(v) => {
                    &&& found(old(self)@, text@) == Some(v@)
                    &&& final(self)@.slots == old(self)@.slots.insert(
                        text_key(text@),
                        (v@, used_again(old(self)@.slots[text_key(text@)].1)),
                    )
                    &&& final(self)@.hits == counted(old(self)@.hits)
                    &&& final(self)@.misses == old(self)@.misses
                },
                None => {
                    &&& found(old(self)@, text@) is None
                    &&& final(self)@.slots == old(self)@.slots
                    &&& final(self)@.hits == old(self)@.hits
                    &&& final(self)@.misses == counted(old(self)@.misses)
                },
            },
    {
        let key = text_hash(text);
        match slots_remove(&mut self.slots, key.as_str()) {
            Some((stored, uses)) => {
                let copy = copy_words(&stored);
                let again = if uses == u64::MAX {
                    uses
                } else {
                    uses + 1
                };
                slots_insert(&mut self.slots, key, stored, again);
                self.hits = self.hits.wrapping_add(1);
                Some(copy)
            },
            None => {
                self.misses = self.misses.wrapping_add(1);
                None
            },
        }
    }

    /// Stores the vector of a text. If the cache already holds as many keys
    /// as its capacity, an eviction comes first, whether or not the key is
    /// new.
    pub fn put(&mut self, text: &str, embedding: Vec<u32>)
        ensures
            final(self).capacity() == old(self).capacity(),
            stored(old(self)@, final(self)@, old(self).capacity(), text@, embedding@),
    {
        let key = text_hash(text);
        if slots_len(&self.slots) >= self.max_size {
            self.evict_lru();
            let ghost between = self@;
            slots_insert(&mut self.slots, key, embedding, 1);
            assert(evicted(old(self)@, between, old(self).capacity()) && self@.slots == between.slots.insert(
                text_key(text@),
                (embedding@, 1u64),
            ));
        } else {
            slots_insert(&mut self.slots, key, embedding, 1);
        }
    }

    /// Whether the text has a vector in the cache.
    pub fn contains(&self, text: &str) -> (present: bool)
        ensures
            present == (found(self@, text@) is Some),
    {
        let key = text_hash(text);
        slots_contains(&self.slots, key.as_str())
    }

    /// How many keys the cache holds.
    pub fn len(&self) -> (size: usize)
        ensures
            self@.slots.dom().finite(),
            size == stats_of(self@).0,
    {
        slots_len(&self.slots)
    }

    /// The size of the cache, its hits and its misses.
    pub fn get_stats(&self) -> (stats: (usize, u64, u64))
        ensures
            self@.slots.dom().finite(),
            stats.0 == stats_of(self@).0,
            stats.1 == stats_of(self@).1,
            stats.2 == stats_of(self@).2,
    {
        (slots_len(&self.slots), self.hits, self.misses)
    }

    /// Drops every key and sets both counters to zero.
    pub fn clear(&mut self)
        ensures
            final(self).capacity() == old(self).capacity(),
            final(self)@.slots == Map::<Seq<char>, (Seq<u32>, u64)>::empty(),
            stats_of(final(self)@) == (0nat, 0u64, 0u64),
    {
        slots_clear(&mut self.slots);
        self.hits = 0;
        self.misses = 0;
    }

    /// Evicts once: the keys that were used least leave, a tenth of the
    /// capacity and at least one. Which of several keys with the same count
    /// leaves is not fixed.
    pub fn evict_lru(&mut self)
        ensures
            final(self).capacity() == old(self).capacity(),
            evicted(old(self)@, final(self)@, old(self).capacity()),
    {
        let count = if self.max_size / 10 < 1 {
            1
        } else {
            self.max_size / 10
        };
        let entries = slots_uses(&self.slots);
        let ghost before = cache_slots(self.slots);
        let mut listed: Vec<Used> = Vec::new();
        let mut i: usize = 0;
        while i < entries.len()
            invariant
                i <= entries.len(),
                listed.len() == i,
                forall|k: int| 0 <= k < i ==> (#[trigger] listed[k]).position == k && listed[k].uses == entries[k].1,
            decreases entries.len() - i,
        {
            listed.push(Used { position: i, uses: entries[i].1 });
            i += 1;
        }
        let chosen = select_best(&listed, count);
        proof {
            lemma_best_len(listed@, count as nat);
            lemma_best_members(listed@, count as nat);
            assert forall|a: int, b: int| 0 <= a < listed.len() && 0 <= b < listed.len() && a != b implies listed[a]
                != listed[b] by {}
            lemma_best_distinct(listed@, count as nat);
            assert forall|m: int| 0 <= m < chosen.len() implies (#[trigger] chosen[m]).position < entries.len()
                && listed[chosen[m].position as int] == chosen[m] by {
                let a = choose|a: int| 0 <= a < listed.len() && listed[a] == chosen[m];
                assert(listed[a].position == a);
            }
        }
        let mut j: usize = 0;
        while j < chosen.len()
            invariant
                j <= chosen.len(),
                chosen.len() <= entries.len(),
                entries.len() == before.len(),
                before.dom().finite(),
                chosen@.no_duplicates(),
                forall|m: int|
                    0 <= m < chosen.len() ==> (#[trigger] chosen[m]).position < entries.len()
                        && listed[chosen[m].position as int] == chosen[m],
                forall|a: int, b: int|
                    0 <= a < b < entries.len() ==> (#[trigger] entries[a]).0@ != (#[trigger] entries[b]).0@,
                forall|a: int| 0 <= a < entries.len() ==> before.contains_key((#[trigger] entries[a]).0@),
                forall|key: Seq<char>| #[trigger]
                    before.contains_key(key) ==> exists|a: int|
                        0 <= a < entries.len() && (#[trigger] entries[a]).0@ == key,
                listed.len() == entries.len(),
                forall|k: int|
                    0 <= k < listed.len() ==> (#[trigger] listed[k]).position == k && listed[k].uses == entries[k].1,
                forall|a: int| 0 <= a < entries.len() ==> before[(#[trigger] entries[a]).0@].1 == entries[a].1,
                cache_slots(self.slots).dom().finite(),
                cache_slots(self.slots).len() == before.len() - j,
                forall|key: Seq<char>|
                    cache_slots(self.slots).contains_key(key) <==> before.contains_key(key) && !exists|m: int|
                        0 <= m < j && (#[trigger] entries[chosen[m].position as int]).0@ == key,
                forall|key: Seq<char>| #[trigger]
                    cache_slots(self.slots).contains_key(key) ==> cache_slots(self.slots)[key] == before[key],
                self.max_size == old(self).max_size,
                self.hits == old(self).hits,
                self.misses == old(self).misses,
            decreases chosen.len() - j,
        {
            let position = chosen[j].position;
            let ghost current = cache_slots(self.slots);
            let ghost key = entries[position as int].0@;
            proof {
                // the key was not removed before: no key is listed twice, no position chosen twice
                if exists|m: int| 0 <= m < j && (#[trigger] entries[chosen[m].position as int]).0@ == key {
                    let m = choose|m: int| 0 <= m < j && (#[trigger] entries[chosen[m].position as int]).0@ == key;
                    assert(chosen[m].position != position);
                }
                assert(current.contains_key(key));
                current.lemma_remove_key_len(key);
            }
            slots_remove(&mut self.slots, entries[position].0.as_str());
            proof {
                assert forall|k: Seq<char>|
                    cache_slots(self.slots).contains_key(k) <==> before.contains_key(k) && !exists|m: int|
                        0 <= m < j + 1 && (#[trigger] entries[chosen[m].position as int]).0@ == k by {}
            }
            j += 1;
        }
        proof {
            let after = cache_slots(self.slots);
            assert forall|gone: Seq<char>, kept: Seq<char>|
                before.contains_key(gone) && !after.contains_key(gone) && #[trigger] after.contains_key(
                    kept,
                ) implies (#[trigger] before[gone]).1 <= before[kept].1 by {
                assert(before.contains_key(kept));
                let a = choose|a: int| 0 <= a < entries.len() && (#[trigger] entries[a]).0@ == kept;
                lemma_best_leaves_out_the_rest(listed@, count as nat, a);
            }
        }
    }

    /// A copy of every key with its vector, in no particular order.
    pub fn snapshot(&self) -> (vectors: Vec<(String, Vec<u32>)>)
        ensures
            self@.slots.dom().finite(),
            vectors.len() == self@.slots.len(),
            forall|i: int, j: int|
                0 <= i < j < vectors.len() ==> (#[trigger] vectors[i]).0@ != (#[trigger] vectors[j]).0@,
            forall|i: int|
                0 <= i < vectors.len() ==> self@.slots.contains_key((#[trigger] vectors[i]).0@)
                    && self@.slots[vectors[i].0@].0 == vectors[i].1@,
            forall|key: Seq<char>| #[trigger]
                self@.slots.contains_key(key) ==> exists|i: int|
                    0 <= i < vectors.len() && (#[trigger] vectors[i]).0@ == key,
    {
        slots_vectors(&self.slots)
    }

    /// Puts the given keys and vectors into the cache, each with a use count
    /// of zero, so that they are the first to leave until they are used. Of
    /// two entries with the same key the later one counts.
    pub fn restore(&mut self, entries: Vec<(String, Vec<u32>)>)
        ensures
            final(self).capacity() == old(self).capacity(),
            final(self)@.slots == restored(old(self)@.slots, entries@),
            final(self)@.hits == old(self)@.hits,
            final(self)@.misses == old(self)@.misses,
    {
        let ghost all = entries@;
        for entry in rest: entries
            invariant
                rest.seq() == all,
                cache_slots(self.slots) == restored(old(self)@.slots, all.take(rest.index() as int)),
                self.max_size == old(self).max_size,
                self.hits == old(self).hits,
                self.misses == old(self).misses,
        {
            let ghost done = rest.index() as int;
            proof {
                assert(all.take(done + 1).drop_last() =~= all.take(done));
            }
            let (key, vector) = entry;
            slots_insert(&mut self.slots, key, vector, 0);
        }
        proof {
            assert(all.take(all.len() as int) =~= all);
        }
    }
}

/// The slots after a list of keys and vectors was put in, each with a use
/// count of zero.
pub open spec fn restored(slots: Map<Seq<char>, (Seq<u32>, u64)>, entries: Seq<(String, Vec<u32>)>) -> Map<
    Seq<char>,
    (Seq<u32>, u64),
>
    decreases entries.len(),
{
    if entries.len() == 0 {
        slots
    } else {
        restored(slots, entries.drop_last()).insert(entries.last().0@, (entries.last().1@, 0u64))
    }
}

} // verus!
