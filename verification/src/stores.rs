//! The two concurrent hash maps of the core, seen through contracts: the map
//! of semantic facts and the map of cached embeddings.
//!
//! Both are `dashmap::DashMap`s keyed by `String`. Nothing in this file is
//! proved: each function states what the `DashMap` method it calls does to the
//! pairs that the map holds, when one caller at a time uses the map. A
//! `String` key is compared and hashed by its characters.

use vstd::prelude::*;
use dashmap::DashMap;

verus! {

#[verifier::external_type_specification]
#[verifier::external_body]
#[verifier::reject_recursive_types(K)]
#[verifier::reject_recursive_types(V)]
#[verifier::reject_recursive_types(S)]
pub struct ExDashMap<K, V, S>(DashMap<K, V, S>);

/// A map holds finitely many pairs, and `count` is their number.
pub open spec fn is_count_of<K, V>(count: usize, pairs: Map<K, V>) -> bool {
    pairs.dom().finite() && pairs.len() == count
}

/// The key-value pairs that a map of facts holds.
pub uninterp spec fn fact_pairs(map: DashMap<String, String>) -> Map<Seq<char>, Seq<char>>;

/// `DashMap::new` makes a map that holds nothing.
#[verifier::external_body]
pub(crate) fn facts_new() -> (facts: DashMap<String, String>)
    ensures
        fact_pairs(facts).dom() =~= Set::empty(),
{
    DashMap::new()
}

/// `DashMap::insert` sets the value of one key, replacing what the key had,
/// and leaves every other pair alone.
#[verifier::external_body]
pub(crate) fn facts_insert(facts: &mut DashMap<String, String>, key: String, value: String)
    ensures
        fact_pairs(*final(facts)) == fact_pairs(*old(facts)).insert(key@, value@),
{
    facts.insert(key, value);
}

/// `DashMap::get` finds the value of a key; the value is copied out.
#[verifier::external_body]
pub(crate) fn facts_get(facts: &DashMap<String, String>, key: &str) -> (value: Option<String>)
    ensures
        match value {
            Some(v) => fact_pairs(*facts).contains_key(key@) && fact_pairs(*facts)[key@] == v@,
            None => !fact_pairs(*facts).contains_key(key@),
        },
{
    facts.get(key).map(|entry| entry.value().clone())
}

/// `DashMap::len` counts the pairs, of which there are finitely many.
#[verifier::external_body]
pub(crate) fn facts_len(facts: &DashMap<String, String>) -> (count: usize)
    ensures
        is_count_of(count, fact_pairs(*facts)),
{
    facts.len()
}

/// `DashMap::clear` removes every pair.
#[verifier::external_body]
pub(crate) fn facts_clear(facts: &mut DashMap<String, String>)
    ensures
        fact_pairs(*final(facts)).dom() =~= Set::empty(),
{
    facts.clear();
}

/// `DashMap::iter` visits every pair once, in an order that is not fixed;
/// the pairs are copied out in the order of the visit, so there are as many
/// of them as the map holds.
#[verifier::external_body]
pub(crate) fn facts_entries(facts: &DashMap<String, String>) -> (entries: Vec<(String, String)>)
    ensures
        is_count_of(entries.len(), fact_pairs(*facts)),
        forall|i: int, j: int|
            0 <= i < j < entries.len() ==> (#[trigger] entries[i]).0@ != (#[trigger] entries[j]).0@,
        forall|i: int|
            0 <= i < entries.len() ==> fact_pairs(*facts).contains_key((#[trigger] entries[i]).0@)
                && fact_pairs(*facts)[entries[i].0@] == entries[i].1@,
        forall|key: Seq<char>| #[trigger]
            fact_pairs(*facts).contains_key(key) ==> exists|i: int|
                0 <= i < entries.len() && (#[trigger] entries[i]).0@ == key,
{
    facts.iter().map(|entry| (entry.key().clone(), entry.value().clone())).collect()
}

/// The slots that a map of cached embeddings holds: under each key a vector
/// of 32-bit words and the number of times the key was used.
pub uninterp spec fn cache_slots(map: DashMap<String, (Vec<u32>, u64)>) -> Map<Seq<char>, (Seq<u32>, u64)>;

/// `DashMap::new` makes a map that holds nothing.
#[verifier::external_body]
pub(crate) fn slots_new() -> (slots: DashMap<String, (Vec<u32>, u64)>)
    ensures
        cache_slots(slots).dom() =~= Set::empty(),
{
    DashMap::new()
}

/// `DashMap::len` counts the slots, of which there are finitely many.
#[verifier::external_body]
pub(crate) fn slots_len(slots: &DashMap<String, (Vec<u32>, u64)>) -> (count: usize)
    ensures
        is_count_of(count, cache_slots(*slots)),
{
    slots.len()
}

/// `DashMap::contains_key` says whether a key has a slot.
#[verifier::external_body]
pub(crate) fn slots_contains(slots: &DashMap<String, (Vec<u32>, u64)>, key: &str) -> (present: bool)
    ensures
        present == cache_slots(*slots).contains_key(key@),
{
    slots.contains_key(key)
}

/// `DashMap::insert` sets the slot of one key, replacing what the key had,
/// and leaves every other slot alone.
#[verifier::external_body]
pub(crate) fn slots_insert(
    slots: &mut DashMap<String, (Vec<u32>, u64)>,
    key: String,
    vector: Vec<u32>,
    uses: u64,
)
    ensures
        cache_slots(*final(slots)) == cache_slots(*old(slots)).insert(key@, (vector@, uses)),
{
    slots.insert(key, (vector, uses));
}

/// `DashMap::remove` takes the slot of one key out of the map and hands it
/// back; every other slot stays.
#[verifier::external_body]
pub(crate) fn slots_remove(slots: &mut DashMap<String, (Vec<u32>, u64)>, key: &str) -> (removed: Option<
    (Vec<u32>, u64),
>)
    ensures
        cache_slots(*final(slots)) == cache_slots(*old(slots)).remove(key@),
        match removed {
            Some(slot) => cache_slots(*old(slots)).contains_key(key@) && cache_slots(*old(slots))[key@]
                == (slot.0@, slot.1),
            None => !cache_slots(*old(slots)).contains_key(key@),
        },
{
    slots.remove(key).map(|pair| pair.1)
}

/// `DashMap::clear` removes every slot.
#[verifier::external_body]
pub(crate) fn slots_clear(slots: &mut DashMap<String, (Vec<u32>, u64)>)
    ensures
        cache_slots(*final(slots)).dom() =~= Set::empty(),
{
    slots.clear();
}

/// `DashMap::iter` visits every slot once, in an order that is not fixed;
/// each key is copied out with its use count, in the order of the visit, so
/// there are as many of them as the map holds.
#[verifier::external_body]
pub(crate) fn slots_uses(slots: &DashMap<String, (Vec<u32>, u64)>) -> (uses: Vec<(String, u64)>)
    ensures
        is_count_of(uses.len(), cache_slots(*slots)),
        forall|i: int, j: int| 0 <= i < j < uses.len() ==> (#[trigger] uses[i]).0@ != (#[trigger] uses[j]).0@,
        forall|i: int|
            0 <= i < uses.len() ==> cache_slots(*slots).contains_key((#[trigger] uses[i]).0@) && cache_slots(
                *slots,
            )[uses[i].0@].1 == uses[i].1,
        forall|key: Seq<char>| #[trigger]
            cache_slots(*slots).contains_key(key) ==> exists|i: int|
                0 <= i < uses.len() && (#[trigger] uses[i]).0@ == key,
{
    slots.iter().map(|entry| (entry.key().clone(), entry.value().1)).collect()
}

/// `DashMap::iter` visits every slot once, in an order that is not fixed;
/// each key is copied out with its vector, in the order of the visit, so
/// there are as many of them as the map holds.
#[verifier::external_body]
pub(crate) fn slots_vectors(slots: &DashMap<String, (Vec<u32>, u64)>) -> (vectors: Vec<(String, Vec<u32>)>)
    ensures
        is_count_of(vectors.len(), cache_slots(*slots)),
        forall|i: int, j: int|
            0 <= i < j < vectors.len() ==> (#[trigger] vectors[i]).0@ != (#[trigger] vectors[j]).0@,
        forall|i: int|
            0 <= i < vectors.len() ==> cache_slots(*slots).contains_key((#[trigger] vectors[i]).0@)
                && cache_slots(*slots)[vectors[i].0@].0 == vectors[i].1@,
        forall|key: Seq<char>| #[trigger]
            cache_slots(*slots).contains_key(key) ==> exists|i: int|
                0 <= i < vectors.len() && (#[trigger] vectors[i]).0@ == key,
{
    slots.iter().map(|entry| (entry.key().clone(), entry.value().0.clone())).collect()
}

} // verus!
