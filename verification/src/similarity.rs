//! The ranking step of a similarity search: of the documents that were
//! compared with a query, the few that are most similar.
//!
//! A similarity is held as the bit pattern of a single-precision number.
//! Patterns are ordered as the numbers they stand for, with negative zero
//! below positive zero and the patterns that stand for no number at the two
//! ends, so that any two patterns compare.

use vstd::prelude::*;
use crate::ranking::{
    best,
    lemma_best_in_rank_order,
    lemma_best_leaves_out_the_rest,
    lemma_best_len,
    lemma_best_members,
    select_best,
    Ranked,
};

verus! {

/// A document that was compared with the query: its index among the
/// documents and the bit pattern of its similarity.
#[derive(Clone, Copy, Debug)]
pub struct Similar {
    pub index: usize,
    pub bits: u32,
}

/// A number that grows with the number a bit pattern stands for: a pattern
/// with the sign bit set is turned over, any other gets the sign bit.
pub open spec fn order_key(bits: u32) -> u32 {
    if bits & 0x8000_0000 != 0 {
        !bits
    } else {
        bits | 0x8000_0000
    }
}

/// Computes `order_key`.
pub fn sort_key(bits: u32) -> (key: u32)
    ensures
        key == order_key(bits),
{
    if bits & 0x8000_0000 != 0 {
        !bits
    } else {
        bits | 0x8000_0000
    }
}

impl Ranked for Similar {
    /// `self` is strictly more similar than `other`.
    open spec fn ahead_of(self, other: Self) -> bool {
        order_key(self.bits) > order_key(other.bits)
    }

    fn is_ahead_of(&self, other: &Self) -> (ahead: bool) {
        sort_key(self.bits) > sort_key(other.bits)
    }

    proof fn lemma_strict_order(a: Self, b: Self, c: Self) {
    }
}

/// The `top_k` most similar documents, most similar first. Of two documents
/// of equal similarity the one with the lower place in `scored` comes first.
pub open spec fn most_similar(scored: Seq<Similar>, top_k: nat) -> Seq<Similar> {
    best(scored, top_k)
}

/// The result of a search holds as many documents as were asked for, or all
/// that were compared if there are fewer; each is one of the documents that
/// were compared; and their similarities never rise from one to the next.
pub proof fn lemma_most_similar(scored: Seq<Similar>, top_k: nat)
    ensures
        most_similar(scored, top_k).len() == if scored.len() <= top_k {
            scored.len()
        } else {
            top_k
        },
        forall|i: int|
            0 <= i < most_similar(scored, top_k).len() ==> scored.contains(#[trigger] most_similar(scored, top_k)[i]),
        forall|i: int, j: int|
            0 <= i < j < most_similar(scored, top_k).len() ==> order_key(
                (#[trigger] most_similar(scored, top_k)[i]).bits,
            ) >= order_key((#[trigger] most_similar(scored, top_k)[j]).bits),
{
    lemma_best_len(scored, top_k);
    lemma_best_members(scored, top_k);
    lemma_best_in_rank_order(scored, top_k);
    let chosen = most_similar(scored, top_k);
    assert forall|i: int, j: int| 0 <= i < j < chosen.len() implies order_key((#[trigger] chosen[i]).bits)
        >= order_key((#[trigger] chosen[j]).bits) by {}
}

/// No document that the result leaves out is more similar than one that it
/// holds.
pub proof fn lemma_rest_is_no_more_similar(scored: Seq<Similar>, top_k: nat, left_out: int)
    requires
        0 <= left_out < scored.len(),
        !most_similar(scored, top_k).contains(scored[left_out]),
    ensures
        forall|i: int|
            0 <= i < most_similar(scored, top_k).len() ==> order_key(scored[left_out].bits) <= order_key(
                (#[trigger] most_similar(scored, top_k)[i]).bits,
            ),
{
    lemma_best_leaves_out_the_rest(scored, top_k, left_out);
    let chosen = most_similar(scored, top_k);
    assert forall|i: int| 0 <= i < chosen.len() implies order_key(scored[left_out].bits) <= order_key(
        (#[trigger] chosen[i]).bits,
    ) by {}
}

/// Picks the `top_k` most similar of the documents that were compared.
pub fn rank_similar(scored: &Vec<Similar>, top_k: usize) -> (chosen: Vec<Similar>)
    ensures
        chosen@ == most_similar(scored@, top_k as nat),
{
    select_best(scored, top_k)
}

} // verus!
