//! Stable selection of the best few items of a sequence.
//!
//! An item type says when one item ranks strictly ahead of another. The best
//! `limit` items of a sequence are then what a stable sort by that relation
//! would put first: `best` defines them, `select_best` computes them in time
//! proportional to the length of the input times `limit`.

use vstd::prelude::*;

verus! {

/// Items that can be ranked against each other.
pub trait Ranked: Copy {
    /// Whether `self` ranks strictly ahead of `other`.
    spec fn ahead_of(self, other: Self) -> bool;

    /// Decides `ahead_of`.
    fn is_ahead_of(&self, other: &Self) -> (ahead: bool)
        ensures
            ahead == self.ahead_of(*other),
    ;

    /// Nothing ranks ahead of itself, and ranking ahead carries over a chain.
    proof fn lemma_strict_order(a: Self, b: Self, c: Self)
        ensures
            !a.ahead_of(a),
            a.ahead_of(b) && b.ahead_of(c) ==> a.ahead_of(c),
    ;
}

/// Where a new item goes in a ranked sequence: before the first item that it
/// ranks strictly ahead of, and at the end when there is none. An item that
/// ties with items already there goes behind them.
pub open spec fn slot<T: Ranked>(ranked: Seq<T>, item: T) -> int
    decreases ranked.len(),
{
    if ranked.len() == 0 {
        0
    } else {
        let earlier = slot(ranked.drop_last(), item);
        if earlier < ranked.len() - 1 {
            earlier
        } else if item.ahead_of(ranked.last()) {
            ranked.len() - 1
        } else {
            ranked.len() as int
        }
    }
}

/// A ranked sequence with one more item put in its slot, cut back to `limit`
/// items.
pub open spec fn place<T: Ranked>(ranked: Seq<T>, item: T, limit: nat) -> Seq<T> {
    let grown = ranked.insert(slot(ranked, item), item);
    if grown.len() > limit {
        grown.take(limit as int)
    } else {
        grown
    }
}

/// The best `limit` items of `items`, best first. Items that tie stay in the
/// order in which `items` holds them.
pub open spec fn best<T: Ranked>(items: Seq<T>, limit: nat) -> Seq<T>
    decreases items.len(),
{
    if items.len() == 0 {
        Seq::empty()
    } else {
        place(best(items.drop_last(), limit), items.last(), limit)
    }
}

/// No item of `ranked` ranks strictly ahead of one that stands before it.
pub open spec fn in_rank_order<T: Ranked>(ranked: Seq<T>) -> bool {
    forall|i: int, j: int| 0 <= i < j < ranked.len() ==> !(#[trigger] ranked[j]).ahead_of(#[trigger] ranked[i])
}

/// The slot lies within the sequence or at its end; the item ranks ahead of
/// nothing before its slot and ahead of the item at its slot.
pub proof fn lemma_slot<T: Ranked>(ranked: Seq<T>, item: T)
    ensures
        0 <= slot(ranked, item) <= ranked.len(),
        forall|i: int| 0 <= i < slot(ranked, item) ==> !item.ahead_of(#[trigger] ranked[i]),
        slot(ranked, item) < ranked.len() ==> item.ahead_of(ranked[slot(ranked, item)]),
    decreases ranked.len(),
{
    if ranked.len() > 0 {
        lemma_slot(ranked.drop_last(), item);
        assert forall|i: int| 0 <= i < slot(ranked, item) implies !item.ahead_of(#[trigger] ranked[i]) by {
            if i < ranked.len() - 1 {
                assert(ranked[i] == ranked.drop_last()[i]);
            }
        }
    }
}

/// A slot found inside a prefix is the slot in the whole sequence.
proof fn lemma_slot_settled<T: Ranked>(ranked: Seq<T>, item: T, upto: int)
    requires
        0 <= upto <= ranked.len(),
        slot(ranked.take(upto), item) < upto,
    ensures
        slot(ranked, item) == slot(ranked.take(upto), item),
    decreases ranked.len() - upto,
{
    if upto < ranked.len() {
        assert(ranked.take(upto + 1).drop_last() =~= ranked.take(upto));
        lemma_slot_settled(ranked, item, upto + 1);
    } else {
        assert(ranked.take(upto) =~= ranked);
    }
}

/// `best` keeps as many items as there are, up to `limit`.
pub proof fn lemma_best_len<T: Ranked>(items: Seq<T>, limit: nat)
    ensures
        best(items, limit).len() == if items.len() <= limit { items.len() } else { limit },
    decreases items.len(),
{
    if items.len() > 0 {
        lemma_best_len(items.drop_last(), limit);
        lemma_slot(best(items.drop_last(), limit), items.last());
    }
}

/// Every item of `best` is an item of the input.
pub proof fn lemma_best_members<T: Ranked>(items: Seq<T>, limit: nat)
    ensures
        forall|i: int| 0 <= i < best(items, limit).len() ==> items.contains(#[trigger] best(items, limit)[i]),
    decreases items.len(),
{
    if items.len() > 0 {
        let shorter = items.drop_last();
        let before = best(shorter, limit);
        lemma_best_members(shorter, limit);
        lemma_slot(before, items.last());
        assert forall|i: int| 0 <= i < best(items, limit).len() implies items.contains(
            #[trigger] best(items, limit)[i],
        ) by {}
    }
}

/// Where no item occurs twice in the input, none occurs twice in `best`.
pub proof fn lemma_best_distinct<T: Ranked>(items: Seq<T>, limit: nat)
    requires
        items.no_duplicates(),
    ensures
        best(items, limit).no_duplicates(),
    decreases items.len(),
{
    if items.len() > 0 {
        let shorter = items.drop_last();
        let before = best(shorter, limit);
        lemma_best_distinct(shorter, limit);
        lemma_best_members(shorter, limit);
        lemma_slot(before, items.last());
        let p = slot(before, items.last());
        let grown = before.insert(p, items.last());
        assert forall|i: int| 0 <= i < before.len() implies before[i] != items.last() by {}
        assert forall|i: int, j: int| 0 <= i < grown.len() && 0 <= j < grown.len() && i != j implies grown[i]
            != grown[j] by {}
    }
}

/// `best` is in rank order.
pub proof fn lemma_best_in_rank_order<T: Ranked>(items: Seq<T>, limit: nat)
    ensures
        in_rank_order(best(items, limit)),
    decreases items.len(),
{
    if items.len() > 0 {
        let item = items.last();
        let before = best(items.drop_last(), limit);
        lemma_best_in_rank_order(items.drop_last(), limit);
        lemma_slot(before, item);
        let p = slot(before, item);
        let grown = before.insert(p, item);
        assert forall|i: int, j: int| 0 <= i < j < grown.len() implies !(#[trigger] grown[j]).ahead_of(
            #[trigger] grown[i],
        ) by {
            if i == p && grown[j].ahead_of(item) {
                T::lemma_strict_order(grown[j], item, before[p]);
                T::lemma_strict_order(before[p], before[p], before[p]);
            }
        }
    }
}

/// Whatever `best` leaves out does not rank ahead of anything it keeps.
pub proof fn lemma_best_leaves_out_the_rest<T: Ranked>(items: Seq<T>, limit: nat, left_out: int)
    requires
        0 <= left_out < items.len(),
        !best(items, limit).contains(items[left_out]),
    ensures
        forall|i: int|
            0 <= i < best(items, limit).len() ==> !items[left_out].ahead_of(#[trigger] best(items, limit)[i]),
    decreases items.len(),
{
    let shorter = items.drop_last();
    let before = best(shorter, limit);
    let item = items.last();
    let p = slot(before, item);
    let kept = best(items, limit);
    let x = items[left_out];
    lemma_slot(before, item);
    lemma_best_in_rank_order(shorter, limit);
    lemma_best_len(shorter, limit);
    lemma_best_len(items, limit);
    assert forall|i: int| 0 <= i < kept.len() implies !x.ahead_of(#[trigger] kept[i]) by {
        if left_out == items.len() - 1 {
            // the new item itself fell off the end
            if p < kept.len() {
                assert(kept[p] == item);
            }
        } else {
            if before.contains(x) {
                // it was kept before and was pushed out by the new item
                let w = choose|w: int| 0 <= w < before.len() && before[w] == x;
                let moved = if w < p { w } else { w + 1 };
                if moved < kept.len() {
                    assert(kept[moved] == x);
                }
                if i == p && x.ahead_of(item) {
                    T::lemma_strict_order(x, item, before[p]);
                    T::lemma_strict_order(x, x, x);
                }
            } else {
                lemma_best_leaves_out_the_rest(shorter, limit, left_out);
                if i == p && x.ahead_of(item) {
                    if p < before.len() {
                        T::lemma_strict_order(x, item, before[p]);
                    } else {
                        // the new item is kept at the very end, so nothing was cut
                        lemma_best_keeps_all(shorter, limit, left_out);
                    }
                }
            }
        }
    }
}

/// While `best` holds fewer than `limit` items it has left nothing out.
proof fn lemma_best_keeps_all<T: Ranked>(items: Seq<T>, limit: nat, index: int)
    requires
        0 <= index < items.len(),
        best(items, limit).len() < limit,
    ensures
        best(items, limit).contains(items[index]),
    decreases items.len(),
{
    let shorter = items.drop_last();
    let before = best(shorter, limit);
    let item = items.last();
    let p = slot(before, item);
    let grown = before.insert(p, item);
    lemma_slot(before, item);
    lemma_best_len(shorter, limit);
    lemma_best_len(items, limit);
    if index == items.len() - 1 {
        assert(grown[p] == item);
    } else {
        lemma_best_keeps_all(shorter, limit, index);
        let w = choose|w: int| 0 <= w < before.len() && before[w] == shorter[index];
        let moved = if w < p { w } else { w + 1 };
        assert(grown[moved] == items[index]);
    }
}

/// Where the limit leaves room for every item, `best` leaves none out.
pub proof fn lemma_best_of_few<T: Ranked>(items: Seq<T>, limit: nat, index: int)
    requires
        items.len() <= limit,
        0 <= index < items.len(),
    ensures
        best(items, limit).contains(items[index]),
    decreases items.len(),
{
    let shorter = items.drop_last();
    let before = best(shorter, limit);
    let item = items.last();
    let p = slot(before, item);
    let grown = before.insert(p, item);
    lemma_slot(before, item);
    lemma_best_len(shorter, limit);
    if index == items.len() - 1 {
        assert(grown[p] == item);
    } else {
        lemma_best_of_few(shorter, limit, index);
        let w = choose|w: int| 0 <= w < before.len() && before[w] == shorter[index];
        let moved = if w < p {
            w
        } else {
            w + 1
        };
        assert(grown[moved] == items[index]);
    }
}

/// Finds the slot of `item` in `ranked`.
fn find_slot<T: Ranked>(ranked: &Vec<T>, item: &T) -> (p: usize)
    ensures
        p == slot(ranked@, *item),
{
    let mut p: usize = 0;
    while p < ranked.len() && !item.is_ahead_of(&ranked[p])
        invariant
            p <= ranked.len(),
            slot(ranked@.take(p as int), *item) == p,
        decreases ranked.len() - p,
    {
        proof {
            assert(ranked@.take(p + 1).drop_last() =~= ranked@.take(p as int));
        }
        p += 1;
    }
    proof {
        if p < ranked.len() {
            assert(ranked@.take(p + 1).drop_last() =~= ranked@.take(p as int));
            lemma_slot_settled(ranked@, *item, p + 1);
        } else {
            assert(ranked@.take(p as int) =~= ranked@);
        }
    }
    p
}

/// Selects the best `limit` items of `items`, best first.
pub fn select_best<T: Ranked>(items: &Vec<T>, limit: usize) -> (chosen: Vec<T>)
    ensures
        chosen@ == best(items@, limit as nat),
{
    let mut chosen: Vec<T> = Vec::new();
    let mut i: usize = 0;
    while i < items.len()
        invariant
            i <= items.len(),
            chosen@ == best(items@.take(i as int), limit as nat),
            chosen.len() <= limit,
        decreases items.len() - i,
    {
        let item = items[i];
        let p = find_slot(&chosen, &item);
        proof {
            assert(items@.take(i + 1).drop_last() =~= items@.take(i as int));
            lemma_slot(chosen@, item);
        }
        if p < limit {
            chosen.insert(p, item);
            if chosen.len() > limit {
                chosen.truncate(limit);
            }
        }
        i += 1;
    }
    proof {
        assert(items@.take(i as int) =~= items@);
    }
    chosen
}

} // verus!
