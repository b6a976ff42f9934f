//! Which episodes leave episodic memory when it is over its limit.
//!
//! An episode is worth its importance divided by its age in hours, where an age
//! under one hour counts as one hour and an episode whose timestamp cannot be
//! read counts as one hour old. The episodes of least worth leave; of two
//! episodes of equal worth the one stored first leaves first. Worth is compared
//! exactly, as a ratio of integers.

use vstd::prelude::*;
use crate::clock::{elapsed_seconds, seconds_between, Instant};
use crate::episode::{Episode, EpisodeView};
use crate::keyword_index::count_of;
use crate::ranking::{best, lemma_best_distinct, lemma_best_len, lemma_best_members, select_best, Ranked};

verus! {

/// Seconds in an hour.
pub open spec fn hour() -> int {
    3600
}

/// An episode as eviction sees it: where it stands, how important it is, and
/// how many seconds old it is.
#[derive(Clone, Copy, Debug)]
pub struct Aged {
    pub position: usize,
    pub importance: i32,
    pub age: u64,
}

/// The age that an episode's worth is divided by, in seconds: its age, or one
/// hour if it is younger than that.
pub open spec fn counted_age(age: u64) -> int {
    if age < hour() {
        hour()
    } else {
        age as int
    }
}

impl Ranked for Aged {
    /// `self` is worth strictly less than `other`: importance over age,
    /// compared by cross-multiplying.
    open spec fn ahead_of(self, other: Self) -> bool {
        self.importance * counted_age(other.age) < other.importance * counted_age(self.age)
    }

    fn is_ahead_of(&self, other: &Self) -> (ahead: bool) {
        let own_age: i128 = if self.age < 3600 {
            3600
        } else {
            self.age as i128
        };
        let other_age: i128 = if other.age < 3600 {
            3600
        } else {
            other.age as i128
        };
        assert(-0x8000_0000 * 0x1_0000_0000_0000_0000 <= self.importance * other_age <= 0x8000_0000
            * 0x1_0000_0000_0000_0000) by (nonlinear_arith)
            requires
                -0x8000_0000 <= self.importance <= 0x8000_0000,
                0 <= other_age <= 0x1_0000_0000_0000_0000,
        ;
        assert(-0x8000_0000 * 0x1_0000_0000_0000_0000 <= other.importance * own_age <= 0x8000_0000
            * 0x1_0000_0000_0000_0000) by (nonlinear_arith)
            requires
                -0x8000_0000 <= other.importance <= 0x8000_0000,
                0 <= own_age <= 0x1_0000_0000_0000_0000,
        ;
        (self.importance as i128) * other_age < (other.importance as i128) * own_age
    }

    proof fn lemma_strict_order(a: Self, b: Self, c: Self) {
        let (p, x) = (a.importance as int, counted_age(a.age));
        let (q, y) = (b.importance as int, counted_age(b.age));
        let (r, z) = (c.importance as int, counted_age(c.age));
        assert(p * y < q * x && q * z < r * y ==> p * z < r * x) by (nonlinear_arith)
            requires
                x > 0,
                y > 0,
                z > 0,
        ;
    }
}

/// The age of an episode in seconds, seen from `now`: an hour where the
/// timestamp could not be read, nothing where it lies in the future, and at
/// most what 64 bits hold.
pub open spec fn age_at(now: Instant, stamp: Option<Instant>) -> u64 {
    match stamp {
        None => 3600,
        Some(then) => {
            let elapsed = seconds_between(now, then);
            if elapsed < 0 {
                0
            } else if elapsed > u64::MAX {
                u64::MAX
            } else {
                elapsed as u64
            }
        },
    }
}

/// The instant of the episode at `position`; none where `stamps` is too
/// short to say.
pub open spec fn stamp_at(stamps: Seq<Option<Instant>>, position: int) -> Option<Instant> {
    if 0 <= position < stamps.len() {
        stamps[position]
    } else {
        None
    }
}

/// The episodes as eviction sees them at `now`, given the instant that each
/// timestamp denotes.
pub open spec fn aged(episodes: Seq<EpisodeView>, now: Instant, stamps: Seq<Option<Instant>>) -> Seq<Aged> {
    Seq::new(
        episodes.len(),
        |i: int|
            Aged {
                position: i as usize,
                importance: episodes[i].importance,
                age: age_at(now, stamp_at(stamps, i)),
            },
    )
}

/// How many episodes leave at once: a tenth of the limit, and at least one.
pub open spec fn eviction_count(limit: usize) -> nat {
    if limit / 10 < 1 {
        1
    } else {
        (limit / 10) as nat
    }
}

/// The episodes that leave: the `count` of least worth, least first.
pub open spec fn victims(episodes: Seq<EpisodeView>, now: Instant, stamps: Seq<Option<Instant>>, count: nat) -> Seq<
    Aged,
> {
    best(aged(episodes, now, stamps), count)
}

/// For each position, whether the episode there leaves.
pub open spec fn doomed(episodes: Seq<EpisodeView>, now: Instant, stamps: Seq<Option<Instant>>, count: nat) -> Seq<
    bool,
> {
    Seq::new(
        episodes.len(),
        |i: int|
            exists|k: int|
                0 <= k < victims(episodes, now, stamps, count).len() && (#[trigger] victims(
                    episodes,
                    now,
                    stamps,
                    count,
                )[k]).position == i,
    )
}

/// The items from position `from` on that are not marked, in order.
pub open spec fn kept_from<T>(items: Seq<T>, marks: Seq<bool>, from: int) -> Seq<T>
    decreases items.len() - from,
{
    if from < 0 || from >= items.len() {
        Seq::empty()
    } else if from < marks.len() && marks[from] {
        kept_from(items, marks, from + 1)
    } else {
        seq![items[from]] + kept_from(items, marks, from + 1)
    }
}

/// The items that are not marked, in order.
pub open spec fn without<T>(items: Seq<T>, marks: Seq<bool>) -> Seq<T> {
    kept_from(items, marks, 0)
}

/// Marking one more position marks one more.
proof fn lemma_count_marked(marks: Seq<bool>, position: int)
    requires
        0 <= position < marks.len(),
        !marks[position],
    ensures
        count_of(marks.update(position, true), true) == count_of(marks, true) + 1,
    decreases marks.len(),
{
    let updated = marks.update(position, true);
    if position == marks.len() - 1 {
        assert(updated.drop_last() =~= marks.drop_last());
    } else {
        assert(updated.drop_last() =~= marks.drop_last().update(position, true));
        lemma_count_marked(marks.drop_last(), position);
    }
}

/// Nothing is marked in a sequence of `false`.
proof fn lemma_count_unmarked(marks: Seq<bool>)
    requires
        forall|i: int| 0 <= i < marks.len() ==> !marks[i],
    ensures
        count_of(marks, true) == 0,
    decreases marks.len(),
{
    if marks.len() > 0 {
        lemma_count_unmarked(marks.drop_last());
    }
}

/// What is kept from a position on, counted.
proof fn lemma_kept_len<T>(items: Seq<T>, marks: Seq<bool>, from: int)
    requires
        marks.len() == items.len(),
        0 <= from <= items.len(),
    ensures
        kept_from(items, marks, from).len() == (items.len() - from) - count_of(marks.skip(from), true),
    decreases items.len() - from,
{
    if from < items.len() {
        lemma_kept_len(items, marks, from + 1);
        lemma_count_skip(marks, from);
    }
}

/// Counting from one position earlier counts one more item.
proof fn lemma_count_skip(marks: Seq<bool>, from: int)
    requires
        0 <= from < marks.len(),
    ensures
        count_of(marks.skip(from), true) == count_of(marks.skip(from + 1), true) + if marks[from] {
            1nat
        } else {
            0nat
        },
    decreases marks.len() - from,
{
    let tail = marks.skip(from);
    let shorter = marks.skip(from + 1);
    if from == marks.len() - 1 {
        assert(tail.drop_last() =~= shorter);
    } else {
        assert(tail.drop_last() =~= marks.drop_last().skip(from));
        assert(shorter.drop_last() =~= marks.drop_last().skip(from + 1));
        lemma_count_skip(marks.drop_last(), from);
    }
}

/// As many items stay as are not marked.
pub proof fn lemma_without_len<T>(items: Seq<T>, marks: Seq<bool>)
    requires
        marks.len() == items.len(),
    ensures
        without(items, marks).len() == items.len() - count_of(marks, true),
{
    lemma_kept_len(items, marks, 0);
    assert(marks.skip(0) =~= marks);
}

/// The victims are episodes, each at most once.
pub proof fn lemma_victims_are_distinct_episodes(
    episodes: Seq<EpisodeView>,
    now: Instant,
    stamps: Seq<Option<Instant>>,
    count: nat,
)
    requires
        episodes.len() <= usize::MAX,
    ensures
        victims(episodes, now, stamps, count).len() == if episodes.len() <= count {
            episodes.len()
        } else {
            count
        },
        forall|k: int|
            0 <= k < victims(episodes, now, stamps, count).len() ==> (#[trigger] victims(
                episodes,
                now,
                stamps,
                count,
            )[k]).position < episodes.len(),
        forall|k: int, m: int|
            0 <= k < m < victims(episodes, now, stamps, count).len() ==> (#[trigger] victims(
                episodes,
                now,
                stamps,
                count,
            )[k]).position != (#[trigger] victims(episodes, now, stamps, count)[m]).position,
{
    let all = aged(episodes, now, stamps);
    let chosen = victims(episodes, now, stamps, count);
    lemma_best_len(all, count);
    lemma_best_members(all, count);
    assert forall|i: int, j: int| 0 <= i < all.len() && 0 <= j < all.len() && i != j implies all[i] != all[j] by {}
    lemma_best_distinct(all, count);
    assert forall|k: int| 0 <= k < chosen.len() implies (#[trigger] chosen[k]).position < episodes.len()
        && all[chosen[k].position as int] == chosen[k] by {}
}

/// Builds the list that eviction ranks.
fn age_all(episodes: &Vec<Episode>, now: Instant, stamps: &Vec<Option<Instant>>) -> (all: Vec<Aged>)
    ensures
        all@ == aged(crate::episode::episode_views(episodes@), now, stamps@),
{
    let mut all: Vec<Aged> = Vec::new();
    let mut i: usize = 0;
    while i < episodes.len()
        invariant
            i <= episodes.len(),
            all.len() == i,
            forall|k: int|
                0 <= k < i ==> all[k] == aged(crate::episode::episode_views(episodes@), now, stamps@)[k],
        decreases episodes.len() - i,
    {
        let age: u64 = if i < stamps.len() {
            match stamps[i] {
                Some(then) => {
                    let elapsed = elapsed_seconds(now, then);
                    if elapsed < 0 {
                        0
                    } else if elapsed > u64::MAX as i128 {
                        u64::MAX
                    } else {
                        elapsed as u64
                    }
                },
                None => 3600,
            }
        } else {
            3600
        };
        all.push(Aged { position: i, importance: episodes[i].importance, age });
        i += 1;
    }
    all
}

/// Marks the episodes that leave.
pub fn mark_victims(episodes: &Vec<Episode>, now: Instant, stamps: &Vec<Option<Instant>>, count: usize) -> (marks:
    Vec<bool>)
    ensures
        marks@ == doomed(crate::episode::episode_views(episodes@), now, stamps@, count as nat),
        count_of(marks@, true) == if episodes.len() <= count {
            episodes.len()
        } else {
            count
        },
{
    let ghost views = crate::episode::episode_views(episodes@);
    let ghost chosen_spec = victims(views, now, stamps@, count as nat);
    let all = age_all(episodes, now, stamps);
    let chosen = select_best(&all, count);
    proof {
        lemma_victims_are_distinct_episodes(views, now, stamps@, count as nat);
    }
    let mut marks: Vec<bool> = Vec::new();
    let mut i: usize = 0;
    while i < episodes.len()
        invariant
            i <= episodes.len(),
            marks.len() == i,
            forall|k: int| 0 <= k < i ==> !marks[k],
        decreases episodes.len() - i,
    {
        marks.push(false);
        i += 1;
    }
    proof {
        lemma_count_unmarked(marks@);
    }
    let mut k: usize = 0;
    while k < chosen.len()
        invariant
            k <= chosen.len(),
            chosen@ == chosen_spec,
            marks.len() == episodes.len(),
            count_of(marks@, true) == k,
            forall|m: int| 0 <= m < chosen_spec.len() ==> (#[trigger] chosen_spec[m]).position < episodes.len(),
            forall|m: int, n: int|
                0 <= m < n < chosen_spec.len() ==> (#[trigger] chosen_spec[m]).position != (
                #[trigger] chosen_spec[n]).position,
            forall|p: int|
                0 <= p < marks.len() ==> (marks[p] <==> exists|m: int|
                    0 <= m < k && (#[trigger] chosen_spec[m]).position == p),
        decreases chosen.len() - k,
    {
        let position = chosen[k].position;
        let ghost before = marks@;
        proof {
            if before[position as int] {
                let m = choose|m: int| 0 <= m < k && (#[trigger] chosen_spec[m]).position == position;
                assert(chosen_spec[m].position != chosen_spec[k as int].position);
            }
            lemma_count_marked(before, position as int);
        }
        marks.set(position, true);
        proof {
            assert forall|p: int| 0 <= p < marks.len() implies (marks[p] <==> exists|m: int|
                0 <= m < k + 1 && (#[trigger] chosen_spec[m]).position == p) by {}
        }
        k += 1;
    }
    marks
}

/// Removes the marked items, going from the last position to the first, so
/// that no removal moves an item that is still to be looked at.
pub fn remove_marked(episodes: &mut Vec<Episode>, marks: &Vec<bool>)
    ensures
        crate::episode::episode_views(final(episodes)@) == without(
            crate::episode::episode_views(old(episodes)@),
            marks@,
        ),
{
    let ghost views = crate::episode::episode_views(old(episodes)@);
    let mut i: usize = episodes.len();
    proof {
        assert(crate::episode::episode_views(episodes@) =~= views.take(i as int) + kept_from(
            views,
            marks@,
            i as int,
        ));
    }
    while i > 0
        invariant
            i <= views.len(),
            episodes.len() >= i,
            crate::episode::episode_views(episodes@) == views.take(i as int) + kept_from(views, marks@, i as int),
        decreases i,
    {
        i -= 1;
        let ghost before = crate::episode::episode_views(episodes@);
        if i < marks.len() && marks[i] {
            episodes.remove(i);
            proof {
                assert(crate::episode::episode_views(episodes@) =~= before.remove(i as int));
            }
        }
    }
}

} // verus!
