//! Which episodes answer a query, and in what order.
//!
//! An episode matches a query once for every pair of a query term and an equal
//! term of the episode. Its score is the number of matches times its
//! importance, kept within 32 bits. The episodes with at least one match are
//! ranked by score, highest first; of two with equal scores the one stored
//! first comes first.

use vstd::prelude::*;
use crate::episode::{documents, episode_terms, episode_views, Episode, EpisodeView};
use crate::keyword_index::{
    count_of,
    index_of,
    lemma_occurs_counted,
    lemma_postings_count,
    lemma_postings_in_range,
    postings,
    KeywordIndex,
};
use crate::ranking::{best, lemma_best_members, lemma_best_of_few, Ranked};

verus! {

/// An episode that matches a query: where it stands and what it scores.
#[derive(Clone, Copy, Debug)]
pub struct Scored {
    pub position: usize,
    pub score: i32,
}

impl Ranked for Scored {
    /// `self` scores strictly more than `other`.
    open spec fn ahead_of(self, other: Self) -> bool {
        self.score > other.score
    }

    fn is_ahead_of(&self, other: &Self) -> (ahead: bool) {
        self.score > other.score
    }

    proof fn lemma_strict_order(a: Self, b: Self, c: Self) {
    }
}

/// How often the terms of a query match the terms of a document: for each
/// query term, the number of times it occurs in the document.
pub open spec fn hits(query: Seq<u64>, doc: Seq<u64>) -> nat
    decreases query.len(),
{
    if query.len() == 0 {
        0
    } else {
        hits(query.drop_last(), doc) + count_of(doc, query.last())
    }
}

/// The score of an episode with that many matches: matches times
/// importance, or the nearest 32-bit value where the product has none.
pub open spec fn score_of(matches: nat, importance: i32) -> i32 {
    let product = matches * importance;
    if product > i32::MAX {
        i32::MAX
    } else if product < i32::MIN {
        i32::MIN
    } else {
        product as i32
    }
}

/// The episodes that match a query at least once, in the order in which
/// they are stored, each with its score.
pub open spec fn candidates(episodes: Seq<EpisodeView>, query: Seq<u64>) -> Seq<Scored>
    decreases episodes.len(),
{
    if episodes.len() == 0 {
        Seq::empty()
    } else {
        let before = candidates(episodes.drop_last(), query);
        let matches = hits(query, episode_terms(episodes.last()));
        if matches > 0 {
            before.push(
                Scored {
                    position: (episodes.len() - 1) as usize,
                    score: score_of(matches, episodes.last().importance),
                },
            )
        } else {
            before
        }
    }
}

/// The best `limit` matches of a query, best first.
pub open spec fn ranked_matches(episodes: Seq<EpisodeView>, query: Seq<u64>, limit: nat) -> Seq<Scored> {
    best(candidates(episodes, query), limit)
}

/// Every candidate is an episode that matches at least once, with the
/// score that its matches and its importance give.
pub proof fn lemma_candidates_match(episodes: Seq<EpisodeView>, query: Seq<u64>, k: int)
    requires
        episodes.len() <= usize::MAX,
        0 <= k < candidates(episodes, query).len(),
    ensures
        candidates(episodes, query)[k].position < episodes.len(),
        hits(query, episode_terms(episodes[candidates(episodes, query)[k].position as int])) > 0,
        candidates(episodes, query)[k].score == score_of(
            hits(query, episode_terms(episodes[candidates(episodes, query)[k].position as int])),
            episodes[candidates(episodes, query)[k].position as int].importance,
        ),
    decreases episodes.len(),
{
    let before = candidates(episodes.drop_last(), query);
    if k < before.len() {
        lemma_candidates_match(episodes.drop_last(), query, k);
    }
}

/// A query and a document that share a term match.
pub proof fn lemma_shared_term_hits(query: Seq<u64>, doc: Seq<u64>, term: u64)
    requires
        query.contains(term),
        doc.contains(term),
    ensures
        hits(query, doc) > 0,
    decreases query.len(),
{
    if query.last() == term {
        let at = choose|at: int| 0 <= at < doc.len() && doc[at] == term;
        lemma_occurs_counted(doc, at);
    } else {
        let at = choose|at: int| 0 <= at < query.len() && query[at] == term;
        assert(query.drop_last()[at] == term);
        lemma_shared_term_hits(query.drop_last(), doc, term);
    }
}

/// Every episode that matches the query is a candidate.
pub proof fn lemma_match_is_candidate(episodes: Seq<EpisodeView>, query: Seq<u64>, position: int)
    requires
        episodes.len() <= usize::MAX,
        0 <= position < episodes.len(),
        hits(query, episode_terms(episodes[position])) > 0,
    ensures
        exists|k: int|
            0 <= k < candidates(episodes, query).len() && (#[trigger] candidates(episodes, query)[k]).position
                == position,
    decreases episodes.len(),
{
    let all = candidates(episodes, query);
    let before = candidates(episodes.drop_last(), query);
    if position == episodes.len() - 1 {
        assert(all[all.len() - 1].position == position);
    } else {
        lemma_match_is_candidate(episodes.drop_last(), query, position);
        let k = choose|k: int| 0 <= k < before.len() && (#[trigger] before[k]).position == position;
        assert(all[k] == before[k]);
    }
}

/// Where the result has room for every candidate, every episode that
/// matches the query is returned.
pub proof fn lemma_match_is_returned(episodes: Seq<EpisodeView>, query: Seq<u64>, limit: nat, position: int)
    requires
        episodes.len() <= usize::MAX,
        0 <= position < episodes.len(),
        hits(query, episode_terms(episodes[position])) > 0,
        candidates(episodes, query).len() <= limit,
    ensures
        exists|k: int|
            0 <= k < ranked_matches(episodes, query, limit).len() && (#[trigger] ranked_matches(
                episodes,
                query,
                limit,
            )[k]).position == position,
{
    let all = candidates(episodes, query);
    lemma_match_is_candidate(episodes, query, position);
    let at = choose|at: int| 0 <= at < all.len() && (#[trigger] all[at]).position == position;
    lemma_best_of_few(all, limit, at);
    let chosen = ranked_matches(episodes, query, limit);
    let k = choose|k: int| 0 <= k < chosen.len() && chosen[k] == all[at];
    assert(chosen[k].position == position);
}

/// An episode is returned only if it matches the query at least once, and its
/// score is the number of its matches times its importance, kept within 32
/// bits.
pub proof fn lemma_ranked_matches_match(episodes: Seq<EpisodeView>, query: Seq<u64>, limit: nat, k: int)
    requires
        episodes.len() <= usize::MAX,
        0 <= k < ranked_matches(episodes, query, limit).len(),
    ensures
        ranked_matches(episodes, query, limit)[k].position < episodes.len(),
        hits(query, episode_terms(episodes[ranked_matches(episodes, query, limit)[k].position as int])) > 0,
        ranked_matches(episodes, query, limit)[k].score == score_of(
            hits(query, episode_terms(episodes[ranked_matches(episodes, query, limit)[k].position as int])),
            episodes[ranked_matches(episodes, query, limit)[k].position as int].importance,
        ),
{
    let all = candidates(episodes, query);
    lemma_best_members(all, limit);
    let chosen = ranked_matches(episodes, query, limit)[k];
    let i = choose|i: int| 0 <= i < all.len() && all[i] == chosen;
    lemma_candidates_match(episodes, query, i);
}

/// Computes `score_of`.
pub fn score(matches: u128, importance: i32) -> (value: i32)
    ensures
        value == score_of(matches as nat, importance),
{
    if importance == 0 || matches == 0 {
        assert(matches * importance == 0) by (nonlinear_arith)
            requires
                importance == 0 || matches == 0,
        ;
        0
    } else if matches > 0x8000_0000 {
        if importance > 0 {
            assert(matches * importance > i32::MAX) by (nonlinear_arith)
                requires
                    matches > 0x8000_0000,
                    importance >= 1,
            ;
            i32::MAX
        } else {
            assert(matches * importance < i32::MIN) by (nonlinear_arith)
                requires
                    matches > 0x8000_0000,
                    importance <= -1,
            ;
            i32::MIN
        }
    } else {
        assert(-0x8000_0000 * 0x8000_0000 <= matches * importance <= 0x8000_0000 * 0x8000_0000)
            by (nonlinear_arith)
            requires
                0 <= matches <= 0x8000_0000,
                -0x8000_0000 <= importance <= 0x8000_0000,
        ;
        let product: i64 = (matches as i64) * (importance as i64);
        if product > i32::MAX as i64 {
            i32::MAX
        } else if product < i32::MIN as i64 {
            i32::MIN
        } else {
            product as i32
        }
    }
}

/// Counts, for every episode, how often the query matches it, by looking
/// each query term up in the index.
fn count_hits(index: &KeywordIndex, episodes: &Vec<Episode>, query: &Vec<u64>) -> (counts: Vec<u128>)
    requires
        index@ == index_of(documents(episode_views(episodes@))),
    ensures
        counts.len() == episodes.len(),
        forall|i: int|
            0 <= i < episodes.len() ==> counts[i] == hits(query@, #[trigger] episode_terms(episodes[i]@)),
{
    let ghost docs = documents(episode_views(episodes@));
    let mut counts: Vec<u128> = Vec::new();
    let mut i: usize = 0;
    while i < episodes.len()
        invariant
            i <= episodes.len(),
            counts.len() == i,
            forall|k: int| 0 <= k < i ==> counts[k] == 0,
        decreases episodes.len() - i,
    {
        counts.push(0);
        i += 1;
    }
    let mut j: usize = 0;
    while j < query.len()
        invariant
            j <= query.len(),
            docs == documents(episode_views(episodes@)),
            docs.len() == episodes.len(),
            index@ == index_of(docs),
            counts.len() == episodes.len(),
            forall|i: int| 0 <= i < counts.len() ==> counts[i] == hits(query@.take(j as int), #[trigger] docs[i]),
            forall|i: int| 0 <= i < counts.len() ==> (#[trigger] counts[i]) <= j * 0xFFFF_FFFF_FFFF_FFFF,
        decreases query.len() - j,
    {
        let term = query[j];
        proof {
            assert(query@.take(j + 1).drop_last() =~= query@.take(j as int));
            lemma_postings_in_range(docs, term);
            assert forall|i: int| 0 <= i < counts.len() implies count_of(postings(docs, term), i as usize)
                == count_of(#[trigger] docs[i], term) by {
                lemma_postings_count(docs, term, i as usize);
            }
        }
        match index.lookup(term) {
            Some(list) => {
                let mut m: usize = 0;
                while m < list.len()
                    invariant
                        m <= list.len(),
                        j < query.len(),
                        list@ == postings(docs, term),
                        forall|k: int| 0 <= k < list.len() ==> (#[trigger] list[k]) < docs.len(),
                        counts.len() == episodes.len(),
                        docs.len() == episodes.len(),
                        forall|i: int|
                            0 <= i < counts.len() ==> counts[i] == hits(query@.take(j as int), #[trigger] docs[i])
                                + count_of(list@.take(m as int), i as usize),
                        forall|i: int|
                            0 <= i < counts.len() ==> (#[trigger] counts[i]) <= j * 0xFFFF_FFFF_FFFF_FFFF + m,
                    decreases list.len() - m,
                {
                    let position = list[m];
                    proof {
                        assert(list@.take(m + 1).drop_last() =~= list@.take(m as int));
                    }
                    let seen = counts[position];
                    counts.set(position, seen + 1);
                    m += 1;
                }
                proof {
                    assert(list@.take(m as int) =~= list@);
                }
            },
            None => {
            },
        }
        j += 1;
    }
    proof {
        assert(query@.take(j as int) =~= query@);
        assert forall|i: int| 0 <= i < episodes.len() implies counts[i] == hits(
            query@,
            #[trigger] episode_terms(episodes[i]@),
        ) by {
            assert(docs[i] == episode_terms(episodes[i]@));
        }
    }
    counts
}

/// Lists the episodes that match, each with its score.
fn score_all(episodes: &Vec<Episode>, counts: &Vec<u128>, Ghost(query): Ghost<Seq<u64>>) -> (scored: Vec<
    Scored,
>)
    requires
        counts.len() == episodes.len(),
        forall|i: int|
            0 <= i < episodes.len() ==> counts[i] == hits(query, #[trigger] episode_terms(episodes[i]@)),
    ensures
        scored@ == candidates(episode_views(episodes@), query),
{
    let ghost views = episode_views(episodes@);
    let mut scored: Vec<Scored> = Vec::new();
    let mut i: usize = 0;
    while i < episodes.len()
        invariant
            i <= episodes.len(),
            counts.len() == episodes.len(),
            views == episode_views(episodes@),
            forall|k: int|
                0 <= k < episodes.len() ==> counts[k] == hits(query, #[trigger] episode_terms(episodes[k]@)),
            scored@ == candidates(views.take(i as int), query),
        decreases episodes.len() - i,
    {
        proof {
            assert(views.take(i + 1).drop_last() =~= views.take(i as int));
        }
        if counts[i] > 0 {
            scored.push(Scored { position: i, score: score(counts[i], episodes[i].importance) });
        }
        i += 1;
    }
    proof {
        assert(views.take(i as int) =~= views);
    }
    scored
}

/// Finds the episodes that match a query, each with its score, in the order
/// in which they are stored. `index` is the index of `episodes`.
pub fn match_candidates(index: &KeywordIndex, episodes: &Vec<Episode>, query: &Vec<u64>) -> (scored: Vec<Scored>)
    requires
        index@ == index_of(documents(episode_views(episodes@))),
    ensures
        scored@ == candidates(episode_views(episodes@), query@),
{
    let counts = count_hits(index, episodes, query);
    score_all(episodes, &counts, Ghost(query@))
}

} // verus!
