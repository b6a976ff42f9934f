//! The memory engine: working memory, episodic memory with its keyword
//! index, and semantic memory.
//!
//! The engine keeps no files and no locks. What is stored on disk is taken
//! from it with `snapshot_episodes` and `snapshot_facts` and brought back with
//! `restore_episodes` and `restore_facts`.

use vstd::prelude::*;
use vstd::string::*;
use dashmap::DashMap;
use crate::clock::{current_instant, current_timestamp, instant_of, parse_instant, Instant};
use crate::episode::{
    documents,
    entry_views,
    episode_terms,
    episode_views,
    EntryView,
    Episode,
    EpisodeView,
    WorkingEntry,
};
use crate::eviction::{doomed, eviction_count, lemma_without_len, mark_victims, remove_marked, without};
use crate::hashing::word_digest;
use crate::keyword_index::{index_of, lemma_document_is_indexed, lemma_index_grows, KeywordIndex};
use crate::keywords::{extract_keywords, keywords_of, lemma_keywords_are_terms, term_hashes, terms_of};
use crate::ranking::select_best;
use crate::retrieval::{
    candidates,
    lemma_match_is_returned,
    lemma_ranked_matches_match,
    lemma_shared_term_hits,
    match_candidates,
    ranked_matches,
    Scored,
};
use crate::stores::{fact_pairs, facts_clear, facts_entries, facts_get, facts_insert, facts_len, facts_new};
use crate::text::{first_chars, leading};

verus! {

/// What an engine remembers.
pub struct MemoryView {
    /// Working memory, oldest entry first.
    pub working: Seq<EntryView>,
    /// Episodic memory, in the order in which the episodes were stored.
    pub episodes: Seq<EpisodeView>,
    /// Semantic memory.
    pub facts: Map<Seq<char>, Seq<char>>,
}

/// The engine.
pub struct MemoryEngine {
    working_size: usize,
    max_episodic: usize,
    working: Vec<WorkingEntry>,
    episodic: Vec<Episode>,
    semantic: DashMap<String, String>,
    keyword_index: KeywordIndex,
}

impl View for MemoryEngine {
    type V = MemoryView;

    closed spec fn view(&self) -> MemoryView {
        MemoryView {
            working: entry_views(self.working@),
            episodes: episode_views(self.episodic@),
            facts: fact_pairs(self.semantic),
        }
    }
}

/// How many characters of what the user said a match shows.
pub open spec fn preview_length() -> nat {
    80
}

/// The entry that is made of one turn.
pub open spec fn new_entry(role: Seq<char>, content: Seq<char>, timestamp: Seq<char>) -> EntryView {
    EntryView { role, content, timestamp }
}

/// The last `limit` entries, or all of them when there are no more.
pub open spec fn trimmed(entries: Seq<EntryView>, limit: nat) -> Seq<EntryView> {
    if entries.len() > limit {
        entries.skip(entries.len() - limit)
    } else {
        entries
    }
}

/// The instant that each episode's timestamp denotes, if any.
pub open spec fn stamps_of(episodes: Seq<EpisodeView>) -> Seq<Option<Instant>> {
    Seq::new(episodes.len(), |i: int| instant_of(episodes[i].timestamp))
}

/// What is left of the episodes after one eviction at `now`.
pub open spec fn after_eviction(
    episodes: Seq<EpisodeView>,
    now: Instant,
    stamps: Seq<Option<Instant>>,
    limit: usize,
) -> Seq<EpisodeView> {
    without(episodes, doomed(episodes, now, stamps, eviction_count(limit)))
}

/// The episode that is made of one interaction.
pub open spec fn new_episode(
    user_input: Seq<char>,
    response: Seq<char>,
    emotion: Seq<char>,
    importance: i32,
    timestamp: Seq<char>,
) -> EpisodeView {
    EpisodeView { timestamp, user_input, response, emotion, importance, keywords: keywords_of(user_input) }
}

/// Episodic memory after one more episode: the episode is appended, and if
/// that puts the memory over its limit, one eviction follows at once.
pub open spec fn after_episode(episodes: Seq<EpisodeView>, episode: EpisodeView, now: Instant, limit: usize) -> Seq<
    EpisodeView,
> {
    let grown = episodes.push(episode);
    if grown.len() > limit {
        after_eviction(grown, now, stamps_of(grown), limit)
    } else {
        grown
    }
}

/// Whether a triple of timestamp, preview and score shows the episode that a
/// match refers to, with the score of the match.
pub open spec fn shows(triple: (String, String, i32), episodes: Seq<EpisodeView>, chosen: Scored) -> bool {
    &&& chosen.position < episodes.len()
    &&& triple.0@ == episodes[chosen.position as int].timestamp
    &&& triple.1@ == leading(episodes[chosen.position as int].user_input, preview_length())
    &&& triple.2 == chosen.score
}

/// The facts that a list of pairs sets, a later pair overriding an earlier
/// one with the same key.
pub open spec fn facts_from(pairs: Seq<(String, String)>) -> Map<Seq<char>, Seq<char>>
    decreases pairs.len(),
{
    if pairs.len() == 0 {
        Map::empty()
    } else {
        facts_from(pairs.drop_last()).insert(pairs.last().0@, pairs.last().1@)
    }
}

/// After any change of episodic memory, every episode is found in the index
/// under each of its keywords, provided its keywords are those of what the
/// user said.
pub proof fn lemma_keywords_find_episode(episodes: Seq<EpisodeView>, position: usize, k: int)
    requires
        episodes.len() <= usize::MAX,
        position < episodes.len(),
        episodes[position as int].keywords == keywords_of(episodes[position as int].user_input),
        0 <= k < episodes[position as int].keywords.len(),
    ensures
        index_of(documents(episodes)).contains_key(word_digest(episodes[position as int].keywords[k])),
        index_of(documents(episodes))[word_digest(episodes[position as int].keywords[k])].contains(position),
{
    let episode = episodes[position as int];
    let term = word_digest(episode.keywords[k]);
    lemma_keywords_are_terms(episode.user_input, k);
    let at = choose|at: int| 0 <= at < terms_of(episode.user_input).len() && terms_of(episode.user_input)[at] == term;
    assert(episode_terms(episode)[at] == term);
    lemma_document_is_indexed(documents(episodes), position, term);
}

/// A query that holds a keyword of an episode finds the episode, provided the
/// keywords of the episode are those of what the user said and the result
/// has room for every episode that matches.
pub proof fn lemma_keyword_query_finds_episode(
    episodes: Seq<EpisodeView>,
    query: Seq<u64>,
    limit: nat,
    position: usize,
    k: int,
)
    requires
        episodes.len() <= usize::MAX,
        position < episodes.len(),
        episodes[position as int].keywords == keywords_of(episodes[position as int].user_input),
        0 <= k < episodes[position as int].keywords.len(),
        query.contains(word_digest(episodes[position as int].keywords[k])),
        candidates(episodes, query).len() <= limit,
    ensures
        exists|m: int|
            0 <= m < ranked_matches(episodes, query, limit).len() && (#[trigger] ranked_matches(
                episodes,
                query,
                limit,
            )[m]).position == position,
{
    let episode = episodes[position as int];
    let term = word_digest(episode.keywords[k]);
    lemma_keywords_are_terms(episode.user_input, k);
    let at = choose|at: int| 0 <= at < terms_of(episode.user_input).len() && terms_of(episode.user_input)[at] == term;
    assert(episode_terms(episode)[at] == term);
    lemma_shared_term_hits(query, episode_terms(episode), term);
    lemma_match_is_returned(episodes, query, limit, position as int);
}

/// Computes the terms under which an episode is indexed.
fn episode_term_hashes(episode: &Episode) -> (terms: Vec<u64>)
    ensures
        terms@ == episode_terms(episode@),
{
    let mut terms = term_hashes(episode.user_input.as_str());
    let mut more = term_hashes(episode.response.as_str());
    terms.append(&mut more);
    terms
}

impl MemoryEngine {
    /// How many entries working memory holds at most.
    pub closed spec fn working_limit(&self) -> usize {
        self.working_size
    }

    /// How many episodes episodic memory is meant to hold at most.
    pub closed spec fn episode_limit(&self) -> usize {
        self.max_episodic
    }

    /// The keyword index.
    pub closed spec fn index(&self) -> Map<u64, Seq<usize>> {
        self.keyword_index@
    }

    /// The engine's invariant: the keyword index is the index of the
    /// episodes as they stand, and working memory is within its limit.
    pub closed spec fn wf(&self) -> bool {
        &&& self.keyword_index@ == index_of(documents(episode_views(self.episodic@)))
        &&& self.working.len() <= self.working_size
    }

    /// Working memory never holds more entries than its limit.
    pub proof fn lemma_working_bounded(&self)
        requires
            self.wf(),
        ensures
            self@.working.len() <= self.working_limit(),
    {
    }

    /// The index always agrees with the episodes on their positions.
    pub proof fn lemma_index_current(&self)
        requires
            self.wf(),
        ensures
            self.index() == index_of(documents(self@.episodes)),
    {
    }

    /// An engine that remembers nothing.
    pub fn new(working_size: usize, max_episodic: usize) -> (engine: Self)
        ensures
            engine.wf(),
            engine.working_limit() == working_size,
            engine.episode_limit() == max_episodic,
            engine@.working.len() == 0,
            engine@.episodes.len() == 0,
            engine@.facts == Map::<Seq<char>, Seq<char>>::empty(),
    {
        let semantic = facts_new();
        let engine = MemoryEngine {
            working_size,
            max_episodic,
            working: Vec::new(),
            episodic: Vec::new(),
            semantic,
            keyword_index: KeywordIndex::new(),
        };
        assert(documents(episode_views(engine.episodic@)) =~= Seq::empty());
        engine
    }

    /// Appends an entry with the given timestamp to working memory, then
    /// drops the oldest entries until the memory is within its limit.
    pub fn add_to_working_at(&mut self, role: &str, content: &str, timestamp: String)
        requires
            old(self).wf(),
        ensures
            final(self).wf(),
            final(self)@.working == trimmed(
                old(self)@.working.push(new_entry(role@, content@, timestamp@)),
                old(self).working_limit() as nat,
            ),
            final(self)@.working.len() <= final(self).working_limit(),
            final(self)@.episodes == old(self)@.episodes,
            final(self)@.facts == old(self)@.facts,
            final(self).working_limit() == old(self).working_limit(),
            final(self).episode_limit() == old(self).episode_limit(),
    {
        let ghost entry = EntryView { role: role@, content: content@, timestamp: timestamp@ };
        let ghost full = old(self)@.working.push(entry);
        self.working.push(WorkingEntry { role: role.to_owned(), content: content.to_owned(), timestamp });
        while self.working.len() > self.working_size
            invariant
                self.working.len() <= full.len(),
                self.working.len() >= self.working_size || self.working.len() == full.len(),
                entry_views(self.working@) == full.skip(full.len() - self.working.len()),
                self.working_size == old(self).working_size,
                self.max_episodic == old(self).max_episodic,
                self.episodic == old(self).episodic,
                self.semantic == old(self).semantic,
                self.keyword_index == old(self).keyword_index,
            decreases self.working.len(),
        {
            let ghost before = entry_views(self.working@);
            self.working.remove(0);
            assert(entry_views(self.working@) =~= before.remove(0));
        }
    }

    /// Appends an entry to working memory, stamped with the current time.
    pub fn add_to_working(&mut self, role: &str, content: &str)
        requires
            old(self).wf(),
        ensures
            final(self).wf(),
            exists|timestamp: Seq<char>|
                final(self)@.working == trimmed(
                    old(self)@.working.push(#[trigger] new_entry(role@, content@, timestamp)),
                    old(self).working_limit() as nat,
                ),
            final(self)@.working.len() <= final(self).working_limit(),
            final(self)@.episodes == old(self)@.episodes,
            final(self)@.facts == old(self)@.facts,
            final(self).working_limit() == old(self).working_limit(),
            final(self).episode_limit() == old(self).episode_limit(),
    {
        let timestamp = current_timestamp();
        let ghost stamp = timestamp@;
        self.add_to_working_at(role, content, timestamp);
        assert(self@.working == trimmed(
            old(self)@.working.push(new_entry(role@, content@, stamp)),
            old(self).working_limit() as nat,
        ));
    }

    /// Working memory as triples of role, content and timestamp, oldest
    /// first.
    pub fn get_working_memory(&self) -> (entries: Vec<(String, String, String)>)
        ensures
            entries.len() == self@.working.len(),
            forall|i: int|
                0 <= i < entries.len() ==> (#[trigger] entries[i]).0@ == self@.working[i].role && entries[i].1@
                    == self@.working[i].content && entries[i].2@ == self@.working[i].timestamp,
    {
        let mut entries: Vec<(String, String, String)> = Vec::new();
        let mut i: usize = 0;
        while i < self.working.len()
            invariant
                i <= self.working.len(),
                entries.len() == i,
                forall|k: int|
                    0 <= k < i ==> (#[trigger] entries[k]).0@ == self.working[k].role@ && entries[k].1@
                        == self.working[k].content@ && entries[k].2@ == self.working[k].timestamp@,
            decreases self.working.len() - i,
        {
            let entry = &self.working[i];
            entries.push((entry.role.clone(), entry.content.clone(), entry.timestamp.clone()));
            i += 1;
        }
        entries
    }

    /// Empties working memory.
    pub fn clear_working(&mut self)
        requires
            old(self).wf(),
        ensures
            final(self).wf(),
            final(self)@.working.len() == 0,
            final(self)@.episodes == old(self)@.episodes,
            final(self)@.facts == old(self)@.facts,
            final(self).working_limit() == old(self).working_limit(),
            final(self).episode_limit() == old(self).episode_limit(),
    {
        self.working.clear();
    }

    /// Builds the keyword index anew from the episodes as they stand.
    fn rebuild_index(&mut self)
        ensures
            final(self).keyword_index@ == index_of(documents(episode_views(final(self).episodic@))),
            final(self).episodic == old(self).episodic,
            final(self).working == old(self).working,
            final(self).semantic == old(self).semantic,
            final(self).working_size == old(self).working_size,
            final(self).max_episodic == old(self).max_episodic,
    {
        let ghost docs = documents(episode_views(self.episodic@));
        self.keyword_index.clear();
        let mut i: usize = 0;
        while i < self.episodic.len()
            invariant
                i <= self.episodic.len(),
                docs == documents(episode_views(self.episodic@)),
                self.keyword_index@ == index_of(docs.take(i as int)),
                self.episodic == old(self).episodic,
                self.working == old(self).working,
                self.semantic == old(self).semantic,
                self.working_size == old(self).working_size,
                self.max_episodic == old(self).max_episodic,
            decreases self.episodic.len() - i,
        {
            let terms = episode_term_hashes(&self.episodic[i]);
            self.keyword_index.add_document(i, &terms);
            proof {
                assert(docs.take(i as int).push(terms@) =~= docs.take(i + 1));
                lemma_index_grows(docs.take(i as int), terms@);
            }
            i += 1;
        }
        proof {
            assert(docs.take(i as int) =~= docs);
        }
    }

    /// Appends an episode and lists it in the index.
    fn store_episode(&mut self, user_input: &str, response: &str, emotion: &str, importance: i32, timestamp: String)
        requires
            old(self).wf(),
        ensures
            final(self).wf(),
            final(self)@.episodes == old(self)@.episodes.push(
                new_episode(user_input@, response@, emotion@, importance, timestamp@),
            ),
            final(self)@.working == old(self)@.working,
            final(self)@.facts == old(self)@.facts,
            final(self).working_limit() == old(self).working_limit(),
            final(self).episode_limit() == old(self).episode_limit(),
    {
        let ghost before = episode_views(self.episodic@);
        let episode = Episode {
            timestamp,
            user_input: user_input.to_owned(),
            response: response.to_owned(),
            emotion: emotion.to_owned(),
            importance,
            keywords: extract_keywords(user_input),
        };
        let terms = episode_term_hashes(&episode);
        let position = self.episodic.len();
        proof {
            lemma_index_grows(documents(before), terms@);
        }
        self.episodic.push(episode);
        self.keyword_index.add_document(position, &terms);
        proof {
            assert(episode_views(self.episodic@) =~= before.push(
                new_episode(user_input@, response@, emotion@, importance, timestamp@),
            ));
            assert(documents(episode_views(self.episodic@)) =~= documents(before).push(terms@));
        }
    }

    /// Evicts once, given the current time and the instant that each
    /// episode's timestamp denotes (none for a timestamp that cannot be read;
    /// an episode past the end of `stamps` counts as having none). The
    /// episodes of least worth leave, a tenth of the limit and at least one;
    /// the index is then built anew.
    pub fn evict_stamped(&mut self, now: Instant, stamps: &Vec<Option<Instant>>)
        requires
            old(self).wf(),
        ensures
            final(self).wf(),
            final(self)@.episodes == after_eviction(old(self)@.episodes, now, stamps@, old(self).episode_limit()),
            final(self)@.episodes.len() == if old(self)@.episodes.len() <= eviction_count(old(self).episode_limit()) {
                0
            } else {
                old(self)@.episodes.len() - eviction_count(old(self).episode_limit())
            },
            final(self)@.working == old(self)@.working,
            final(self)@.facts == old(self)@.facts,
            final(self).working_limit() == old(self).working_limit(),
            final(self).episode_limit() == old(self).episode_limit(),
    {
        let count = if self.max_episodic / 10 < 1 {
            1
        } else {
            self.max_episodic / 10
        };
        let marks = mark_victims(&self.episodic, now, stamps, count);
        proof {
            lemma_without_len(episode_views(self.episodic@), marks@);
        }
        remove_marked(&mut self.episodic, &marks);
        self.rebuild_index();
    }

    /// Evicts once at the given time, reading each episode's timestamp.
    pub fn evict_episodes_at(&mut self, now: Instant)
        requires
            old(self).wf(),
        ensures
            final(self).wf(),
            final(self)@.episodes == after_eviction(
                old(self)@.episodes,
                now,
                stamps_of(old(self)@.episodes),
                old(self).episode_limit(),
            ),
            final(self)@.episodes.len() == if old(self)@.episodes.len() <= eviction_count(old(self).episode_limit()) {
                0
            } else {
                old(self)@.episodes.len() - eviction_count(old(self).episode_limit())
            },
            final(self)@.working == old(self)@.working,
            final(self)@.facts == old(self)@.facts,
            final(self).working_limit() == old(self).working_limit(),
            final(self).episode_limit() == old(self).episode_limit(),
    {
        let mut stamps: Vec<Option<Instant>> = Vec::new();
        let mut i: usize = 0;
        while i < self.episodic.len()
            invariant
                i <= self.episodic.len(),
                stamps.len() == i,
                forall|k: int| 0 <= k < i ==> stamps[k] == instant_of(self.episodic[k].timestamp@),
            decreases self.episodic.len() - i,
        {
            stamps.push(parse_instant(self.episodic[i].timestamp.as_str()));
            i += 1;
        }
        assert(stamps@ =~= stamps_of(self@.episodes));
        self.evict_stamped(now, &stamps);
    }

    /// Evicts once at the current time.
    pub fn evict_episodes(&mut self)
        requires
            old(self).wf(),
        ensures
            final(self).wf(),
            exists|now: Instant|
                final(self)@.episodes == #[trigger] after_eviction(
                    old(self)@.episodes,
                    now,
                    stamps_of(old(self)@.episodes),
                    old(self).episode_limit(),
                ),
            final(self)@.episodes.len() == if old(self)@.episodes.len() <= eviction_count(old(self).episode_limit()) {
                0
            } else {
                old(self)@.episodes.len() - eviction_count(old(self).episode_limit())
            },
            final(self)@.working == old(self)@.working,
            final(self)@.facts == old(self)@.facts,
            final(self).working_limit() == old(self).working_limit(),
            final(self).episode_limit() == old(self).episode_limit(),
    {
        let now = current_instant();
        self.evict_episodes_at(now);
    }

    /// Stores an episode with the given timestamp; `now` is the time of the
    /// eviction that follows if the memory is then over its limit.
    pub fn add_episode_at(
        &mut self,
        user_input: &str,
        response: &str,
        emotion: &str,
        importance: i32,
        timestamp: String,
        now: Instant,
    )
        requires
            old(self).wf(),
        ensures
            final(self).wf(),
            final(self)@.episodes == after_episode(
                old(self)@.episodes,
                new_episode(user_input@, response@, emotion@, importance, timestamp@),
                now,
                old(self).episode_limit(),
            ),
            old(self)@.episodes.len() <= old(self).episode_limit() ==> final(self)@.episodes.len()
                <= final(self).episode_limit(),
            final(self)@.working == old(self)@.working,
            final(self)@.facts == old(self)@.facts,
            final(self).working_limit() == old(self).working_limit(),
            final(self).episode_limit() == old(self).episode_limit(),
    {
        self.store_episode(user_input, response, emotion, importance, timestamp);
        if self.episodic.len() > self.max_episodic {
            self.evict_episodes_at(now);
        }
    }

    /// Stores an episode, stamped with the current time. If the memory is
    /// then over its limit, one eviction follows before the call returns.
    pub fn add_episode(&mut self, user_input: &str, response: &str, emotion: &str, importance: i32)
        requires
            old(self).wf(),
        ensures
            final(self).wf(),
            exists|timestamp: Seq<char>, now: Instant|
                final(self)@.episodes == #[trigger] after_episode(
                    old(self)@.episodes,
                    new_episode(user_input@, response@, emotion@, importance, timestamp),
                    now,
                    old(self).episode_limit(),
                ),
            old(self)@.episodes.len() <= old(self).episode_limit() ==> final(self)@.episodes.len()
                <= final(self).episode_limit(),
            final(self)@.working == old(self)@.working,
            final(self)@.facts == old(self)@.facts,
            final(self).working_limit() == old(self).working_limit(),
            final(self).episode_limit() == old(self).episode_limit(),
    {
        let timestamp = current_timestamp();
        let ghost stamp = timestamp@;
        self.store_episode(user_input, response, emotion, importance, timestamp);
        if self.episodic.len() > self.max_episodic {
            let now = current_instant();
            self.evict_episodes_at(now);
            assert(self@.episodes == after_episode(
                old(self)@.episodes,
                new_episode(user_input@, response@, emotion@, importance, stamp),
                now,
                old(self).episode_limit(),
            ));
        } else {
            let ghost any = Instant { secs: 0, nanos: 0 };
            assert(self@.episodes == after_episode(
                old(self)@.episodes,
                new_episode(user_input@, response@, emotion@, importance, stamp),
                any,
                old(self).episode_limit(),
            ));
        }
    }

    /// The episodes that match a query, best first, at most `max_items` of
    /// them: for each its timestamp, the first 80 characters of what the user
    /// said, and its score.
    pub fn get_relevant_context(&self, query: &str, max_items: usize) -> (found: Vec<(String, String, i32)>)
        requires
            self.wf(),
        ensures
            found.len() == ranked_matches(self@.episodes, terms_of(query@), max_items as nat).len(),
            forall|k: int|
                0 <= k < found.len() ==> shows(
                    #[trigger] found[k],
                    self@.episodes,
                    ranked_matches(self@.episodes, terms_of(query@), max_items as nat)[k],
                ),
    {
        let terms = term_hashes(query);
        let scored = match_candidates(&self.keyword_index, &self.episodic, &terms);
        let chosen = select_best(&scored, max_items);
        let mut found: Vec<(String, String, i32)> = Vec::new();
        let mut k: usize = 0;
        while k < chosen.len()
            invariant
                k <= chosen.len(),
                terms@ == terms_of(query@),
                chosen@ == ranked_matches(episode_views(self.episodic@), terms@, max_items as nat),
                found.len() == k,
                forall|m: int| 0 <= m < k ==> shows(#[trigger] found[m], episode_views(self.episodic@), chosen[m]),
            decreases chosen.len() - k,
        {
            proof {
                assert(episode_views(self.episodic@).len() == self.episodic.len());
                lemma_ranked_matches_match(episode_views(self.episodic@), terms@, max_items as nat, k as int);
            }
            let pick = chosen[k];
            let episode = &self.episodic[pick.position];
            let timestamp = episode.timestamp.clone();
            let preview = first_chars(episode.user_input.as_str(), 80);
            let ghost before = found@;
            found.push((timestamp, preview, pick.score));
            proof {
                assert forall|m: int| 0 <= m < k implies found[m] == before[m] by {}
            }
            k += 1;
        }
        found
    }

    /// Sets a fact, replacing what the key had.
    pub fn add_semantic(&mut self, key: &str, value: &str)
        requires
            old(self).wf(),
        ensures
            final(self).wf(),
            final(self)@.facts == old(self)@.facts.insert(key@, value@),
            final(self)@.working == old(self)@.working,
            final(self)@.episodes == old(self)@.episodes,
            final(self).working_limit() == old(self).working_limit(),
            final(self).episode_limit() == old(self).episode_limit(),
    {
        facts_insert(&mut self.semantic, key.to_owned(), value.to_owned());
    }

    /// The value of a fact, if the key has one.
    pub fn get_semantic(&self, key: &str) -> (value: Option<String>)
        ensures
            match value {
                Some(v) => self@.facts.contains_key(key@) && self@.facts[key@] == v@,
                None => !self@.facts.contains_key(key@),
            },
    {
        facts_get(&self.semantic, key)
    }

    /// How many entries, episodes and facts the engine holds.
    pub fn get_stats(&self) -> (counts: (usize, usize, usize))
        ensures
            counts.0 == self@.working.len(),
            counts.1 == self@.episodes.len(),
            self@.facts.dom().finite(),
            counts.2 == self@.facts.len(),
    {
        (self.working.len(), self.episodic.len(), facts_len(&self.semantic))
    }

    /// A copy of the episodes, in order.
    pub fn snapshot_episodes(&self) -> (episodes: Vec<Episode>)
        ensures
            episode_views(episodes@) == self@.episodes,
    {
        let mut episodes: Vec<Episode> = Vec::new();
        let mut i: usize = 0;
        while i < self.episodic.len()
            invariant
                i <= self.episodic.len(),
                episodes.len() == i,
                forall|k: int| 0 <= k < i ==> episodes[k]@ == self.episodic[k]@,
            decreases self.episodic.len() - i,
        {
            episodes.push(self.episodic[i].copy());
            i += 1;
        }
        episodes
    }

    /// A copy of the facts: every pair once, in no particular order.
    pub fn snapshot_facts(&self) -> (pairs: Vec<(String, String)>)
        ensures
            forall|i: int, j: int| 0 <= i < j < pairs.len() ==> (#[trigger] pairs[i]).0@ != (#[trigger] pairs[j]).0@,
            forall|i: int|
                0 <= i < pairs.len() ==> self@.facts.contains_key((#[trigger] pairs[i]).0@) && self@.facts[pairs[i].0@]
                    == pairs[i].1@,
            forall|key: Seq<char>| #[trigger]
                self@.facts.contains_key(key) ==> exists|i: int|
                    0 <= i < pairs.len() && (#[trigger] pairs[i]).0@ == key,
    {
        facts_entries(&self.semantic)
    }

    /// Replaces episodic memory by the given episodes and builds the index
    /// anew.
    pub fn restore_episodes(&mut self, episodes: Vec<Episode>)
        requires
            old(self).wf(),
        ensures
            final(self).wf(),
            final(self)@.episodes == episode_views(episodes@),
            final(self)@.working == old(self)@.working,
            final(self)@.facts == old(self)@.facts,
            final(self).working_limit() == old(self).working_limit(),
            final(self).episode_limit() == old(self).episode_limit(),
    {
        self.episodic = episodes;
        self.rebuild_index();
    }

    /// Replaces semantic memory by the given facts. Of two pairs with the
    /// same key the later one counts.
    pub fn restore_facts(&mut self, pairs: Vec<(String, String)>)
        requires
            old(self).wf(),
        ensures
            final(self).wf(),
            final(self)@.facts == facts_from(pairs@),
            final(self)@.working == old(self)@.working,
            final(self)@.episodes == old(self)@.episodes,
            final(self).working_limit() == old(self).working_limit(),
            final(self).episode_limit() == old(self).episode_limit(),
    {
        facts_clear(&mut self.semantic);
        let mut i: usize = 0;
        while i < pairs.len()
            invariant
                i <= pairs.len(),
                fact_pairs(self.semantic) == facts_from(pairs@.take(i as int)),
                self.episodic == old(self).episodic,
                self.working == old(self).working,
                self.keyword_index == old(self).keyword_index,
                self.working_size == old(self).working_size,
                self.max_episodic == old(self).max_episodic,
            decreases pairs.len() - i,
        {
            proof {
                assert(pairs@.take(i + 1).drop_last() =~= pairs@.take(i as int));
            }
            facts_insert(&mut self.semantic, pairs[i].0.clone(), pairs[i].1.clone());
            i += 1;
        }
        proof {
            assert(pairs@.take(i as int) =~= pairs@);
        }
    }
}

} // verus!
