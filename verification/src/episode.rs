//! The records of the memory tiers: a turn of the running conversation and an
//! episode of the past.

use vstd::prelude::*;
use vstd::string::*;
use crate::keywords::terms_of;

verus! {

/// One turn of the conversation, as working memory holds it.
#[derive(Debug)]
pub struct WorkingEntry {
    pub role: String,
    pub content: String,
    pub timestamp: String,
}

/// What a working entry says.
pub struct EntryView {
    pub role: Seq<char>,
    pub content: Seq<char>,
    pub timestamp: Seq<char>,
}

impl View for WorkingEntry {
    type V = EntryView;

    open spec fn view(&self) -> EntryView {
        EntryView { role: self.role@, content: self.content@, timestamp: self.timestamp@ }
    }
}

/// One past interaction, as episodic memory holds it.
#[derive(Debug)]
pub struct Episode {
    pub timestamp: String,
    pub user_input: String,
    pub response: String,
    pub emotion: String,
    pub importance: i32,
    pub keywords: Vec<String>,
}

/// What an episode says.
pub struct EpisodeView {
    pub timestamp: Seq<char>,
    pub user_input: Seq<char>,
    pub response: Seq<char>,
    pub emotion: Seq<char>,
    pub importance: i32,
    pub keywords: Seq<Seq<char>>,
}

impl View for Episode {
    type V = EpisodeView;

    open spec fn view(&self) -> EpisodeView {
        EpisodeView {
            timestamp: self.timestamp@,
            user_input: self.user_input@,
            response: self.response@,
            emotion: self.emotion@,
            importance: self.importance,
            keywords: self.keywords.deep_view(),
        }
    }
}

/// What a sequence of working entries says.
pub open spec fn entry_views(entries: Seq<WorkingEntry>) -> Seq<EntryView> {
    Seq::new(entries.len(), |i: int| entries[i]@)
}

/// What a sequence of episodes says.
pub open spec fn episode_views(episodes: Seq<Episode>) -> Seq<EpisodeView> {
    Seq::new(episodes.len(), |i: int| episodes[i]@)
}

/// The terms under which an episode is indexed: those of what the user said,
/// followed by those of the response.
pub open spec fn episode_terms(episode: EpisodeView) -> Seq<u64> {
    terms_of(episode.user_input) + terms_of(episode.response)
}

/// The documents that a sequence of episodes gives the keyword index.
pub open spec fn documents(episodes: Seq<EpisodeView>) -> Seq<Seq<u64>> {
    Seq::new(episodes.len(), |i: int| episode_terms(episodes[i]))
}

/// Copies a sequence of texts.
pub fn copy_texts(texts: &Vec<String>) -> (copy: Vec<String>)
    ensures
        copy.deep_view() == texts.deep_view(),
{
    let mut copy: Vec<String> = Vec::new();
    let mut i: usize = 0;
    while i < texts.len()
        invariant
            i <= texts.len(),
            copy.len() == i,
            forall|k: int| 0 <= k < i ==> copy[k]@ == texts[k]@,
        decreases texts.len() - i,
    {
        copy.push(texts[i].clone());
        i += 1;
    }
    copy
}

impl Episode {
    /// Copies the episode.
    pub fn copy(&self) -> (copy: Episode)
        ensures
            copy@ == self@,
    {
        Episode {
            timestamp: self.timestamp.clone(),
            user_input: self.user_input.clone(),
            response: self.response.clone(),
            emotion: self.emotion.clone(),
            importance: self.importance,
            keywords: copy_texts(&self.keywords),
        }
    }
}

} // verus!
