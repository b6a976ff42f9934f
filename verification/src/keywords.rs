//! What is taken from a text: the keywords that are stored with an episode,
//! and the terms under which a text is indexed and searched.
//!
//! Both are made of the lowercased words of the text. A keyword is longer than
//! three characters and is no stop word, and only the first ten are kept. A
//! term is longer than two characters; every one of them counts, and a term
//! stands for its hash.

use vstd::prelude::*;
use vstd::string::*;
use crate::hashing::{word_digest, word_hash};
use crate::text::{lowercase, split_words, words};

verus! {

/// How many keywords an episode keeps at most.
pub open spec fn keyword_limit() -> nat {
    10
}

/// The words that are too common to be keywords.
pub open spec fn stop_words() -> Seq<Seq<char>> {
    seq![
        "я"@,
        "ты"@,
        "он"@,
        "она"@,
        "мы"@,
        "вы"@,
        "они"@,
        "в"@,
        "на"@,
        "и"@,
        "с"@,
        "по"@,
        "для"@,
        "от"@,
        "к"@,
        "не"@,
        "что"@,
        "это"@,
        "как"@,
        "но"@,
        "the"@,
        "is"@,
        "are"@,
        "a"@,
        "an"@,
        "in"@,
        "on"@,
        "for"@,
        "to"@,
        "of"@,
    ]
}

/// Whether a lowercased word can be a keyword.
pub open spec fn is_keyword(word: Seq<char>) -> bool {
    word.len() > 3 && !stop_words().contains(word)
}

/// The keywords among a sequence of words: the first ten lowercased words
/// that can be keywords, in order. A word that occurs twice is kept twice.
pub open spec fn keywords_among(found: Seq<Seq<char>>) -> Seq<Seq<char>>
    decreases found.len(),
{
    if found.len() == 0 {
        Seq::empty()
    } else {
        let before = keywords_among(found.drop_last());
        let word = lowercase(found.last());
        if before.len() < keyword_limit() && is_keyword(word) {
            before.push(word)
        } else {
            before
        }
    }
}

/// The keywords of a text.
pub open spec fn keywords_of(text: Seq<char>) -> Seq<Seq<char>> {
    keywords_among(words(text))
}

/// Whether a lowercased word is a term.
pub open spec fn is_term(word: Seq<char>) -> bool {
    word.len() > 2
}

/// The terms among a sequence of words: the hash of each lowercased word that
/// is a term, in order.
pub open spec fn terms_among(found: Seq<Seq<char>>) -> Seq<u64>
    decreases found.len(),
{
    if found.len() == 0 {
        Seq::empty()
    } else {
        let before = terms_among(found.drop_last());
        let word = lowercase(found.last());
        if is_term(word) {
            before.push(word_digest(word))
        } else {
            before
        }
    }
}

/// The terms of a text.
pub open spec fn terms_of(text: Seq<char>) -> Seq<u64> {
    terms_among(words(text))
}

/// There are never more than ten keywords.
pub proof fn lemma_keywords_bounded(found: Seq<Seq<char>>)
    ensures
        keywords_among(found).len() <= keyword_limit(),
    decreases found.len(),
{
    if found.len() > 0 {
        lemma_keywords_bounded(found.drop_last());
    }
}

/// Every keyword is the lowercase form of one of the words, and can be a
/// keyword.
pub proof fn lemma_keywords_come_from_words(found: Seq<Seq<char>>, k: int)
    requires
        0 <= k < keywords_among(found).len(),
    ensures
        is_keyword(keywords_among(found)[k]),
        exists|i: int| 0 <= i < found.len() && lowercase(#[trigger] found[i]) == keywords_among(found)[k],
    decreases found.len(),
{
    let before = keywords_among(found.drop_last());
    if k < before.len() {
        lemma_keywords_come_from_words(found.drop_last(), k);
        let i = choose|i: int|
            0 <= i < found.drop_last().len() && lowercase(#[trigger] found.drop_last()[i]) == before[k];
        assert(found[i] == found.drop_last()[i]);
    }
}

/// The hash of every lowercased word that is a term is among the terms.
pub proof fn lemma_terms_hold_words(found: Seq<Seq<char>>, i: int)
    requires
        0 <= i < found.len(),
        is_term(lowercase(found[i])),
    ensures
        terms_among(found).contains(word_digest(lowercase(found[i]))),
    decreases found.len(),
{
    let before = terms_among(found.drop_last());
    let all = terms_among(found);
    if i < found.len() - 1 {
        lemma_terms_hold_words(found.drop_last(), i);
        let at = choose|at: int| 0 <= at < before.len() && before[at] == word_digest(lowercase(found[i]));
        assert(all[at] == before[at]);
    } else {
        assert(all[all.len() - 1] == word_digest(lowercase(found[i])));
    }
}

/// Every keyword of a text is found among its terms, by its hash.
pub proof fn lemma_keywords_are_terms(text: Seq<char>, k: int)
    requires
        0 <= k < keywords_of(text).len(),
    ensures
        terms_of(text).contains(word_digest(keywords_of(text)[k])),
{
    let found = words(text);
    lemma_keywords_come_from_words(found, k);
    let i = choose|i: int| 0 <= i < found.len() && lowercase(#[trigger] found[i]) == keywords_among(found)[k];
    lemma_terms_hold_words(found, i);
}

/// Decides whether a word is a stop word.
pub fn is_stop_word(word: &str) -> (stop: bool)
    ensures
        stop == stop_words().contains(word@),
{
    *word == *"я" || *word == *"ты" || *word == *"он" || *word == *"она" || *word == *"мы" || *word
        == *"вы" || *word == *"они" || *word == *"в" || *word == *"на" || *word == *"и" || *word == *"с"
        || *word == *"по" || *word == *"для" || *word == *"от" || *word == *"к" || *word == *"не" || *word
        == *"что" || *word == *"это" || *word == *"как" || *word == *"но" || *word == *"the" || *word == *"is"
        || *word == *"are" || *word == *"a" || *word == *"an" || *word == *"in" || *word == *"on" || *word
        == *"for" || *word == *"to" || *word == *"of"
}

/// Extracts the keywords of a text.
pub fn extract_keywords(text: &str) -> (keywords: Vec<String>)
    ensures
        keywords.deep_view() == keywords_of(text@),
        keywords.len() <= keyword_limit(),
{
    let found = split_words(text);
    let mut keywords: Vec<String> = Vec::new();
    let mut i: usize = 0;
    while i < found.len()
        invariant
            i <= found.len(),
            keywords.deep_view() == keywords_among(found.deep_view().take(i as int)),
        decreases found.len() - i,
    {
        proof {
            assert(found.deep_view().take(i + 1).drop_last() =~= found.deep_view().take(i as int));
        }
        if keywords.len() < 10 {
            let word = found[i].as_str().to_lowercase();
            if word.as_str().unicode_len() > 3 && !is_stop_word(word.as_str()) {
                keywords.push(word);
            }
        }
        i += 1;
    }
    proof {
        assert(found.deep_view().take(i as int) =~= found.deep_view());
        lemma_keywords_bounded(found.deep_view());
    }
    keywords
}

/// Computes the terms of a text.
pub fn term_hashes(text: &str) -> (terms: Vec<u64>)
    ensures
        terms@ == terms_of(text@),
{
    let found = split_words(text);
    let mut terms: Vec<u64> = Vec::new();
    let mut i: usize = 0;
    while i < found.len()
        invariant
            i <= found.len(),
            terms@ == terms_among(found.deep_view().take(i as int)),
        decreases found.len() - i,
    {
        proof {
            assert(found.deep_view().take(i + 1).drop_last() =~= found.deep_view().take(i as int));
        }
        let word = found[i].as_str().to_lowercase();
        if word.as_str().unicode_len() > 2 {
            terms.push(word_hash(word.as_str()));
        }
        i += 1;
    }
    proof {
        assert(found.deep_view().take(i as int) =~= found.deep_view());
    }
    terms
}

} // verus!
