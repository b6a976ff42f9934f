//! Short forms of what was said: the last turns of a conversation, the
//! sentences of a text that matter most, and a digest of episodes.

use vstd::prelude::*;
use vstd::string::*;
use aho_corasick::AhoCorasick;
use crate::chars::{join, joined, text_between, to_chars, trim, trim_range};
use crate::matcher::{build_matcher, find_matches, matches_in, patterns_of};
use crate::ranking::{best, lemma_best_members, select_best};
use crate::retrieval::Scored;
use crate::text::{first_chars, leading, lowercase};
use crate::thread_tracker::last_few;

verus! {

/// The words that mark a sentence as one that matters.
pub open spec fn important_words() -> Seq<Seq<char>> {
    seq![
        "важно"@,
        "главное"@,
        "нужно"@,
        "проблема"@,
        "решение"@,
        "ошибка"@,
        "успешно"@,
        "не работает"@,
        "помоги"@,
        "критично"@,
        "срочно"@,
        "обязательно"@,
        "ключевой"@,
        "основной"@,
        "результат"@,
        "вывод"@,
        "итог"@,
        "причина"@,
        "следствие"@,
        "вопрос"@,
    ]
}

/// Builds the list of important words.
fn important_list() -> (patterns: Vec<String>)
    ensures
        patterns.deep_view() == important_words(),
{
    let mut patterns: Vec<String> = Vec::new();
    patterns.push(String::from_str("важно"));
    patterns.push(String::from_str("главное"));
    patterns.push(String::from_str("нужно"));
    patterns.push(String::from_str("проблема"));
    patterns.push(String::from_str("решение"));
    patterns.push(String::from_str("ошибка"));
    patterns.push(String::from_str("успешно"));
    patterns.push(String::from_str("не работает"));
    patterns.push(String::from_str("помоги"));
    patterns.push(String::from_str("критично"));
    patterns.push(String::from_str("срочно"));
    patterns.push(String::from_str("обязательно"));
    patterns.push(String::from_str("ключевой"));
    patterns.push(String::from_str("основной"));
    patterns.push(String::from_str("результат"));
    patterns.push(String::from_str("вывод"));
    patterns.push(String::from_str("итог"));
    patterns.push(String::from_str("причина"));
    patterns.push(String::from_str("следствие"));
    patterns.push(String::from_str("вопрос"));
    patterns
}

/// What a list of turns says: for each its role and its content.
pub open spec fn turn_views(turns: Seq<(String, String)>) -> Seq<(Seq<char>, Seq<char>)> {
    Seq::new(turns.len(), |i: int| (turns[i].0@, turns[i].1@))
}

/// A content cut for the digest of a conversation: one of more than a
/// hundred characters is cut to 97 and ends in three dots.
pub open spec fn shortened(content: Seq<char>) -> Seq<char> {
    if content.len() > 100 {
        content.take(97) + "..."@
    } else {
        content
    }
}

/// The line that shows a turn.
pub open spec fn turn_line(turn: (Seq<char>, Seq<char>)) -> Seq<char> {
    turn.0 + ": "@ + shortened(turn.1)
}

/// The lines that show a list of turns.
pub open spec fn turn_lines(turns: Seq<(Seq<char>, Seq<char>)>) -> Seq<Seq<char>> {
    Seq::new(turns.len(), |i: int| turn_line(turns[i]))
}

/// The digest of a conversation: its last ten turns, one to a line.
pub open spec fn compressed(turns: Seq<(Seq<char>, Seq<char>)>) -> Seq<char> {
    joined(turn_lines(last_few(turns, 10)), "\n"@)
}

/// Whether a character ends a sentence.
pub open spec fn ends_sentence(c: char) -> bool {
    c == '.' || c == '!' || c == '?' || c == '\n'
}

/// Where the sentence that is being read at `upto` begins.
pub open spec fn sentence_start(text: Seq<char>, upto: int) -> int
    decreases upto,
{
    if upto <= 0 {
        0
    } else if upto - 1 < text.len() && ends_sentence(text[upto - 1]) {
        upto
    } else {
        sentence_start(text, upto - 1)
    }
}

/// The sentences that are complete at `upto`, as they stand in the text,
/// the characters that end them left out. A sentence of nothing but
/// whitespace is left out.
pub open spec fn sentences_before(text: Seq<char>, upto: int) -> Seq<Seq<char>>
    decreases upto,
{
    if upto <= 0 {
        Seq::empty()
    } else {
        let before = sentences_before(text, upto - 1);
        let sentence = text.subrange(sentence_start(text, upto - 1), upto - 1);
        if upto - 1 < text.len() && ends_sentence(text[upto - 1]) && trim(sentence).len() > 0 {
            before.push(sentence)
        } else {
            before
        }
    }
}

/// The sentences of a text, as they stand in it.
pub open spec fn sentences_of(text: Seq<char>) -> Seq<Seq<char>> {
    let before = sentences_before(text, text.len() as int);
    let sentence = text.subrange(sentence_start(text, text.len() as int), text.len() as int);
    if trim(sentence).len() > 0 {
        before.push(sentence)
    } else {
        before
    }
}

/// How many important words a sentence holds: the matches in its lowercase
/// form.
pub open spec fn weight_of(sentence: Seq<char>) -> nat {
    matches_in(important_words(), lowercase(sentence)).len()
}

/// The sentences that hold an important word, in order, each with its place
/// among the sentences and its weight, which is kept within 32 bits.
pub open spec fn weighted(sentences: Seq<Seq<char>>) -> Seq<Scored>
    decreases sentences.len(),
{
    if sentences.len() == 0 {
        Seq::empty()
    } else {
        let before = weighted(sentences.drop_last());
        let weight = weight_of(sentences.last());
        if weight > 0 {
            before.push(
                Scored {
                    position: (sentences.len() - 1) as usize,
                    score: if weight > i32::MAX {
                        i32::MAX
                    } else {
                        weight as i32
                    },
                },
            )
        } else {
            before
        }
    }
}

/// The key points of a text: its three sentences of most weight, heaviest
/// first, trimmed. Of two sentences of equal weight the earlier comes first.
pub open spec fn key_points(text: Seq<char>) -> Seq<Seq<char>> {
    let chosen = best(weighted(sentences_of(text)), 3);
    Seq::new(chosen.len(), |i: int| trim(sentences_of(text)[chosen[i].position as int]))
}

/// Every weighted sentence is one of the sentences.
proof fn lemma_weighted_in_range(sentences: Seq<Seq<char>>, k: int)
    requires
        0 <= k < weighted(sentences).len(),
        sentences.len() <= usize::MAX,
    ensures
        weighted(sentences)[k].position < sentences.len(),
    decreases sentences.len(),
{
    if k < weighted(sentences.drop_last()).len() {
        lemma_weighted_in_range(sentences.drop_last(), k);
    }
}

/// What a list of episodes says: for each its timestamp, what the user
/// said, and its importance.
pub open spec fn digest_views(episodes: Seq<(String, String, i32)>) -> Seq<(Seq<char>, Seq<char>, i32)> {
    Seq::new(episodes.len(), |i: int| (episodes[i].0@, episodes[i].1@, episodes[i].2))
}

/// The episodes as the digest ranks them: each with its place and its
/// importance.
pub open spec fn by_importance(episodes: Seq<(Seq<char>, Seq<char>, i32)>) -> Seq<Scored> {
    Seq::new(episodes.len(), |i: int| Scored { position: i as usize, score: episodes[i].2 })
}

/// The line that shows an episode: the first ten characters of its
/// timestamp in brackets, then the first fifty characters of what the user
/// said.
pub open spec fn snippet_of(episode: (Seq<char>, Seq<char>, i32)) -> Seq<char> {
    "["@ + leading(episode.0, 10) + "] "@ + leading(episode.1, 50)
}

/// The lines of the five most important episodes, most important first.
pub open spec fn snippets(episodes: Seq<(Seq<char>, Seq<char>, i32)>) -> Seq<Seq<char>> {
    let chosen = best(by_importance(episodes), 5);
    Seq::new(chosen.len(), |i: int| snippet_of(episodes[chosen[i].position as int]))
}

/// How many bytes a text takes.
pub open spec fn byte_len(text: Seq<char>) -> nat {
    vstd::utf8::encode_utf8(text).len()
}

/// How many bytes the lines take together.
pub open spec fn total_bytes(lines: Seq<Seq<char>>) -> nat
    decreases lines.len(),
{
    if lines.len() == 0 {
        0
    } else {
        total_bytes(lines.drop_last()) + byte_len(lines.last())
    }
}

/// How many of the lines, from the first on, fit a budget of bytes.
pub open spec fn fitting(lines: Seq<Seq<char>>, budget: nat) -> nat
    decreases lines.len(),
{
    if lines.len() == 0 {
        0
    } else if fitting(lines.drop_last(), budget) == lines.len() - 1 && total_bytes(lines) <= budget {
        lines.len()
    } else {
        fitting(lines.drop_last(), budget)
    }
}

/// The text that stands for no episodes.
pub open spec fn no_episodes() -> Seq<char> {
    "Нет данных в памяти"@
}

/// The digest of a list of episodes: the lines of the five most important,
/// as many of them as fit `max_length` bytes, one to a line; the line breaks
/// are not counted.
pub open spec fn summarized(episodes: Seq<(Seq<char>, Seq<char>, i32)>, max_length: nat) -> Seq<char> {
    if episodes.len() == 0 {
        no_episodes()
    } else {
        let lines = snippets(episodes);
        joined(lines.take(fitting(lines, max_length) as int), "\n"@)
    }
}

/// Whether a character is one of the first 128.
pub open spec fn is_ascii_char(c: char) -> bool {
    (c as u32) < 128
}

/// How many characters of a text satisfy a condition.
pub open spec fn count_where(text: Seq<char>, condition: spec_fn(char) -> bool) -> nat
    decreases text.len(),
{
    if text.len() == 0 {
        0
    } else {
        count_where(text.drop_last(), condition) + if condition(text.last()) {
            1nat
        } else {
            0nat
        }
    }
}

/// A guess at the number of tokens of a text: a token for every four
/// characters among the first 128, one for every two others, and one more.
pub open spec fn estimated_tokens(text: Seq<char>) -> nat {
    count_where(text, |c: char| is_ascii_char(c)) / 4 + count_where(text, |c: char| !is_ascii_char(c)) / 2 + 1
}

/// Cuts a content for the digest of a conversation.
fn shorten(content: &str) -> (short: String)
    ensures
        short@ == shortened(content@),
{
    if content.unicode_len() > 100 {
        let mut short = content.substring_char(0, 97).to_owned();
        short.append("...");
        short
    } else {
        content.to_owned()
    }
}

/// The digest of a conversation, given the role and the content of each
/// turn.
pub fn compress_conversation(turns: &Vec<(String, String)>) -> (digest: String)
    ensures
        digest@ == compressed(turn_views(turns@)),
{
    let start = if turns.len() > 10 {
        turns.len() - 10
    } else {
        0
    };
    let ghost recent = last_few(turn_views(turns@), 10);
    let mut lines: Vec<String> = Vec::new();
    let mut i: usize = start;
    while i < turns.len()
        invariant
            start <= i <= turns.len(),
            recent == last_few(turn_views(turns@), 10),
            start == turns.len() - recent.len(),
            lines.deep_view() == turn_lines(recent).take(i - start),
        decreases turns.len() - i,
    {
        let ghost before = lines.deep_view();
        let mut line = turns[i].0.clone();
        line.append(": ");
        let short = shorten(turns[i].1.as_str());
        line.append(short.as_str());
        lines.push(line);
        proof {
            assert(lines.deep_view() =~= before.push(line@));
        }
        i += 1;
    }
    proof {
        assert(turn_lines(recent).take(i - start) =~= turn_lines(recent));
    }
    join(&lines, "\n")
}

/// Splits a text into its sentences, as they stand in it.
pub fn split_sentences(text: &Vec<char>) -> (sentences: Vec<String>)
    ensures
        sentences.deep_view() == sentences_of(text@),
{
    let mut sentences: Vec<String> = Vec::new();
    let mut start: usize = 0;
    let mut i: usize = 0;
    while i < text.len()
        invariant
            i <= text.len(),
            start <= i,
            start == sentence_start(text@, i as int),
            sentences.deep_view() == sentences_before(text@, i as int),
        decreases text.len() - i,
    {
        let c = text[i];
        if c == '.' || c == '!' || c == '?' || c == '\n' {
            let (from, to) = trim_range(text, start, i);
            if to > from {
                let sentence = text_between(text, start, i);
                sentences.push(sentence);
            }
            start = i + 1;
        }
        i += 1;
    }
    let (from, to) = trim_range(text, start, text.len());
    if to > from {
        let sentence = text_between(text, start, text.len());
        sentences.push(sentence);
    }
    sentences
}

/// Guesses the number of tokens of a text.
pub fn estimate_tokens(text: &str) -> (tokens: usize)
    ensures
        tokens == estimated_tokens(text@),
{
    let chars = to_chars(text);
    let mut ascii: usize = 0;
    let mut other: usize = 0;
    let mut i: usize = 0;
    while i < chars.len()
        invariant
            i <= chars.len(),
            ascii + other == i,
            ascii == count_where(chars@.take(i as int), |c: char| is_ascii_char(c)),
            other == count_where(chars@.take(i as int), |c: char| !is_ascii_char(c)),
        decreases chars.len() - i,
    {
        proof {
            assert(chars@.take(i + 1).drop_last() =~= chars@.take(i as int));
        }
        if (chars[i] as u32) < 128 {
            ascii += 1;
        } else {
            other += 1;
        }
        i += 1;
    }
    proof {
        assert(chars@.take(i as int) =~= chars@);
    }
    ascii / 4 + other / 2 + 1
}

/// The compressor: a matcher for the important words.
pub struct ContextCompressor {
    important: AhoCorasick,
}

impl ContextCompressor {
    /// The compressor's invariant: its matcher was built from the important
    /// words.
    pub closed spec fn wf(&self) -> bool {
        patterns_of(self.important) == important_words()
    }

    /// Builds the compressor. There is none where the matcher cannot be
    /// built.
    pub fn new() -> (compressor: Option<Self>)
        ensures
            compressor is Some ==> compressor->0.wf(),
    {
        let patterns = important_list();
        Self::around(build_matcher(&patterns))
    }

    /// A compressor around the matcher that was built for the important
    /// words; none where no matcher was built.
    fn around(built: Option<AhoCorasick>) -> (compressor: Option<Self>)
        requires
            built is Some ==> patterns_of(built->0) == important_words(),
        ensures
            compressor is Some <==> built is Some,
            compressor is Some ==> compressor->0.wf() && compressor->0.important == built->0,
    {
        match built {
            Some(important) => Some(ContextCompressor { important }),
            None => None,
        }
    }

    /// Lists the sentences that hold an important word, each with its weight.
    fn weigh(&self, sentences: &Vec<String>) -> (scored: Vec<Scored>)
        requires
            self.wf(),
        ensures
            scored@ == weighted(sentences.deep_view()),
    {
        let ghost all = sentences.deep_view();
        let mut scored: Vec<Scored> = Vec::new();
        let mut i: usize = 0;
        while i < sentences.len()
            invariant
                i <= sentences.len(),
                self.wf(),
                all == sentences.deep_view(),
                scored@ == weighted(all.take(i as int)),
            decreases sentences.len() - i,
        {
            proof {
                assert(all.take(i + 1).drop_last() =~= all.take(i as int));
            }
            let lower = sentences[i].as_str().to_lowercase();
            let weight = find_matches(&self.important, lower.as_str()).len();
            if weight > 0 {
                let score: i32 = if weight > 0x7FFF_FFFF {
                    i32::MAX
                } else {
                    weight as i32
                };
                scored.push(Scored { position: i, score });
            }
            i += 1;
        }
        proof {
            assert(all.take(i as int) =~= all);
        }
        scored
    }

    /// The key points of a text.
    pub fn extract_key_points(&self, text: &str) -> (points: Vec<String>)
        requires
            self.wf(),
        ensures
            points.deep_view() == key_points(text@),
    {
        let chars = to_chars(text);
        let sentences = split_sentences(&chars);
        let scored = self.weigh(&sentences);
        let chosen = select_best(&scored, 3);
        let ghost wanted = key_points(text@);
        let mut points: Vec<String> = Vec::new();
        let mut k: usize = 0;
        proof {
            lemma_best_members(scored@, 3);
        }
        while k < chosen.len()
            invariant
                k <= chosen.len(),
                sentences.deep_view() == sentences_of(text@),
                scored@ == weighted(sentences.deep_view()),
                chosen@ == best(scored@, 3),
                forall|i: int| 0 <= i < chosen.len() ==> scored@.contains(#[trigger] chosen[i]),
                wanted == key_points(text@),
                points.deep_view() == wanted.take(k as int),
            decreases chosen.len() - k,
        {
            let ghost before = points.deep_view();
            proof {
                let at = choose|at: int| 0 <= at < scored.len() && scored[at] == chosen[k as int];
                assert(sentences.deep_view().len() == sentences.len());
                lemma_weighted_in_range(sentences.deep_view(), at);
            }
            let sentence = to_chars(sentences[chosen[k].position].as_str());
            let (from, to) = trim_range(&sentence, 0, sentence.len());
            let point = text_between(&sentence, from, to);
            points.push(point);
            proof {
                assert(sentence@.subrange(0, sentence.len() as int) =~= sentence@);
                assert(points.deep_view() =~= before.push(point@));
            }
            k += 1;
        }
        points
    }
}

/// The digest of a list of episodes, given the timestamp of each, what the
/// user said, and its importance.
pub fn summarize_episodes(episodes: &Vec<(String, String, i32)>, max_length: usize) -> (digest: String)
    ensures
        digest@ == summarized(digest_views(episodes@), max_length as nat),
{
    if episodes.len() == 0 {
        return String::from_str("Нет данных в памяти");
    }
    let ghost views = digest_views(episodes@);
    let mut ranked: Vec<Scored> = Vec::new();
    let mut i: usize = 0;
    while i < episodes.len()
        invariant
            i <= episodes.len(),
            ranked.len() == i,
            forall|k: int|
                0 <= k < i ==> (#[trigger] ranked[k]).position == k && ranked[k].score == episodes[k].2,
        decreases episodes.len() - i,
    {
        ranked.push(Scored { position: i, score: episodes[i].2 });
        i += 1;
    }
    let chosen = select_best(&ranked, 5);
    let ghost lines = snippets(views);
    let mut kept: Vec<String> = Vec::new();
    let mut used: usize = 0;
    let mut k: usize = 0;
    let mut full = false;
    proof {
        lemma_best_members(ranked@, 5);
    }
    while k < chosen.len() && !full
        invariant
            k <= chosen.len(),
            views == digest_views(episodes@),
            ranked@ == by_importance(views),
            chosen@ == best(ranked@, 5),
            forall|i: int| 0 <= i < chosen.len() ==> ranked@.contains(#[trigger] chosen[i]),
            lines == snippets(views),
            lines.len() == chosen.len(),
            used <= max_length,
            !full ==> fitting(lines.take(k as int), max_length as nat) == k,
            !full ==> used == total_bytes(lines.take(k as int)),
            !full ==> kept.deep_view() == lines.take(k as int),
            full ==> kept.deep_view() == lines.take(fitting(lines, max_length as nat) as int),
        decreases chosen.len() - k, if full { 0int } else { 1int },
    {
        proof {
            assert(lines.take(k + 1).drop_last() =~= lines.take(k as int));
        }
        let episode = &episodes[chosen[k].position];
        let mut snippet = String::from_str("[");
        let date = first_chars(episode.0.as_str(), 10);
        snippet.append(date.as_str());
        snippet.append("] ");
        let preview = first_chars(episode.1.as_str(), 50);
        snippet.append(preview.as_str());
        let bytes = snippet.as_str().as_bytes().len();
        if bytes > max_length - used {
            proof {
                lemma_fitting_stops(lines, max_length as nat, k as int);
            }
            full = true;
        } else {
            used += bytes;
            kept.push(snippet);
            k += 1;
        }
    }
    proof {
        if !full {
            assert(lines.take(k as int) =~= lines);
        }
    }
    join(&kept, "\n")
}

/// Once a line does not fit, no later line is taken.
proof fn lemma_fitting_stops(lines: Seq<Seq<char>>, budget: nat, upto: int)
    requires
        0 <= upto < lines.len(),
        fitting(lines.take(upto), budget) == upto,
        total_bytes(lines.take(upto + 1)) > budget,
    ensures
        fitting(lines, budget) == upto,
    decreases lines.len() - upto,
{
    assert(lines.take(upto + 1).drop_last() =~= lines.take(upto));
    lemma_fitting_settled(lines, budget, upto + 1);
}

/// Where fewer lines fit than a prefix holds, the same number fits the whole.
proof fn lemma_fitting_settled(lines: Seq<Seq<char>>, budget: nat, upto: int)
    requires
        0 <= upto <= lines.len(),
        fitting(lines.take(upto), budget) < upto,
    ensures
        fitting(lines, budget) == fitting(lines.take(upto), budget),
    decreases lines.len() - upto,
{
    if upto < lines.len() {
        assert(lines.take(upto + 1).drop_last() =~= lines.take(upto));
        lemma_fitting_settled(lines, budget, upto + 1);
    } else {
        assert(lines.take(upto) =~= lines);
    }
}

} // verus!
