//! A guess at the mood of a text from the words it holds.
//!
//! Three lists of patterns stand for three moods. A text is lowercased and
//! searched for each list; the mood with the most matches wins, a question
//! mark counting as two matches for curiosity.

use vstd::prelude::*;
use vstd::string::*;
use aho_corasick::AhoCorasick;
use crate::call_syntax::{find_char, first_index_of};
use crate::chars::to_chars;
use crate::matcher::{build_matcher, find_matches, matches_in, patterns_of};
use crate::text::lowercase;

verus! {

/// The patterns of a positive mood.
pub open spec fn positive_patterns() -> Seq<Seq<char>> {
    seq![
        "спасибо"@,
        "отлично"@,
        "супер"@,
        "хорошо"@,
        "круто"@,
        "молодец"@,
        "замечательно"@,
        "класс"@,
        "здорово"@,
        "прекрасно"@,
        "великолепно"@,
        "восхитительно"@,
        "браво"@,
        "ура"@,
        "обожаю"@,
        "нравится"@,
        "люблю"@,
        "рад"@,
        "рада"@,
        "счастлив"@,
        "доволен"@,
        "довольна"@,
        "благодарю"@,
        "спс"@,
        "пасиб"@,
        "awesome"@,
        "nice"@,
        "great"@,
        "thanks"@,
        "cool"@,
        "\u{1f44d}"@,
        "\u{1f60a}"@,
        "\u{1f603}"@,
        "\u{2764}\u{fe0f}"@,
        "\u{1f389}"@,
        "\u{1f4aa}"@,
        "\u{1f525}"@,
    ]
}

/// The patterns of a negative mood.
pub open spec fn negative_patterns() -> Seq<Seq<char>> {
    seq![
        "не работает"@,
        "ошибка"@,
        "плохо"@,
        "не получается"@,
        "проблема"@,
        "сломал"@,
        "баг"@,
        "глючит"@,
        "тормозит"@,
        "зависает"@,
        "ужасно"@,
        "отстой"@,
        "бесит"@,
        "раздражает"@,
        "не понимаю"@,
        "запутал"@,
        "неправильно"@,
        "некорректно"@,
        "фигня"@,
        "дерьмо"@,
        "не так"@,
        "broken"@,
        "error"@,
        "bug"@,
        "wrong"@,
        "bad"@,
        "fail"@,
        "\u{1f61e}"@,
        "\u{1f621}"@,
        "\u{1f624}"@,
        "\u{1f494}"@,
        "\u{1f622}"@,
        "\u{1f92c}"@,
    ]
}

/// The patterns of curiosity.
pub open spec fn curious_patterns() -> Seq<Seq<char>> {
    seq![
        "как"@,
        "что"@,
        "почему"@,
        "зачем"@,
        "когда"@,
        "где"@,
        "кто"@,
        "сколько"@,
        "можно ли"@,
        "а если"@,
        "расскажи"@,
        "объясни"@,
        "подскажи"@,
        "помоги"@,
        "покажи"@,
        "научи"@,
        "интересно"@,
        "how"@,
        "what"@,
        "why"@,
        "when"@,
        "where"@,
        "who"@,
        "\u{1f914}"@,
        "\u{2753}"@,
        "\u{1f9d0}"@,
    ]
}

/// Builds the list of positive patterns.
fn positive_list() -> (patterns: Vec<String>)
    ensures
        patterns.deep_view() == positive_patterns(),
{
    let mut patterns: Vec<String> = Vec::new();
    patterns.push(String::from_str("спасибо"));
    patterns.push(String::from_str("отлично"));
    patterns.push(String::from_str("супер"));
    patterns.push(String::from_str("хорошо"));
    patterns.push(String::from_str("круто"));
    patterns.push(String::from_str("молодец"));
    patterns.push(String::from_str("замечательно"));
    patterns.push(String::from_str("класс"));
    patterns.push(String::from_str("здорово"));
    patterns.push(String::from_str("прекрасно"));
    patterns.push(String::from_str("великолепно"));
    patterns.push(String::from_str("восхитительно"));
    patterns.push(String::from_str("браво"));
    patterns.push(String::from_str("ура"));
    patterns.push(String::from_str("обожаю"));
    patterns.push(String::from_str("нравится"));
    patterns.push(String::from_str("люблю"));
    patterns.push(String::from_str("рад"));
    patterns.push(String::from_str("рада"));
    patterns.push(String::from_str("счастлив"));
    patterns.push(String::from_str("доволен"));
    patterns.push(String::from_str("довольна"));
    patterns.push(String::from_str("благодарю"));
    patterns.push(String::from_str("спс"));
    patterns.push(String::from_str("пасиб"));
    patterns.push(String::from_str("awesome"));
    patterns.push(String::from_str("nice"));
    patterns.push(String::from_str("great"));
    patterns.push(String::from_str("thanks"));
    patterns.push(String::from_str("cool"));
    patterns.push(String::from_str("\u{1f44d}"));
    patterns.push(String::from_str("\u{1f60a}"));
    patterns.push(String::from_str("\u{1f603}"));
    patterns.push(String::from_str("\u{2764}\u{fe0f}"));
    patterns.push(String::from_str("\u{1f389}"));
    patterns.push(String::from_str("\u{1f4aa}"));
    patterns.push(String::from_str("\u{1f525}"));
    patterns
}

/// Builds the list of negative patterns.
fn negative_list() -> (patterns: Vec<String>)
    ensures
        patterns.deep_view() == negative_patterns(),
{
    let mut patterns: Vec<String> = Vec::new();
    patterns.push(String::from_str("не работает"));
    patterns.push(String::from_str("ошибка"));
    patterns.push(String::from_str("плохо"));
    patterns.push(String::from_str("не получается"));
    patterns.push(String::from_str("проблема"));
    patterns.push(String::from_str("сломал"));
    patterns.push(String::from_str("баг"));
    patterns.push(String::from_str("глючит"));
    patterns.push(String::from_str("тормозит"));
    patterns.push(String::from_str("зависает"));
    patterns.push(String::from_str("ужасно"));
    patterns.push(String::from_str("отстой"));
    patterns.push(String::from_str("бесит"));
    patterns.push(String::from_str("раздражает"));
    patterns.push(String::from_str("не понимаю"));
    patterns.push(String::from_str("запутал"));
    patterns.push(String::from_str("неправильно"));
    patterns.push(String::from_str("некорректно"));
    patterns.push(String::from_str("фигня"));
    patterns.push(String::from_str("дерьмо"));
    patterns.push(String::from_str("не так"));
    patterns.push(String::from_str("broken"));
    patterns.push(String::from_str("error"));
    patterns.push(String::from_str("bug"));
    patterns.push(String::from_str("wrong"));
    patterns.push(String::from_str("bad"));
    patterns.push(String::from_str("fail"));
    patterns.push(String::from_str("\u{1f61e}"));
    patterns.push(String::from_str("\u{1f621}"));
    patterns.push(String::from_str("\u{1f624}"));
    patterns.push(String::from_str("\u{1f494}"));
    patterns.push(String::from_str("\u{1f622}"));
    patterns.push(String::from_str("\u{1f92c}"));
    patterns
}

/// Builds the list of curious patterns.
fn curious_list() -> (patterns: Vec<String>)
    ensures
        patterns.deep_view() == curious_patterns(),
{
    let mut patterns: Vec<String> = Vec::new();
    patterns.push(String::from_str("как"));
    patterns.push(String::from_str("что"));
    patterns.push(String::from_str("почему"));
    patterns.push(String::from_str("зачем"));
    patterns.push(String::from_str("когда"));
    patterns.push(String::from_str("где"));
    patterns.push(String::from_str("кто"));
    patterns.push(String::from_str("сколько"));
    patterns.push(String::from_str("можно ли"));
    patterns.push(String::from_str("а если"));
    patterns.push(String::from_str("расскажи"));
    patterns.push(String::from_str("объясни"));
    patterns.push(String::from_str("подскажи"));
    patterns.push(String::from_str("помоги"));
    patterns.push(String::from_str("покажи"));
    patterns.push(String::from_str("научи"));
    patterns.push(String::from_str("интересно"));
    patterns.push(String::from_str("how"));
    patterns.push(String::from_str("what"));
    patterns.push(String::from_str("why"));
    patterns.push(String::from_str("when"));
    patterns.push(String::from_str("where"));
    patterns.push(String::from_str("who"));
    patterns.push(String::from_str("\u{1f914}"));
    patterns.push(String::from_str("\u{2753}"));
    patterns.push(String::from_str("\u{1f9d0}"));
    patterns
}

/// A mood.
#[derive(Clone, Copy, Debug, PartialEq, Eq, Structural)]
pub enum Emotion {
    Positive,
    Negative,
    Curious,
    Neutral,
}

/// The mood that the numbers of matches speak for: negative if the negative
/// matches outnumber the positive ones and are no fewer than the curious
/// ones; else positive if the positive matches outnumber the negative ones
/// and are no fewer than the curious ones; else curious if anything speaks
/// for curiosity; else neutral.
pub open spec fn emotion_for(positive: nat, negative: nat, curious: nat) -> Emotion {
    if negative > positive && negative >= curious {
        Emotion::Negative
    } else if positive > negative && positive >= curious {
        Emotion::Positive
    } else if curious > 0 {
        Emotion::Curious
    } else {
        Emotion::Neutral
    }
}

/// The name of a mood.
pub open spec fn label_of(emotion: Emotion) -> Seq<char> {
    match emotion {
        Emotion::Positive => "positive"@,
        Emotion::Negative => "negative"@,
        Emotion::Curious => "curious"@,
        Emotion::Neutral => "neutral"@,
    }
}

/// What a question mark adds to the matches for curiosity.
pub open spec fn question_bonus(text: Seq<char>) -> nat {
    if first_index_of(text, '?') is Some {
        2
    } else {
        0
    }
}

/// The mood of a text: that of the matches found in its lowercase form,
/// with the bonus for a question mark in the text as it stands.
pub open spec fn emotion_of(text: Seq<char>) -> Emotion {
    emotion_for(
        matches_in(positive_patterns(), lowercase(text)).len(),
        matches_in(negative_patterns(), lowercase(text)).len(),
        matches_in(curious_patterns(), lowercase(text)).len() + question_bonus(text),
    )
}

/// The patterns that the numbers of a list of matches stand for.
pub open spec fn matched(patterns: Seq<Seq<char>>, found: Seq<usize>) -> Seq<Seq<char>> {
    Seq::new(found.len(), |i: int| patterns[found[i] as int])
}

/// The patterns that were found in a text: the positive ones, then the
/// negative ones, then the curious ones, each in the order of the matches.
pub open spec fn evidence_in(text: Seq<char>) -> Seq<Seq<char>> {
    matched(positive_patterns(), matches_in(positive_patterns(), lowercase(text))) + matched(
        negative_patterns(),
        matches_in(negative_patterns(), lowercase(text)),
    ) + matched(curious_patterns(), matches_in(curious_patterns(), lowercase(text)))
}

/// How many of the matches in a text speak for its mood; none speak for a
/// neutral mood, and a question mark is no match.
pub open spec fn dominant_in(text: Seq<char>) -> nat {
    match emotion_of(text) {
        Emotion::Positive => matches_in(positive_patterns(), lowercase(text)).len(),
        Emotion::Negative => matches_in(negative_patterns(), lowercase(text)).len(),
        Emotion::Curious => matches_in(curious_patterns(), lowercase(text)).len(),
        Emotion::Neutral => 0,
    }
}

/// The mood of a text with what speaks for it.
#[derive(Debug)]
pub struct Analysis {
    /// The name of the mood.
    pub emotion: String,
    /// How many matches speak for the mood.
    pub dominant: usize,
    /// The patterns that were found, one for each match.
    pub matches: Vec<String>,
}

/// Decides the mood that numbers of matches speak for.
pub fn classify(positive: usize, negative: usize, curious: u128) -> (emotion: Emotion)
    ensures
        emotion == emotion_for(positive as nat, negative as nat, curious as nat),
{
    if negative > positive && negative as u128 >= curious {
        Emotion::Negative
    } else if positive > negative && positive as u128 >= curious {
        Emotion::Positive
    } else if curious > 0 {
        Emotion::Curious
    } else {
        Emotion::Neutral
    }
}

/// Names a mood.
pub fn label(emotion: Emotion) -> (name: String)
    ensures
        name@ == label_of(emotion),
{
    match emotion {
        Emotion::Positive => String::from_str("positive"),
        Emotion::Negative => String::from_str("negative"),
        Emotion::Curious => String::from_str("curious"),
        Emotion::Neutral => String::from_str("neutral"),
    }
}

/// The analyzer: a matcher for each mood, and the patterns of each.
pub struct EmotionAnalyzer {
    positive: AhoCorasick,
    negative: AhoCorasick,
    curious: AhoCorasick,
    positive_words: Vec<String>,
    negative_words: Vec<String>,
    curious_words: Vec<String>,
}

impl EmotionAnalyzer {
    /// The analyzer's invariant: each matcher was built from the patterns of
    /// its mood.
    pub closed spec fn wf(&self) -> bool {
        &&& patterns_of(self.positive) == positive_patterns()
        &&& patterns_of(self.negative) == negative_patterns()
        &&& patterns_of(self.curious) == curious_patterns()
        &&& self.positive_words.deep_view() == positive_patterns()
        &&& self.negative_words.deep_view() == negative_patterns()
        &&& self.curious_words.deep_view() == curious_patterns()
    }

    /// Builds the analyzer. There is none where a matcher cannot be built.
    pub fn new() -> (analyzer: Option<Self>)
        ensures
            analyzer is Some ==> analyzer->0.wf(),
    {
        let positive_words = positive_list();
        let negative_words = negative_list();
        let curious_words = curious_list();
        let positive = build_matcher(&positive_words);
        let negative = build_matcher(&negative_words);
        let curious = build_matcher(&curious_words);
        Self::around(positive, negative, curious, positive_words, negative_words, curious_words)
    }

    /// An analyzer around the matchers that were built for the three moods,
    /// with the patterns of each; none where one of the matchers was not
    /// built.
    fn around(
        positive: Option<AhoCorasick>,
        negative: Option<AhoCorasick>,
        curious: Option<AhoCorasick>,
        positive_words: Vec<String>,
        negative_words: Vec<String>,
        curious_words: Vec<String>,
    ) -> (analyzer: Option<Self>)
        requires
            positive is Some ==> patterns_of(positive->0) == positive_patterns(),
            negative is Some ==> patterns_of(negative->0) == negative_patterns(),
            curious is Some ==> patterns_of(curious->0) == curious_patterns(),
            positive_words.deep_view() == positive_patterns(),
            negative_words.deep_view() == negative_patterns(),
            curious_words.deep_view() == curious_patterns(),
        ensures
            analyzer is Some <==> positive is Some && negative is Some && curious is Some,
            analyzer is Some ==> {
                &&& analyzer->0.wf()
                &&& analyzer->0.positive == positive->0
                &&& analyzer->0.negative == negative->0
                &&& analyzer->0.curious == curious->0
                &&& analyzer->0.positive_words == positive_words
                &&& analyzer->0.negative_words == negative_words
                &&& analyzer->0.curious_words == curious_words
            },
    {
        match (positive, negative, curious) {
            (Some(positive), Some(negative), Some(curious)) => Some(
                EmotionAnalyzer { positive, negative, curious, positive_words, negative_words, curious_words },
            ),
            _ => None,
        }
    }

    /// The mood of a text.
    fn mood(&self, text: &str, lower: &str) -> (emotion: Emotion)
        requires
            self.wf(),
            lower@ == lowercase(text@),
        ensures
            emotion == emotion_of(text@),
    {
        let positive = find_matches(&self.positive, lower).len();
        let negative = find_matches(&self.negative, lower).len();
        let curious = find_matches(&self.curious, lower).len();
        let chars = to_chars(text);
        assert(chars@.subrange(0, chars.len() as int) =~= chars@);
        let bonus: u128 = if find_char(&chars, 0, chars.len(), '?').is_some() {
            2
        } else {
            0
        };
        classify(positive, negative, curious as u128 + bonus)
    }

    /// The name of the mood of a text.
    pub fn analyze(&self, text: &str) -> (emotion: String)
        requires
            self.wf(),
        ensures
            emotion@ == label_of(emotion_of(text@)),
    {
        let lower = text.to_lowercase();
        label(self.mood(text, lower.as_str()))
    }

    /// The mood of a text with the patterns that were found in it. A text
    /// without a match is neutral, question mark or not.
    pub fn analyze_detailed(&self, text: &str) -> (analysis: Analysis)
        requires
            self.wf(),
        ensures
            analysis.matches.deep_view() == evidence_in(text@),
            analysis.emotion@ == if evidence_in(text@).len() == 0 {
                label_of(Emotion::Neutral)
            } else {
                label_of(emotion_of(text@))
            },
            analysis.dominant == if evidence_in(text@).len() == 0 {
                0
            } else {
                dominant_in(text@)
            },
    {
        let lower = text.to_lowercase();
        let positive = find_matches(&self.positive, lower.as_str());
        let negative = find_matches(&self.negative, lower.as_str());
        let curious = find_matches(&self.curious, lower.as_str());
        let mut matches: Vec<String> = Vec::new();
        copy_matched(&mut matches, &self.positive_words, &positive);
        copy_matched(&mut matches, &self.negative_words, &negative);
        copy_matched(&mut matches, &self.curious_words, &curious);
        if matches.len() == 0 {
            return Analysis { emotion: label(Emotion::Neutral), dominant: 0, matches };
        }
        let emotion = self.mood(text, lower.as_str());
        let dominant = match emotion {
            Emotion::Positive => positive.len(),
            Emotion::Negative => negative.len(),
            Emotion::Curious => curious.len(),
            Emotion::Neutral => 0,
        };
        Analysis { emotion: label(emotion), dominant, matches }
    }
}

/// Appends the patterns that a list of matches stands for.
fn copy_matched(out: &mut Vec<String>, patterns: &Vec<String>, found: &Vec<usize>)
    requires
        forall|i: int| 0 <= i < found.len() ==> (#[trigger] found[i]) < patterns.len(),
    ensures
        final(out).deep_view() == old(out).deep_view() + matched(patterns.deep_view(), found@),
{
    let ghost before = out.deep_view();
    let mut i: usize = 0;
    while i < found.len()
        invariant
            i <= found.len(),
            forall|k: int| 0 <= k < found.len() ==> (#[trigger] found[k]) < patterns.len(),
            out.deep_view() == before + matched(patterns.deep_view(), found@.take(i as int)),
        decreases found.len() - i,
    {
        let ghost earlier = out.deep_view();
        out.push(patterns[found[i]].clone());
        proof {
            assert(out.deep_view() =~= earlier.push(patterns[found[i as int] as int]@));
            assert(matched(patterns.deep_view(), found@.take(i + 1)) =~= matched(
                patterns.deep_view(),
                found@.take(i as int),
            ).push(patterns[found[i as int] as int]@));
        }
        i += 1;
    }
}

} // verus!
