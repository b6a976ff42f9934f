//! The thread of a conversation: its topic, what was said in it, and whether
//! a new text goes on with it.
//!
//! A thread is active until more seconds than the timeout have passed since
//! it started. Every operation that depends on the time comes in two forms:
//! one that is given the time, and one that reads the clock once and then does
//! the same.

use vstd::prelude::*;
use vstd::string::*;
use aho_corasick::AhoCorasick;
use crate::chars::{contains_text, join, joined, occurs_in, shown, to_chars};
use crate::clock::{current_instant, elapsed_seconds, seconds_between, Instant};
use crate::matcher::{any_match, build_matcher, patterns_of};
use crate::text::{first_chars, leading, lowercase};

verus! {

/// One exchange of a thread.
#[derive(Debug)]
pub struct ThreadMessage {
    pub user: String,
    pub assistant: String,
    pub timestamp: Instant,
}

/// What an exchange says.
pub struct MessageView {
    pub user: Seq<char>,
    pub assistant: Seq<char>,
    pub timestamp: Instant,
}

impl View for ThreadMessage {
    type V = MessageView;

    open spec fn view(&self) -> MessageView {
        MessageView { user: self.user@, assistant: self.assistant@, timestamp: self.timestamp }
    }
}

/// The thread that is going on.
#[derive(Debug)]
pub struct CurrentThread {
    pub topic: String,
    pub entities: Vec<String>,
    pub started: Instant,
    pub messages: Vec<ThreadMessage>,
}

/// What a thread says.
pub struct ThreadView {
    pub topic: Seq<char>,
    pub entities: Seq<Seq<char>>,
    pub started: Instant,
    pub messages: Seq<MessageView>,
}

/// What a sequence of exchanges says.
pub open spec fn message_views(messages: Seq<ThreadMessage>) -> Seq<MessageView> {
    Seq::new(messages.len(), |i: int| messages[i]@)
}

impl View for CurrentThread {
    type V = ThreadView;

    open spec fn view(&self) -> ThreadView {
        ThreadView {
            topic: self.topic@,
            entities: self.entities.deep_view(),
            started: self.started,
            messages: message_views(self.messages@),
        }
    }
}

/// A thread that is over.
#[derive(Debug)]
pub struct ArchivedThread {
    pub topic: String,
    /// How many whole seconds the thread lasted.
    pub duration_secs: i128,
    pub message_count: usize,
}

/// What an archived thread says.
pub struct ArchivedView {
    pub topic: Seq<char>,
    pub duration_secs: int,
    pub message_count: nat,
}

impl View for ArchivedThread {
    type V = ArchivedView;

    open spec fn view(&self) -> ArchivedView {
        ArchivedView {
            topic: self.topic@,
            duration_secs: self.duration_secs as int,
            message_count: self.message_count as nat,
        }
    }
}

/// What a sequence of archived threads says.
pub open spec fn archived_views(history: Seq<ArchivedThread>) -> Seq<ArchivedView> {
    Seq::new(history.len(), |i: int| history[i]@)
}

/// What a tracker holds.
pub struct TrackerView {
    /// The thread that is going on, if any.
    pub current: Option<ThreadView>,
    /// The threads that are over, oldest first.
    pub history: Seq<ArchivedView>,
}

/// How many archived threads are kept.
pub open spec fn history_limit() -> nat {
    20
}

/// How many characters of the first text become the topic of a thread that
/// starts by itself.
pub open spec fn topic_length() -> nat {
    50
}

/// The phrases that refer back to what was said before.
pub open spec fn context_indicators() -> Seq<Seq<char>> {
    seq![
        "помнишь"@,
        "как мы говорили"@,
        "в той же теме"@,
        "продолжим"@,
        "вернёмся к"@,
        "насчёт того"@,
        "по поводу"@,
        "как я говорил"@,
        "об этом же"@,
    ]
}

/// The history after a thread was archived at `now`: the thread is appended
/// with its duration and the number of its exchanges, and only the last
/// twenty threads are kept.
pub open spec fn archived(history: Seq<ArchivedView>, thread: ThreadView, now: Instant) -> Seq<ArchivedView> {
    let grown = history.push(
        ArchivedView {
            topic: thread.topic,
            duration_secs: seconds_between(now, thread.started),
            message_count: thread.messages.len(),
        },
    );
    if grown.len() > history_limit() {
        grown.skip(grown.len() - history_limit())
    } else {
        grown
    }
}

/// The tracker after the thread that is going on, if any, was ended at `now`.
pub open spec fn ended(tracker: TrackerView, now: Instant) -> TrackerView {
    match tracker.current {
        Some(thread) => TrackerView { current: None, history: archived(tracker.history, thread, now) },
        None => tracker,
    }
}

/// The tracker after a thread was started at `now`: the thread that was
/// going on is ended first.
pub open spec fn started(
    tracker: TrackerView,
    topic: Seq<char>,
    entities: Seq<Seq<char>>,
    now: Instant,
) -> TrackerView {
    TrackerView {
        current: Some(ThreadView { topic, entities, started: now, messages: Seq::empty() }),
        history: ended(tracker, now).history,
    }
}

/// A thread with one more exchange.
pub open spec fn with_message(thread: ThreadView, user: Seq<char>, assistant: Seq<char>, now: Instant) -> ThreadView {
    ThreadView { messages: thread.messages.push(MessageView { user, assistant, timestamp: now }), ..thread }
}

/// The tracker after an exchange was added at `now` to the thread that is
/// going on; without a thread nothing changes.
pub open spec fn with_exchange(
    tracker: TrackerView,
    user: Seq<char>,
    assistant: Seq<char>,
    now: Instant,
) -> TrackerView {
    match tracker.current {
        Some(thread) => TrackerView { current: Some(with_message(thread, user, assistant, now)), ..tracker },
        None => tracker,
    }
}

/// Whether the thread that is going on has been silent for too long at
/// `now`: more seconds than the timeout have passed since its last exchange.
/// A thread without exchanges is never silent for too long.
pub open spec fn gone_silent(tracker: TrackerView, timeout: i64, now: Instant) -> bool {
    match tracker.current {
        Some(thread) => thread.messages.len() > 0 && seconds_between(now, thread.messages.last().timestamp)
            > timeout,
        None => false,
    }
}

/// The tracker after an exchange was recorded at `now`: a thread that has
/// gone silent is ended; where no thread is going on then, one starts whose
/// topic is the first fifty characters of what the user said; the exchange
/// is added to the thread.
pub open spec fn updated(
    tracker: TrackerView,
    timeout: i64,
    user: Seq<char>,
    assistant: Seq<char>,
    now: Instant,
) -> TrackerView {
    let settled = if gone_silent(tracker, timeout, now) {
        ended(tracker, now)
    } else {
        tracker
    };
    let thread = match settled.current {
        Some(thread) => thread,
        None => ThreadView {
            topic: leading(user, topic_length()),
            entities: Seq::empty(),
            started: now,
            messages: Seq::empty(),
        },
    };
    TrackerView { current: Some(with_message(thread, user, assistant, now)), history: settled.history }
}

/// Whether a thread is active at `now`: no more seconds than the timeout
/// have passed since it started.
pub open spec fn is_active(thread: ThreadView, timeout: i64, now: Instant) -> bool {
    seconds_between(now, thread.started) <= timeout
}

/// Whether a thread is going on and is active at `now`.
pub open spec fn active_at(tracker: TrackerView, timeout: i64, now: Instant) -> bool {
    match tracker.current {
        Some(thread) => is_active(thread, timeout, now),
        None => false,
    }
}

/// The entities that a thread starts with: those given, or none.
pub open spec fn given_entities(entities: Option<Vec<String>>) -> Seq<Seq<char>> {
    match entities {
        Some(names) => names.deep_view(),
        None => Seq::empty(),
    }
}

/// Whether a text goes on with a thread: lowercased, it holds the
/// lowercased topic, or a lowercased entity, or one of the phrases that refer
/// back.
pub open spec fn goes_on_with(thread: ThreadView, text: Seq<char>) -> bool {
    let lower = lowercase(text);
    ||| occurs_in(lower, lowercase(thread.topic))
    ||| exists|i: int| 0 <= i < thread.entities.len() && occurs_in(lower, lowercase(#[trigger] thread.entities[i]))
    ||| exists|i: int| 0 <= i < context_indicators().len() && occurs_in(lower, #[trigger] context_indicators()[i])
}

/// Whether a text is related to the thread that is going on at `now`.
pub open spec fn related(tracker: TrackerView, timeout: i64, text: Seq<char>, now: Instant) -> bool {
    match tracker.current {
        Some(thread) => is_active(thread, timeout, now) && goes_on_with(thread, text),
        None => false,
    }
}

/// The first `count` items, or all of them when there are fewer.
pub open spec fn first_few<T>(items: Seq<T>, count: nat) -> Seq<T> {
    if items.len() <= count {
        items
    } else {
        items.take(count as int)
    }
}

/// The last `count` items, or all of them when there are fewer.
pub open spec fn last_few<T>(items: Seq<T>, count: nat) -> Seq<T> {
    if items.len() <= count {
        items
    } else {
        items.skip(items.len() - count)
    }
}

/// The lines that show the last exchanges: for each what the user said, cut
/// to sixty characters.
pub open spec fn recent_lines(messages: Seq<MessageView>) -> Seq<Seq<char>> {
    Seq::new(messages.len(), |i: int| "  Пользователь: "@ + leading(messages[i].user, 60))
}

/// The parts of the description of a thread: its topic; its first five
/// entities, if it has any; and its last three exchanges, if it has any,
/// under a heading.
pub open spec fn context_parts(thread: ThreadView) -> Seq<Seq<char>> {
    let topic = seq!["Текущая тема: "@ + thread.topic];
    let entities = if thread.entities.len() > 0 {
        seq!["Упоминается: "@ + joined(first_few(thread.entities, 5), ", "@)]
    } else {
        Seq::empty()
    };
    let recent = if thread.messages.len() > 0 {
        seq!["\nПоследние сообщения:"@] + recent_lines(last_few(thread.messages, 3))
    } else {
        Seq::empty()
    };
    topic + entities + recent
}

/// The description of the thread that is going on at `now`, if it is
/// active: its parts, one to a line.
pub open spec fn context_at(tracker: TrackerView, timeout: i64, now: Instant) -> Option<Seq<char>> {
    match tracker.current {
        Some(thread) => if is_active(thread, timeout, now) {
            Some(joined(context_parts(thread), "\n"@))
        } else {
            None
        },
        None => None,
    }
}

/// Builds the list of phrases that refer back.
fn indicator_list() -> (patterns: Vec<String>)
    ensures
        patterns.deep_view() == context_indicators(),
{
    let mut patterns: Vec<String> = Vec::new();
    patterns.push(String::from_str("помнишь"));
    patterns.push(String::from_str("как мы говорили"));
    patterns.push(String::from_str("в той же теме"));
    patterns.push(String::from_str("продолжим"));
    patterns.push(String::from_str("вернёмся к"));
    patterns.push(String::from_str("насчёт того"));
    patterns.push(String::from_str("по поводу"));
    patterns.push(String::from_str("как я говорил"));
    patterns.push(String::from_str("об этом же"));
    patterns
}

/// Archives a thread at `now`.
pub fn archive_thread(thread: CurrentThread, history: &mut Vec<ArchivedThread>, now: Instant)
    ensures
        archived_views(final(history)@) == archived(archived_views(old(history)@), thread@, now),
{
    let ghost before = archived_views(history@);
    let duration_secs = elapsed_seconds(now, thread.started);
    let message_count = thread.messages.len();
    history.push(ArchivedThread { topic: thread.topic, duration_secs, message_count });
    let ghost grown = archived_views(history@);
    proof {
        assert(grown =~= before.push(
            ArchivedView {
                topic: thread@.topic,
                duration_secs: seconds_between(now, thread@.started),
                message_count: thread@.messages.len(),
            },
        ));
    }
    while history.len() > 20
        invariant
            history.len() <= grown.len(),
            history.len() >= 20 || history.len() == grown.len(),
            archived_views(history@) == grown.skip(grown.len() - history.len()),
        decreases history.len(),
    {
        let ghost earlier = archived_views(history@);
        history.remove(0);
        proof {
            assert(archived_views(history@) =~= earlier.remove(0));
        }
    }
}

/// The tracker.
pub struct ThreadTracker {
    timeout_secs: i64,
    current: Option<CurrentThread>,
    history: Vec<ArchivedThread>,
    indicators: AhoCorasick,
}

impl View for ThreadTracker {
    type V = TrackerView;

    closed spec fn view(&self) -> TrackerView {
        TrackerView {
            current: match self.current {
                Some(thread) => Some(thread@),
                None => None,
            },
            history: archived_views(self.history@),
        }
    }
}

impl ThreadTracker {
    /// The timeout in seconds.
    pub closed spec fn timeout(&self) -> i64 {
        self.timeout_secs
    }

    /// The tracker's invariant: its matcher was built from the phrases that
    /// refer back.
    pub closed spec fn wf(&self) -> bool {
        patterns_of(self.indicators) == context_indicators()
    }

    /// A tracker without a thread. There is none where the matcher cannot be
    /// built.
    pub fn new(timeout_secs: i64) -> (tracker: Option<Self>)
        ensures
            tracker is Some ==> {
                &&& tracker->0.wf()
                &&& tracker->0.timeout() == timeout_secs
                &&& tracker->0@.current is None
                &&& tracker->0@.history.len() == 0
            },
    {
        let patterns = indicator_list();
        Self::around(timeout_secs, build_matcher(&patterns))
    }

    /// A tracker without a thread around the matcher that was built for the
    /// phrases that refer back; none where no matcher was built.
    fn around(timeout_secs: i64, built: Option<AhoCorasick>) -> (tracker: Option<Self>)
        requires
            built is Some ==> patterns_of(built->0) == context_indicators(),
        ensures
            tracker is Some <==> built is Some,
            tracker is Some ==> {
                &&& tracker->0.wf()
                &&& tracker->0.indicators == built->0
                &&& tracker->0.timeout() == timeout_secs
                &&& tracker->0@.current is None
                &&& tracker->0@.history.len() == 0
            },
    {
        match built {
            Some(indicators) => Some(
                ThreadTracker { timeout_secs, current: None, history: Vec::new(), indicators },
            ),
            None => None,
        }
    }

    /// Ends the thread that is going on, if any, at the given time.
    pub fn end_thread_at(&mut self, now: Instant)
        requires
            old(self).wf(),
        ensures
            final(self).wf(),
            final(self).timeout() == old(self).timeout(),
            final(self)@ == ended(old(self)@, now),
    {
        let mut current: Option<CurrentThread> = None;
        std::mem::swap(&mut self.current, &mut current);
        match current {
            Some(thread) => {
                archive_thread(thread, &mut self.history, now);
            },
            None => {},
        }
    }

    /// Ends the thread that is going on, if any.
    pub fn end_thread(&mut self)
        requires
            old(self).wf(),
        ensures
            final(self).wf(),
            final(self).timeout() == old(self).timeout(),
            exists|now: Instant| final(self)@ == #[trigger] ended(old(self)@, now),
    {
        let now = current_instant();
        self.end_thread_at(now);
    }

    /// Starts a thread at the given time; the thread that was going on is
    /// ended first.
    pub fn start_thread_at(&mut self, topic: &str, entities: Option<Vec<String>>, now: Instant)
        requires
            old(self).wf(),
        ensures
            final(self).wf(),
            final(self).timeout() == old(self).timeout(),
            final(self)@ == started(old(self)@, topic@, given_entities(entities), now),
    {
        self.end_thread_at(now);
        let entities = match entities {
            Some(names) => names,
            None => {
                let names: Vec<String> = Vec::new();
                assert(names.deep_view() =~= Seq::empty());
                names
            },
        };
        let thread = CurrentThread { topic: topic.to_owned(), entities, started: now, messages: Vec::new() };
        assert(message_views(thread.messages@) =~= Seq::empty());
        self.current = Some(thread);
    }

    /// Starts a thread.
    pub fn start_thread(&mut self, topic: &str, entities: Option<Vec<String>>)
        requires
            old(self).wf(),
        ensures
            final(self).wf(),
            final(self).timeout() == old(self).timeout(),
            exists|now: Instant| final(self)@ == #[trigger] started(old(self)@, topic@, given_entities(entities), now),
    {
        let now = current_instant();
        self.start_thread_at(topic, entities, now);
    }

    /// Adds an exchange, stamped with the given time, to the thread that is
    /// going on.
    pub fn add_message_at(&mut self, user_input: &str, response: &str, now: Instant)
        requires
            old(self).wf(),
        ensures
            final(self).wf(),
            final(self).timeout() == old(self).timeout(),
            final(self)@ == with_exchange(old(self)@, user_input@, response@, now),
    {
        let mut current: Option<CurrentThread> = None;
        std::mem::swap(&mut self.current, &mut current);
        match current {
            Some(thread) => {
                let mut thread = thread;
                let ghost before = message_views(thread.messages@);
                thread.messages.push(
                    ThreadMessage { user: user_input.to_owned(), assistant: response.to_owned(), timestamp: now },
                );
                assert(message_views(thread.messages@) =~= before.push(
                    MessageView { user: user_input@, assistant: response@, timestamp: now },
                ));
                self.current = Some(thread);
            },
            None => {},
        }
    }

    /// Adds an exchange to the thread that is going on.
    pub fn add_message(&mut self, user_input: &str, response: &str)
        requires
            old(self).wf(),
        ensures
            final(self).wf(),
            final(self).timeout() == old(self).timeout(),
            exists|now: Instant| final(self)@ == #[trigger] with_exchange(old(self)@, user_input@, response@, now),
    {
        let now = current_instant();
        self.add_message_at(user_input, response, now);
    }

    /// Whether the thread that is going on has gone silent at the given
    /// time.
    fn has_gone_silent(&self, now: Instant) -> (silent: bool)
        ensures
            silent == gone_silent(self@, self.timeout(), now),
    {
        match &self.current {
            Some(thread) => {
                if thread.messages.len() > 0 {
                    let last = &thread.messages[thread.messages.len() - 1];
                    elapsed_seconds(now, last.timestamp) > self.timeout_secs as i128
                } else {
                    false
                }
            },
            None => false,
        }
    }

    /// Records an exchange at the given time.
    pub fn update_at(&mut self, user_input: &str, response: &str, now: Instant)
        requires
            old(self).wf(),
        ensures
            final(self).wf(),
            final(self).timeout() == old(self).timeout(),
            final(self)@ == updated(old(self)@, old(self).timeout(), user_input@, response@, now),
    {
        if self.has_gone_silent(now) {
            self.end_thread_at(now);
        }
        if self.current.is_none() {
            let thread = CurrentThread {
                topic: first_chars(user_input, 50),
                entities: Vec::new(),
                started: now,
                messages: Vec::new(),
            };
            assert(message_views(thread.messages@) =~= Seq::empty());
            assert(thread.entities.deep_view() =~= Seq::empty());
            self.current = Some(thread);
        }
        self.add_message_at(user_input, response, now);
    }

    /// Records an exchange.
    pub fn update(&mut self, user_input: &str, response: &str)
        requires
            old(self).wf(),
        ensures
            final(self).wf(),
            final(self).timeout() == old(self).timeout(),
            exists|now: Instant|
                final(self)@ == #[trigger] updated(old(self)@, old(self).timeout(), user_input@, response@, now),
    {
        let now = current_instant();
        self.update_at(user_input, response, now);
    }

    /// Whether a text is related to the thread that is going on at the given
    /// time.
    pub fn is_related_at(&self, text: &str, now: Instant) -> (yes: bool)
        requires
            self.wf(),
        ensures
            yes == related(self@, self.timeout(), text@, now),
    {
        let thread = match &self.current {
            Some(thread) => thread,
            None => {
                return false;
            },
        };
        if elapsed_seconds(now, thread.started) > self.timeout_secs as i128 {
            return false;
        }
        let lower = text.to_lowercase();
        let lower_chars = to_chars(lower.as_str());
        let topic = thread.topic.as_str().to_lowercase();
        if contains_text(&lower_chars, &to_chars(topic.as_str())) {
            return true;
        }
        let mut i: usize = 0;
        while i < thread.entities.len()
            invariant
                i <= thread.entities.len(),
                lower_chars@ == lowercase(text@),
                self@.current == Some(thread@),
                is_active(thread@, self.timeout(), now),
                forall|k: int|
                    0 <= k < i ==> !occurs_in(lowercase(text@), lowercase(#[trigger] thread.entities.deep_view()[k])),
            decreases thread.entities.len() - i,
        {
            let entity = thread.entities[i].as_str().to_lowercase();
            if contains_text(&lower_chars, &to_chars(entity.as_str())) {
                proof {
                    let view = thread@;
                    assert(occurs_in(lowercase(text@), lowercase(view.entities[i as int])));
                }
                return true;
            }
            i += 1;
        }
        any_match(&self.indicators, lower.as_str())
    }

    /// Whether a text is related to the thread that is going on.
    pub fn is_related(&self, text: &str) -> (yes: bool)
        requires
            self.wf(),
        ensures
            exists|now: Instant| yes == #[trigger] related(self@, self.timeout(), text@, now),
    {
        let now = current_instant();
        self.is_related_at(text, now)
    }

    /// Whether a thread is going on and is active at the given time.
    pub fn has_active_thread_at(&self, now: Instant) -> (active: bool)
        ensures
            active == active_at(self@, self.timeout(), now),
    {
        match &self.current {
            Some(thread) => elapsed_seconds(now, thread.started) <= self.timeout_secs as i128,
            None => false,
        }
    }

    /// Whether a thread is going on and is active.
    pub fn has_active_thread(&self) -> (active: bool)
        ensures
            exists|now: Instant| active == #[trigger] active_at(self@, self.timeout(), now),
    {
        let now = current_instant();
        self.has_active_thread_at(now)
    }

    /// The topic of the thread that is going on, active or not.
    pub fn get_current_topic(&self) -> (topic: Option<String>)
        ensures
            shown(topic) == match self@.current {
                Some(thread) => Some(thread.topic),
                None => None,
            },
    {
        match &self.current {
            Some(thread) => Some(thread.topic.clone()),
            None => None,
        }
    }

    /// Whether a thread is going on, active or not.
    pub fn get_stats(&self) -> (has_thread: bool)
        ensures
            has_thread == (self@.current is Some),
    {
        self.current.is_some()
    }

    /// The last `limit` archived threads, oldest first: for each its topic,
    /// how many seconds it lasted, and how many exchanges it had.
    pub fn get_past_threads(&self, limit: usize) -> (past: Vec<(String, i128, usize)>)
        ensures
            past.len() == last_few(self@.history, limit as nat).len(),
            forall|i: int|
                0 <= i < past.len() ==> {
                    let thread = last_few(self@.history, limit as nat)[i];
                    &&& (#[trigger] past[i]).0@ == thread.topic
                    &&& past[i].1 == thread.duration_secs
                    &&& past[i].2 == thread.message_count
                },
    {
        let start = if self.history.len() > limit {
            self.history.len() - limit
        } else {
            0
        };
        let ghost wanted = last_few(archived_views(self.history@), limit as nat);
        let mut past: Vec<(String, i128, usize)> = Vec::new();
        let mut i: usize = start;
        while i < self.history.len()
            invariant
                start <= i <= self.history.len(),
                start == self.history.len() - wanted.len(),
                wanted == last_few(archived_views(self.history@), limit as nat),
                past.len() == i - start,
                forall|k: int|
                    0 <= k < past.len() ==> (#[trigger] past[k]).0@ == wanted[k].topic && past[k].1
                        == wanted[k].duration_secs && past[k].2 == wanted[k].message_count,
            decreases self.history.len() - i,
        {
            let thread = &self.history[i];
            past.push((thread.topic.clone(), thread.duration_secs, thread.message_count));
            i += 1;
        }
        past
    }

    /// The description of the thread that is going on at the given time, if
    /// it is active.
    pub fn get_context_at(&self, now: Instant) -> (context: Option<String>)
        ensures
            shown(context) == context_at(self@, self.timeout(), now),
    {
        let thread = match &self.current {
            Some(thread) => thread,
            None => {
                return None;
            },
        };
        if elapsed_seconds(now, thread.started) > self.timeout_secs as i128 {
            return None;
        }
        let mut parts: Vec<String> = Vec::new();
        let mut topic = String::from_str("Текущая тема: ");
        topic.append(thread.topic.as_str());
        parts.push(topic);
        if thread.entities.len() > 0 {
            let mut few: Vec<String> = Vec::new();
            let mut i: usize = 0;
            while i < thread.entities.len() && i < 5
                invariant
                    i <= thread.entities.len(),
                    i <= 5,
                    few.deep_view() == thread.entities.deep_view().take(i as int),
                decreases thread.entities.len() - i,
            {
                let ghost before = few.deep_view();
                few.push(thread.entities[i].clone());
                assert(few.deep_view() =~= before.push(thread.entities[i as int]@));
                i += 1;
            }
            proof {
                if thread.entities.len() <= 5 {
                    assert(thread.entities.deep_view().take(i as int) =~= thread.entities.deep_view());
                }
            }
            let mut line = String::from_str("Упоминается: ");
            let list = join(&few, ", ");
            line.append(list.as_str());
            parts.push(line);
        }
        if thread.messages.len() > 0 {
            let ghost head = parts.deep_view();
            let heading = String::from_str("\nПоследние сообщения:");
            parts.push(heading);
            let start = if thread.messages.len() > 3 {
                thread.messages.len() - 3
            } else {
                0
            };
            let ghost recent = last_few(thread@.messages, 3);
            let ghost fixed = head.push(heading@);
            let mut i: usize = start;
            while i < thread.messages.len()
                invariant
                    start <= i <= thread.messages.len(),
                    recent == last_few(thread@.messages, 3),
                    start == thread.messages.len() - recent.len(),
                    parts.deep_view() == fixed + recent_lines(recent).take(i - start),
                decreases thread.messages.len() - i,
            {
                let ghost before = parts.deep_view();
                let mut line = String::from_str("  Пользователь: ");
                let preview = first_chars(thread.messages[i].user.as_str(), 60);
                line.append(preview.as_str());
                parts.push(line);
                proof {
                    assert(parts.deep_view() =~= before.push(line@));
                    assert(recent_lines(recent).take(i - start + 1) =~= recent_lines(recent).take(i - start).push(
                        line@,
                    ));
                }
                i += 1;
            }
            proof {
                assert(parts.deep_view() =~= context_parts(thread@));
            }
        } else {
            proof {
                assert(parts.deep_view() =~= context_parts(thread@));
            }
        }
        Some(join(&parts, "\n"))
    }

    /// The description of the thread that is going on, if it is active.
    pub fn get_context(&self) -> (context: Option<String>)
        ensures
            exists|now: Instant| shown(context) == #[trigger] context_at(self@, self.timeout(), now),
    {
        let now = current_instant();
        self.get_context_at(now)
    }
}

} // verus!
