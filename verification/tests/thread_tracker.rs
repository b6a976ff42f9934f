use kristina_core::clock::Instant;
use kristina_core::thread_tracker::{archive_thread, ArchivedThread, CurrentThread, ThreadTracker};

fn at(secs: i64) -> Instant {
    Instant { secs, nanos: 0 }
}

#[test]
fn test_start_and_get_topic() {
    let mut tracker = ThreadTracker::new(600).unwrap();
    tracker.start_thread("тестовая тема", None);
    assert_eq!(tracker.get_current_topic(), Some("тестовая тема".to_string()));
    assert!(tracker.has_active_thread());
}

#[test]
fn test_is_related() {
    let mut tracker = ThreadTracker::new(600).unwrap();
    tracker.start_thread("Rust программирование", Some(vec!["cargo".to_string()]));
    assert!(tracker.is_related("Расскажи про Rust программирование"));
    assert!(tracker.is_related("что там с cargo?"));
    assert!(tracker.is_related("помнишь, мы обсуждали?"));
}

#[test]
fn test_end_thread_archives() {
    let mut tracker = ThreadTracker::new(600).unwrap();
    tracker.start_thread("тема 1", None);
    tracker.add_message("привет", "здравствуй");
    tracker.end_thread();

    assert!(tracker.get_current_topic().is_none());
    let past = tracker.get_past_threads(5);
    assert_eq!(past.len(), 1);
    assert_eq!(past[0].0, "тема 1");
}

#[test]
fn test_update_creates_thread() {
    let mut tracker = ThreadTracker::new(600).unwrap();
    tracker.update("новое сообщение", "ответ");
    assert!(tracker.has_active_thread());
}

#[test]
fn new_tracker_has_no_thread() {
    let tracker = ThreadTracker::new(600).unwrap();
    assert!(!tracker.get_stats());
    assert!(!tracker.has_active_thread());
    assert!(!tracker.has_active_thread_at(at(0)));
    assert!(!tracker.is_related("помнишь?"));
    assert_eq!(tracker.get_context(), None);
    assert_eq!(tracker.get_current_topic(), None);
    assert!(tracker.get_past_threads(5).is_empty());
}

#[test]
fn thread_is_active_until_the_timeout_has_passed() {
    let mut tracker = ThreadTracker::new(600).unwrap();
    tracker.start_thread_at("topic", None, at(1000));
    assert!(tracker.has_active_thread_at(at(1000)));
    assert!(tracker.has_active_thread_at(at(1600)));
    assert!(tracker.has_active_thread_at(Instant { secs: 1600, nanos: 999_999_999 }));
    assert!(!tracker.has_active_thread_at(at(1601)));
    assert!(tracker.has_active_thread_at(at(0)));
    assert!(tracker.is_related_at("about the TOPIC", at(1600)));
    assert!(!tracker.is_related_at("about the TOPIC", at(1601)));
    assert!(tracker.get_context_at(at(1601)).is_none());
    // the thread is still there
    assert!(tracker.get_stats());
    assert_eq!(tracker.get_current_topic(), Some("topic".to_string()));
}

#[test]
fn unrelated_text_is_not_related() {
    let mut tracker = ThreadTracker::new(600).unwrap();
    tracker.start_thread_at("Погода", Some(vec!["Дождь".to_string(), "снег".to_string()]), at(0));
    assert!(tracker.is_related_at("какая ПОГОДА завтра", at(1)));
    assert!(tracker.is_related_at("будет ли дождь", at(1)));
    assert!(tracker.is_related_at("Снегопад", at(1)));
    assert!(tracker.is_related_at("Продолжим?", at(1)));
    assert!(tracker.is_related_at("ну, по поводу вчерашнего", at(1)));
    assert!(!tracker.is_related_at("совсем другое", at(1)));
    assert!(!tracker.is_related_at("", at(1)));
}

#[test]
fn starting_a_thread_archives_the_one_before() {
    let mut tracker = ThreadTracker::new(600).unwrap();
    tracker.start_thread_at("first", None, at(100));
    tracker.add_message_at("a", "b", at(110));
    tracker.add_message_at("c", "d", at(120));
    tracker.start_thread_at("second", None, at(175));
    assert_eq!(tracker.get_current_topic(), Some("second".to_string()));
    assert_eq!(tracker.get_past_threads(5), vec![("first".to_string(), 75, 2)]);
    tracker.end_thread_at(at(180));
    assert_eq!(
        tracker.get_past_threads(5),
        vec![("first".to_string(), 75, 2), ("second".to_string(), 5, 0)]
    );
    assert_eq!(tracker.get_past_threads(1), vec![("second".to_string(), 5, 0)]);
    assert!(tracker.get_past_threads(0).is_empty());
    tracker.end_thread_at(at(190));
    assert_eq!(tracker.get_past_threads(5).len(), 2);
}

#[test]
fn add_message_without_a_thread_does_nothing() {
    let mut tracker = ThreadTracker::new(600).unwrap();
    tracker.add_message("hello", "hi");
    assert!(!tracker.get_stats());
    assert!(tracker.get_past_threads(5).is_empty());
}

#[test]
fn update_starts_a_thread_named_after_the_text() {
    let mut tracker = ThreadTracker::new(600).unwrap();
    let long = "я".repeat(70);
    tracker.update_at(&long, "ответ", at(50));
    assert_eq!(tracker.get_current_topic(), Some("я".repeat(50)));
    tracker.end_thread_at(at(60));
    assert_eq!(tracker.get_past_threads(5), vec![("я".repeat(50), 10, 1)]);
}

#[test]
fn update_ends_a_thread_that_has_gone_silent() {
    let mut tracker = ThreadTracker::new(600).unwrap();
    tracker.start_thread_at("old topic", None, at(0));
    // a thread without exchanges never goes silent
    tracker.update_at("first", "reply", at(5000));
    assert_eq!(tracker.get_current_topic(), Some("old topic".to_string()));
    // 600 s after the last exchange is not too long
    tracker.update_at("second", "reply", at(5600));
    assert_eq!(tracker.get_current_topic(), Some("old topic".to_string()));
    // 601 s is
    tracker.update_at("third one", "reply", at(6201));
    assert_eq!(tracker.get_current_topic(), Some("third one".to_string()));
    assert_eq!(tracker.get_past_threads(5), vec![("old topic".to_string(), 6201, 2)]);
    assert!(tracker.has_active_thread_at(at(6201)));
}

#[test]
fn context_describes_the_thread() {
    let mut tracker = ThreadTracker::new(600).unwrap();
    tracker.start_thread_at("Rust", None, at(0));
    assert_eq!(tracker.get_context_at(at(1)), Some("Текущая тема: Rust".to_string()));
    let entities: Vec<String> = (1..=7).map(|i| format!("e{}", i)).collect();
    tracker.start_thread_at("Rust", Some(entities), at(0));
    assert_eq!(
        tracker.get_context_at(at(1)),
        Some("Текущая тема: Rust\nУпоминается: e1, e2, e3, e4, e5".to_string())
    );
    let long = "д".repeat(61);
    for text in ["one", "two", long.as_str(), "four"] {
        tracker.add_message_at(text, "reply", at(2));
    }
    let expected = format!(
        "Текущая тема: Rust\nУпоминается: e1, e2, e3, e4, e5\n\nПоследние сообщения:\n  Пользователь: two\n  Пользователь: {}\n  Пользователь: four",
        "д".repeat(60)
    );
    assert_eq!(tracker.get_context_at(at(3)), Some(expected));
    // by the clock of today the thread of 1970 is long over
    assert!(tracker.get_context().is_none());
    tracker.start_thread("now", None);
    assert_eq!(tracker.get_context(), Some("Текущая тема: now".to_string()));
}

#[test]
fn context_with_one_message() {
    let mut tracker = ThreadTracker::new(600).unwrap();
    tracker.update_at("hello there", "hi", at(0));
    assert_eq!(
        tracker.get_context_at(at(0)),
        Some("Текущая тема: hello there\n\nПоследние сообщения:\n  Пользователь: hello there".to_string())
    );
}

#[test]
fn history_keeps_the_last_twenty_threads() {
    let mut tracker = ThreadTracker::new(600).unwrap();
    for i in 0..25 {
        tracker.start_thread_at(&format!("topic {}", i), None, at(i));
    }
    tracker.end_thread_at(at(30));
    let past = tracker.get_past_threads(100);
    assert_eq!(past.len(), 20);
    assert_eq!(past[0].0, "topic 5");
    assert_eq!(past[19], ("topic 24".to_string(), 6, 0));
}

#[test]
fn archive_thread_appends_and_trims() {
    let mut history: Vec<ArchivedThread> = Vec::new();
    let thread = CurrentThread {
        topic: "t".to_string(),
        entities: vec![],
        started: Instant { secs: 10, nanos: 500_000_000 },
        messages: vec![],
    };
    archive_thread(thread, &mut history, at(12));
    assert_eq!(history.len(), 1);
    assert_eq!(history[0].topic, "t");
    assert_eq!(history[0].duration_secs, 1);
    assert_eq!(history[0].message_count, 0);
}

#[test]
fn negative_timeout_makes_every_thread_inactive() {
    let mut tracker = ThreadTracker::new(-1).unwrap();
    tracker.start_thread_at("topic", None, at(100));
    assert!(!tracker.has_active_thread_at(at(100)));
    // a thread that started a second or more after the given time counts as active
    assert!(tracker.has_active_thread_at(at(99)));
    assert!(!tracker.has_active_thread_at(Instant { secs: 99, nanos: 500_000_000 }));
}
