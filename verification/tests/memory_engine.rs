use kristina_core::clock::Instant;
use kristina_core::episode::Episode;
use kristina_core::memory_engine::MemoryEngine;

fn at(secs: i64) -> Instant {
    Instant { secs, nanos: 0 }
}

fn inputs(engine: &MemoryEngine) -> Vec<String> {
    engine.snapshot_episodes().into_iter().map(|e| e.user_input).collect()
}

#[test]
fn new_engine_is_empty() {
    let engine = MemoryEngine::new(10, 1000);
    assert_eq!(engine.get_stats(), (0, 0, 0));
    assert!(engine.get_working_memory().is_empty());
    assert!(engine.get_relevant_context("anything at all", 3).is_empty());
}

#[test]
fn working_memory_keeps_the_newest_entries() {
    let mut engine = MemoryEngine::new(3, 1000);
    for i in 0..5 {
        engine.add_to_working_at("user", &format!("turn {}", i), format!("t{}", i));
        assert!(engine.get_working_memory().len() <= 3);
    }
    let working = engine.get_working_memory();
    assert_eq!(
        working,
        vec![
            ("user".to_string(), "turn 2".to_string(), "t2".to_string()),
            ("user".to_string(), "turn 3".to_string(), "t3".to_string()),
            ("user".to_string(), "turn 4".to_string(), "t4".to_string()),
        ]
    );
}

#[test]
fn working_memory_of_size_zero_holds_nothing() {
    let mut engine = MemoryEngine::new(0, 1000);
    engine.add_to_working("user", "hello");
    assert!(engine.get_working_memory().is_empty());
    assert_eq!(engine.get_stats().0, 0);
}

#[test]
fn add_to_working_stamps_with_a_readable_time() {
    let mut engine = MemoryEngine::new(2, 1000);
    engine.add_to_working("assistant", "hi there");
    let working = engine.get_working_memory();
    assert_eq!(working.len(), 1);
    assert_eq!(working[0].0, "assistant");
    assert_eq!(working[0].1, "hi there");
    assert!(kristina_core::clock::parse_instant(&working[0].2).is_some());
}

#[test]
fn clear_working_empties_only_working_memory() {
    let mut engine = MemoryEngine::new(5, 1000);
    engine.add_to_working("user", "hello");
    engine.add_episode("remember this sentence", "fine", "neutral", 1);
    engine.add_semantic("name", "Ada");
    engine.clear_working();
    assert_eq!(engine.get_stats(), (0, 1, 1));
}

#[test]
fn urgent_request_is_found_with_its_score() {
    let mut engine = MemoryEngine::new(10, 1000);
    engine.add_episode("срочно нужна помощь", "сделаю", "negative", 5);
    let found = engine.get_relevant_context("помощь", 3);
    assert_eq!(found.len(), 1);
    assert_eq!(found[0].1, "срочно нужна помощь");
    assert_eq!(found[0].2, 5);
    assert!(kristina_core::clock::parse_instant(&found[0].0).is_some());
}

#[test]
fn episode_keeps_keywords_of_the_input_only() {
    let mut engine = MemoryEngine::new(10, 1000);
    engine.add_episode_at("The Quick brown fox", "jumps over lazy dogs", "neutral", 2, "2024-01-01T00:00:00Z".to_string(), at(0));
    let episodes = engine.snapshot_episodes();
    assert_eq!(episodes.len(), 1);
    assert_eq!(episodes[0].keywords, vec!["quick".to_string(), "brown".to_string()]);
    assert_eq!(episodes[0].timestamp, "2024-01-01T00:00:00Z");
    assert_eq!(episodes[0].response, "jumps over lazy dogs");
    assert_eq!(episodes[0].emotion, "neutral");
    assert_eq!(episodes[0].importance, 2);
}

#[test]
fn response_words_are_indexed_too() {
    let mut engine = MemoryEngine::new(10, 1000);
    engine.add_episode_at("hello there", "the weather is sunny", "neutral", 3, "t".to_string(), at(0));
    let found = engine.get_relevant_context("SUNNY", 3);
    assert_eq!(found, vec![("t".to_string(), "hello there".to_string(), 3)]);
}

#[test]
fn short_query_words_are_skipped() {
    let mut engine = MemoryEngine::new(10, 1000);
    engine.add_episode_at("it is ok to go", "no", "neutral", 3, "t".to_string(), at(0));
    assert!(engine.get_relevant_context("it is ok to go no", 3).is_empty());
}

#[test]
fn unrelated_episode_is_never_returned() {
    let mut engine = MemoryEngine::new(10, 1000);
    engine.add_episode_at("apples and oranges", "fruit", "neutral", 100, "t0".to_string(), at(0));
    engine.add_episode_at("cars and trains", "vehicles", "neutral", 1, "t1".to_string(), at(0));
    let found = engine.get_relevant_context("trains", 3);
    assert_eq!(found, vec![("t1".to_string(), "cars and trains".to_string(), 1)]);
}

#[test]
fn score_is_hits_times_importance() {
    let mut engine = MemoryEngine::new(10, 1000);
    // "alpha" occurs twice in the input and once in the response
    engine.add_episode_at("alpha beta alpha", "alpha gamma", "neutral", 4, "t0".to_string(), at(0));
    engine.add_episode_at("beta only", "nothing", "neutral", 7, "t1".to_string(), at(0));
    // query terms: alpha (3 hits in episode 0), beta (1 hit in each)
    let found = engine.get_relevant_context("alpha beta", 3);
    assert_eq!(
        found,
        vec![
            ("t0".to_string(), "alpha beta alpha".to_string(), 16),
            ("t1".to_string(), "beta only".to_string(), 7),
        ]
    );
    // a repeated query word counts again
    let twice = engine.get_relevant_context("beta beta", 1);
    assert_eq!(twice, vec![("t1".to_string(), "beta only".to_string(), 14)]);
}

#[test]
fn many_hits_can_outscore_high_importance() {
    let mut engine = MemoryEngine::new(10, 1000);
    engine.add_episode_at("rust", "borrow", "neutral", 5, "t0".to_string(), at(0));
    engine.add_episode_at("rust rust rust", "rust rust rust", "neutral", 1, "t1".to_string(), at(0));
    let found = engine.get_relevant_context("rust", 3);
    assert_eq!(found[0].2, 6);
    assert_eq!(found[0].0, "t1");
    assert_eq!(found[1].2, 5);
}

#[test]
fn equal_scores_keep_the_order_of_storage() {
    let mut engine = MemoryEngine::new(10, 1000);
    for i in 0..4 {
        engine.add_episode_at("shared word", "reply", "neutral", 2, format!("t{}", i), at(0));
    }
    let found = engine.get_relevant_context("shared", 3);
    let stamps: Vec<&str> = found.iter().map(|f| f.0.as_str()).collect();
    assert_eq!(stamps, vec!["t0", "t1", "t2"]);
    assert!(engine.get_relevant_context("shared", 0).is_empty());
}

#[test]
fn negative_importance_gives_negative_score() {
    let mut engine = MemoryEngine::new(10, 1000);
    engine.add_episode_at("gloomy thing", "reply", "negative", -3, "t0".to_string(), at(0));
    engine.add_episode_at("gloomy stuff", "reply", "negative", 0, "t1".to_string(), at(0));
    let found = engine.get_relevant_context("gloomy", 3);
    assert_eq!(found[0].2, 0);
    assert_eq!(found[0].0, "t1");
    assert_eq!(found[1].2, -3);
}

#[test]
fn score_saturates_at_the_bounds_of_32_bits() {
    let mut engine = MemoryEngine::new(10, 1000);
    engine.add_episode_at("huge huge", "reply", "neutral", i32::MAX, "t0".to_string(), at(0));
    engine.add_episode_at("huge huge", "reply", "neutral", i32::MIN, "t1".to_string(), at(0));
    let found = engine.get_relevant_context("huge", 3);
    assert_eq!(found[0].2, i32::MAX);
    assert_eq!(found[1].2, i32::MIN);
}

#[test]
fn preview_is_eighty_characters_not_bytes() {
    let mut engine = MemoryEngine::new(10, 1000);
    let long: String = "ж".repeat(100) + " needle";
    engine.add_episode_at(&long, "reply", "neutral", 1, "t0".to_string(), at(0));
    let found = engine.get_relevant_context("needle", 3);
    assert_eq!(found[0].1, "ж".repeat(80));
    assert_eq!(found[0].1.chars().count(), 80);
}

#[test]
fn eviction_removes_the_least_valuable_episodes() {
    let mut engine = MemoryEngine::new(10, 20);
    let now = at(1_000_000);
    // worth = importance / max(age in hours, 1)
    let stamps = vec![
        Some(at(1_000_000 - 7200)),  // 2 h old, importance 4: worth 2
        Some(at(1_000_000 - 36000)), // 10 h old, importance 5: worth 0.5
        Some(at(1_000_000 - 60)),    // a minute old counts as 1 h, importance 1: worth 1
        None,                        // unreadable counts as 1 h, importance 3: worth 3
        Some(at(1_000_000 - 14400)), // 4 h old, importance 1: worth 0.25
    ];
    let importance = [4, 5, 1, 3, 1];
    for i in 0..5 {
        engine.add_episode_at(&format!("episode number{}", i), "reply", "neutral", importance[i], format!("t{}", i), at(0));
    }
    // limit 20: two episodes leave at once
    engine.evict_stamped(now, &stamps);
    assert_eq!(inputs(&engine), vec!["episode number0", "episode number2", "episode number3"]);
    assert_eq!(engine.get_stats().1, 3);
}

#[test]
fn eviction_of_equal_worth_removes_the_oldest_position_first() {
    let mut engine = MemoryEngine::new(10, 5);
    for i in 0..4 {
        engine.add_episode_at(&format!("same worth{}", i), "reply", "neutral", 2, "unreadable".to_string(), at(0));
    }
    engine.evict_episodes_at(at(10));
    assert_eq!(inputs(&engine), vec!["same worth1", "same worth2", "same worth3"]);
}

#[test]
fn eviction_reads_timestamps() {
    let mut engine = MemoryEngine::new(10, 5);
    engine.add_episode_at("first entry", "reply", "neutral", 10, "2024-01-01T00:00:00Z".to_string(), at(0));
    engine.add_episode_at("second entry", "reply", "neutral", 10, "2024-01-01T10:00:00+00:00".to_string(), at(0));
    engine.add_episode_at("third entry", "reply", "neutral", 3, "not a timestamp".to_string(), at(0));
    // at noon the first is 12 h old (worth 10/12), the second 2 h (worth 5), the third counts as 1 h (worth 3)
    let noon = kristina_core::clock::parse_instant("2024-01-01T12:00:00Z").unwrap();
    engine.evict_episodes_at(noon);
    assert_eq!(inputs(&engine), vec!["second entry", "third entry"]);
    engine.evict_episodes_at(noon);
    assert_eq!(inputs(&engine), vec!["second entry"]);
    engine.evict_episodes_at(noon);
    assert!(inputs(&engine).is_empty());
    engine.evict_episodes_at(noon);
    assert!(inputs(&engine).is_empty());
}

#[test]
fn worth_is_compared_exactly() {
    let mut engine = MemoryEngine::new(10, 5);
    let now = at(100_000_000);
    // 3 / 30001 s against 1 / 10000 s: the first is worth a little less
    let stamps = vec![Some(at(100_000_000 - 30_001)), Some(at(100_000_000 - 10_000))];
    engine.add_episode_at("three units", "reply", "neutral", 3, "a".to_string(), at(0));
    engine.add_episode_at("single unit", "reply", "neutral", 1, "b".to_string(), at(0));
    engine.evict_stamped(now, &stamps);
    assert_eq!(inputs(&engine), vec!["single unit"]);
}

#[test]
fn negative_importance_is_worth_least_when_young() {
    let mut engine = MemoryEngine::new(10, 5);
    let now = at(1_000_000);
    // -6 over 1 h is worth -6, -6 over 3 h is worth -2
    let stamps = vec![Some(at(1_000_000 - 10_800)), Some(at(1_000_000))];
    engine.add_episode_at("older entry", "reply", "neutral", -6, "a".to_string(), at(0));
    engine.add_episode_at("younger entry", "reply", "neutral", -6, "b".to_string(), at(0));
    engine.evict_stamped(now, &stamps);
    assert_eq!(inputs(&engine), vec!["older entry"]);
}

#[test]
fn missing_stamps_count_as_unreadable() {
    let mut engine = MemoryEngine::new(10, 5);
    engine.add_episode_at("first entry", "reply", "neutral", 2, "a".to_string(), at(0));
    engine.add_episode_at("second entry", "reply", "neutral", 1, "b".to_string(), at(0));
    engine.evict_stamped(at(50), &vec![]);
    assert_eq!(inputs(&engine), vec!["first entry"]);
}

#[test]
fn add_episode_evicts_when_over_the_limit() {
    let mut engine = MemoryEngine::new(10, 30);
    for i in 0..30 {
        engine.add_episode_at(&format!("entry{} topic{}", i, i), "reply", "neutral", i + 1, "unreadable".to_string(), at(0));
    }
    assert_eq!(engine.get_stats().1, 30);
    engine.add_episode_at("entry30 topic30", "reply", "neutral", 31, "unreadable".to_string(), at(0));
    // three leave at once: those of importance 1, 2 and 3
    assert_eq!(engine.get_stats().1, 28);
    let left = inputs(&engine);
    assert_eq!(left[0], "entry3 topic3");
    assert_eq!(left[27], "entry30 topic30");
    // the index refers to the survivors at their new positions
    for i in 0..31 {
        let found = engine.get_relevant_context(&format!("topic{}", i), 3);
        if i < 3 {
            assert!(found.is_empty());
        } else {
            assert_eq!(found, vec![("unreadable".to_string(), format!("entry{} topic{}", i, i), i + 1)]);
        }
    }
}

#[test]
fn add_episode_keeps_the_count_within_the_limit() {
    let mut engine = MemoryEngine::new(10, 7);
    for i in 0..40 {
        engine.add_episode(&format!("message number{}", i), "reply", "neutral", 1);
        assert!(engine.get_stats().1 <= 7);
    }
    assert_eq!(engine.get_stats().1, 7);
    let mut zero = MemoryEngine::new(10, 0);
    zero.add_episode("never stays", "reply", "neutral", 9);
    assert_eq!(zero.get_stats().1, 0);
    assert!(zero.get_relevant_context("never", 3).is_empty());
}

#[test]
fn every_keyword_of_a_survivor_finds_it() {
    let mut engine = MemoryEngine::new(10, 10);
    let texts = [
        "Погода сегодня замечательная",
        "Write tests before code",
        "database migration failed again",
        "Срочно нужна помощь",
        "deploy the staging cluster",
        "cluster capacity planning",
        "remember the milk",
        "weather forecast tomorrow",
        "planning the migration",
        "tests are failing",
        "merge request pending",
        "staging database backup",
    ];
    for (i, text) in texts.iter().enumerate() {
        engine.add_episode_at(text, "ok", "neutral", (i % 3) as i32 + 1, "unreadable".to_string(), at(0));
    }
    let episodes = engine.snapshot_episodes();
    assert!(episodes.len() <= 10);
    for episode in &episodes {
        for keyword in &episode.keywords {
            let found = engine.get_relevant_context(keyword, episodes.len());
            assert!(found.iter().any(|f| f.1 == episode.user_input));
        }
    }
}

#[test]
fn semantic_memory_is_last_write_wins() {
    let mut engine = MemoryEngine::new(10, 10);
    assert_eq!(engine.get_semantic("name"), None);
    engine.add_semantic("name", "Ada");
    engine.add_semantic("city", "Paris");
    engine.add_semantic("name", "Grace");
    assert_eq!(engine.get_semantic("name"), Some("Grace".to_string()));
    assert_eq!(engine.get_semantic("city"), Some("Paris".to_string()));
    assert_eq!(engine.get_semantic("Name"), None);
    assert_eq!(engine.get_stats().2, 2);
    let mut facts = engine.snapshot_facts();
    facts.sort();
    assert_eq!(
        facts,
        vec![("city".to_string(), "Paris".to_string()), ("name".to_string(), "Grace".to_string())]
    );
}

#[test]
fn restore_replaces_episodes_and_rebuilds_the_index() {
    let mut engine = MemoryEngine::new(10, 10);
    engine.add_episode_at("forgotten topic", "reply", "neutral", 1, "t".to_string(), at(0));
    let loaded = vec![
        Episode {
            timestamp: "2024-05-05T05:05:05Z".to_string(),
            user_input: "loaded first".to_string(),
            response: "answer".to_string(),
            emotion: "positive".to_string(),
            importance: 2,
            keywords: vec!["anything".to_string()],
        },
        Episode {
            timestamp: "bad".to_string(),
            user_input: "loaded second".to_string(),
            response: "first".to_string(),
            emotion: "curious".to_string(),
            importance: 3,
            keywords: vec![],
        },
    ];
    engine.restore_episodes(loaded);
    assert_eq!(engine.get_stats().1, 2);
    assert!(engine.get_relevant_context("forgotten", 3).is_empty());
    let found = engine.get_relevant_context("first", 3);
    assert_eq!(
        found,
        vec![
            ("bad".to_string(), "loaded second".to_string(), 3),
            ("2024-05-05T05:05:05Z".to_string(), "loaded first".to_string(), 2),
        ]
    );
    let again = engine.snapshot_episodes();
    assert_eq!(again[0].keywords, vec!["anything".to_string()]);
    assert_eq!(again[1].emotion, "curious");
}

#[test]
fn restore_facts_replaces_semantic_memory() {
    let mut engine = MemoryEngine::new(10, 10);
    engine.add_semantic("old", "value");
    engine.restore_facts(vec![
        ("a".to_string(), "1".to_string()),
        ("b".to_string(), "2".to_string()),
        ("a".to_string(), "3".to_string()),
    ]);
    assert_eq!(engine.get_semantic("old"), None);
    assert_eq!(engine.get_semantic("a"), Some("3".to_string()));
    assert_eq!(engine.get_semantic("b"), Some("2".to_string()));
    assert_eq!(engine.get_stats().2, 2);
}

#[test]
fn restored_memory_over_the_limit_stays_over_it() {
    let mut engine = MemoryEngine::new(10, 2);
    let loaded: Vec<Episode> = (0..6)
        .map(|i| Episode {
            timestamp: "bad".to_string(),
            user_input: format!("loaded entry{}", i),
            response: String::new(),
            emotion: String::new(),
            importance: i,
            keywords: vec![],
        })
        .collect();
    engine.restore_episodes(loaded);
    engine.add_episode_at("one more", "reply", "neutral", 9, "bad".to_string(), at(0));
    // seven episodes, one leaves
    assert_eq!(engine.get_stats().1, 6);
}

#[test]
fn eviction_by_the_clock_removes_what_has_aged() {
    let mut engine = MemoryEngine::new(10, 5);
    // worth 1000 over a quarter of a century against worth 1 over an hour
    engine.add_episode_at("ancient entry", "reply", "neutral", 1000, "2000-01-01T00:00:00Z".to_string(), at(0));
    engine.add_episode("fresh entry", "reply", "neutral", 1);
    engine.evict_episodes();
    assert_eq!(inputs(&engine), vec!["fresh entry"]);
}
