use kristina_core::context_compressor::{
    compress_conversation, estimate_tokens, split_sentences, summarize_episodes, ContextCompressor,
};
use kristina_core::text::first_chars;

fn turn(role: &str, content: &str) -> (String, String) {
    (role.to_string(), content.to_string())
}

fn episode(timestamp: &str, input: &str, importance: i32) -> (String, String, i32) {
    (timestamp.to_string(), input.to_string(), importance)
}

#[test]
fn test_estimate_tokens_ascii() {
    // "hello world" = 11 ASCII chars → 11/4 + 0/2 + 1 = 3
    assert_eq!(estimate_tokens("hello world"), 3);
}

#[test]
fn test_estimate_tokens_russian() {
    // "привет" = 6 non-ASCII chars → 0/4 + 6/2 + 1 = 4
    assert_eq!(estimate_tokens("привет"), 4);
}

#[test]
fn test_extract_key_points() {
    let c = ContextCompressor::new().unwrap();
    let text = "Всё хорошо. Есть важная проблема с сетью. Погода солнечная.";
    let points = c.extract_key_points(text);
    assert!(!points.is_empty());
    assert!(points[0].contains("проблема"));
}

#[test]
fn test_truncate() {
    let long_text = "a".repeat(1000);
    // the share of the text that stays is the share of the tokens that may stay
    let estimated = estimate_tokens(&long_text);
    assert_eq!(estimated, 251);
    let ratio = 10 as f64 / estimated as f64;
    let target_chars = (long_text.chars().count() as f64 * ratio) as usize;
    let truncated = first_chars(&long_text, target_chars);
    assert!(truncated.len() < long_text.len());
    assert_eq!(truncated.len(), 39);
}

#[test]
fn tokens_of_mixed_text() {
    assert_eq!(estimate_tokens(""), 1);
    assert_eq!(estimate_tokens("abc"), 1);
    assert_eq!(estimate_tokens("abcd"), 2);
    assert_eq!(estimate_tokens("abcdefgh привет!"), 10 / 4 + 6 / 2 + 1);
    assert_eq!(estimate_tokens("\u{7f}\u{80}"), 1);
    assert_eq!(estimate_tokens("\u{80}\u{80}"), 2);
}

#[test]
fn key_points_are_the_heaviest_sentences() {
    let c = ContextCompressor::new().unwrap();
    let text = "Это важно. Ничего особенного! Главное — найти решение, это КРИТИЧНО?  Есть вопрос\nитог и вывод и результат. Срочно";
    let points = c.extract_key_points(text);
    assert_eq!(
        points,
        vec!["Главное — найти решение, это КРИТИЧНО", "итог и вывод и результат", "Это важно"]
    );
    assert!(c.extract_key_points("Nothing that matters. At all.").is_empty());
    assert!(c.extract_key_points("").is_empty());
    assert_eq!(c.extract_key_points("  проблема  "), vec!["проблема"]);
}

#[test]
fn sentences_end_at_punctuation_and_line_feeds() {
    let chars: Vec<char> = " One. Two!Three?\n\n Four ... five ".chars().collect();
    assert_eq!(split_sentences(&chars), vec![" One", " Two", "Three", " Four ", " five "]);
    assert!(split_sentences(&Vec::new()).is_empty());
    let dots: Vec<char> = ". . !".chars().collect();
    assert!(split_sentences(&dots).is_empty());
}

#[test]
fn conversation_digest_shows_the_last_ten_turns() {
    assert_eq!(compress_conversation(&vec![]), "");
    assert_eq!(compress_conversation(&vec![turn("user", "hi"), turn("assistant", "hello")]), "user: hi\nassistant: hello");
    let turns: Vec<(String, String)> = (0..12).map(|i| turn("u", &format!("m{}", i))).collect();
    let digest = compress_conversation(&turns);
    let lines: Vec<&str> = digest.split('\n').collect();
    assert_eq!(lines.len(), 10);
    assert_eq!(lines[0], "u: m2");
    assert_eq!(lines[9], "u: m11");
}

#[test]
fn long_content_is_cut_to_a_hundred_characters() {
    let exactly = "ы".repeat(100);
    assert_eq!(compress_conversation(&vec![turn("r", &exactly)]), format!("r: {}", exactly));
    let longer = "ы".repeat(101);
    assert_eq!(compress_conversation(&vec![turn("r", &longer)]), format!("r: {}...", "ы".repeat(97)));
}

#[test]
fn episode_digest_ranks_by_importance() {
    assert_eq!(summarize_episodes(&vec![], 500), "Нет данных в памяти");
    let episodes = vec![
        episode("2024-01-01T10:00:00Z", "first", 1),
        episode("2024-01-02T10:00:00Z", "second", 5),
        episode("2024-01-03T10:00:00Z", "third", 3),
        episode("2024-01-04T10:00:00Z", "fourth", 5),
        episode("short", "fifth", 2),
        episode("2024-01-06T10:00:00Z", "sixth", 0),
        episode("2024-01-07T10:00:00Z", &"x".repeat(60), 4),
    ];
    let expected = format!(
        "[2024-01-02] second\n[2024-01-04] fourth\n[2024-01-07] {}\n[2024-01-03] third\n[short] fifth",
        "x".repeat(50)
    );
    assert_eq!(summarize_episodes(&episodes, 500), expected);
}

#[test]
fn episode_digest_stops_at_the_budget() {
    let episodes = vec![
        episode("2024-01-01", "aaaa", 3), // "[2024-01-01] aaaa" is 17 bytes
        episode("2024-01-02", "bbbb", 2),
        episode("2024-01-03", "c", 1), // 14 bytes
    ];
    assert_eq!(summarize_episodes(&episodes, 34), "[2024-01-01] aaaa\n[2024-01-02] bbbb");
    assert_eq!(summarize_episodes(&episodes, 33), "[2024-01-01] aaaa");
    assert_eq!(summarize_episodes(&episodes, 17), "[2024-01-01] aaaa");
    assert_eq!(summarize_episodes(&episodes, 16), "");
    assert_eq!(summarize_episodes(&episodes, 0), "");
    // a later line that would fit is not taken once one did not
    let mixed = vec![episode("2024-01-01", "aaaa", 3), episode("2024-01-02", "bbbbbbbb", 2), episode("2024-01-03", "c", 1)];
    assert_eq!(summarize_episodes(&mixed, 34), "[2024-01-01] aaaa");
    // the budget counts bytes, not characters
    let cyrillic = vec![episode("2024-01-01", "жж", 1)]; // 13 + 4 bytes, 15 characters
    assert_eq!(summarize_episodes(&cyrillic, 16), "");
    assert_eq!(summarize_episodes(&cyrillic, 17), "[2024-01-01] жж");
}
