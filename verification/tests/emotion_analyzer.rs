use kristina_core::emotion_analyzer::{classify, label, Emotion, EmotionAnalyzer};

#[test]
fn test_positive_emotion() {
    let analyzer = EmotionAnalyzer::new().unwrap();
    assert_eq!(analyzer.analyze("Спасибо, отлично!"), "positive");
}

#[test]
fn test_negative_emotion() {
    let analyzer = EmotionAnalyzer::new().unwrap();
    assert_eq!(analyzer.analyze("Не работает, ошибка!"), "negative");
}

#[test]
fn test_curious_emotion() {
    let analyzer = EmotionAnalyzer::new().unwrap();
    assert_eq!(analyzer.analyze("Как это сделать?"), "curious");
}

#[test]
fn test_neutral() {
    let analyzer = EmotionAnalyzer::new().unwrap();
    assert_eq!(analyzer.analyze("абвгд"), "neutral");
}

#[test]
fn test_detailed() {
    let analyzer = EmotionAnalyzer::new().unwrap();
    let analysis = analyzer.analyze_detailed("Спасибо, круто!");
    assert_eq!(analysis.emotion, "positive");
    let confidence = analysis.dominant as f64 / analysis.matches.len() as f64;
    assert!(confidence > 0.0);
    assert!(!analysis.matches.is_empty());
}

#[test]
fn detailed_analysis_lists_the_patterns_found() {
    let analyzer = EmotionAnalyzer::new().unwrap();
    let analysis = analyzer.analyze_detailed("Thanks, but the BUG is bad. Why?");
    // positive: thanks; negative: bug, bad; curious: why, and the question mark counts twice
    assert_eq!(analysis.matches, vec!["thanks", "bug", "bad", "why"]);
    assert_eq!(analysis.emotion, "curious");
    assert_eq!(analysis.dominant, 1);
    let negative = analyzer.analyze_detailed("the bug is bad, thanks");
    assert_eq!(negative.matches, vec!["thanks", "bug", "bad"]);
    assert_eq!(negative.emotion, "negative");
    assert_eq!(negative.dominant, 2);
}

#[test]
fn question_mark_alone_is_curious_but_not_in_detail() {
    let analyzer = EmotionAnalyzer::new().unwrap();
    assert_eq!(analyzer.analyze("?"), "curious");
    let analysis = analyzer.analyze_detailed("?");
    assert_eq!(analysis.emotion, "neutral");
    assert_eq!(analysis.dominant, 0);
    assert!(analysis.matches.is_empty());
}

#[test]
fn emoji_count_as_patterns() {
    let analyzer = EmotionAnalyzer::new().unwrap();
    assert_eq!(analyzer.analyze("\u{1f44d}"), "positive");
    assert_eq!(analyzer.analyze("\u{1f621}\u{1f621}"), "negative");
    assert_eq!(analyzer.analyze_detailed("\u{2764}\u{fe0f}").matches, vec!["\u{2764}\u{fe0f}"]);
}

#[test]
fn mood_follows_the_counts() {
    assert_eq!(classify(0, 0, 0), Emotion::Neutral);
    assert_eq!(classify(1, 0, 0), Emotion::Positive);
    assert_eq!(classify(0, 1, 0), Emotion::Negative);
    assert_eq!(classify(0, 0, 1), Emotion::Curious);
    assert_eq!(classify(2, 2, 0), Emotion::Neutral);
    assert_eq!(classify(2, 2, 1), Emotion::Curious);
    assert_eq!(classify(3, 2, 3), Emotion::Positive);
    assert_eq!(classify(3, 2, 4), Emotion::Curious);
    assert_eq!(classify(2, 3, 3), Emotion::Negative);
    assert_eq!(classify(2, 3, 4), Emotion::Curious);
    assert_eq!(classify(usize::MAX, 0, usize::MAX as u128 + 2), Emotion::Curious);
    assert_eq!(label(Emotion::Positive), "positive");
    assert_eq!(label(Emotion::Negative), "negative");
    assert_eq!(label(Emotion::Curious), "curious");
    assert_eq!(label(Emotion::Neutral), "neutral");
}
