use kristina_core::embedding_cache::Used;
use kristina_core::eviction::Aged;
use kristina_core::ranking::{select_best, Ranked};
use kristina_core::retrieval::Scored;

#[test]
fn best_items_come_out_in_rank_order() {
    let items: Vec<Scored> = [3, 9, 1, 9, 4, 3]
        .iter()
        .enumerate()
        .map(|(position, score)| Scored { position, score: *score })
        .collect();
    let chosen = select_best(&items, 4);
    let pairs: Vec<(usize, i32)> = chosen.iter().map(|c| (c.position, c.score)).collect();
    assert_eq!(pairs, vec![(1, 9), (3, 9), (4, 4), (0, 3)]);
    assert_eq!(select_best(&items, 10).len(), 6);
    assert!(select_best(&items, 0).is_empty());
}

#[test]
fn least_used_keys_rank_first() {
    let items: Vec<Used> = [5u64, 0, 2, 0, 7]
        .iter()
        .enumerate()
        .map(|(position, uses)| Used { position, uses: *uses })
        .collect();
    let chosen: Vec<usize> = select_best(&items, 3).iter().map(|c| c.position).collect();
    assert_eq!(chosen, vec![1, 3, 2]);
}

#[test]
fn worth_is_importance_over_age_with_a_floor_of_an_hour() {
    let aged = |importance, age| Aged { position: 0, importance, age };
    // 1 per hour against 2 per hour
    assert!(aged(1, 3600).is_ahead_of(&aged(2, 3600)));
    assert!(!aged(2, 3600).is_ahead_of(&aged(1, 3600)));
    // ages under an hour count as an hour
    assert!(!aged(1, 0).is_ahead_of(&aged(1, 3599)));
    assert!(!aged(1, 3599).is_ahead_of(&aged(1, 0)));
    assert!(aged(1, 3601).is_ahead_of(&aged(1, 3600)));
    // 10 over 10 h equals 1 over 1 h
    assert!(!aged(10, 36_000).is_ahead_of(&aged(1, 3600)));
    assert!(!aged(1, 3600).is_ahead_of(&aged(10, 36_000)));
    // the extremes do not overflow
    assert!(aged(i32::MIN, 0).is_ahead_of(&aged(i32::MAX, u64::MAX)));
    assert!(aged(i32::MIN, 0).is_ahead_of(&aged(i32::MIN, u64::MAX)));
    assert!(aged(i32::MAX, u64::MAX).is_ahead_of(&aged(i32::MAX, 0)));
}
