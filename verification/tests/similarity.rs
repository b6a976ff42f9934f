use kristina_core::similarity::{rank_similar, sort_key, Similar};

fn cosine(a: &[f32], b: &[f32]) -> f32 {
    let dot: f64 = a.iter().zip(b).map(|(x, y)| *x as f64 * *y as f64).sum();
    let na: f64 = a.iter().map(|x| *x as f64 * *x as f64).sum::<f64>().sqrt();
    let nb: f64 = b.iter().map(|x| *x as f64 * *x as f64).sum::<f64>().sqrt();
    (dot / (na * nb)) as f32
}

fn scored(values: &[f32]) -> Vec<Similar> {
    values.iter().enumerate().map(|(index, v)| Similar { index, bits: v.to_bits() }).collect()
}

fn indices(chosen: &[Similar]) -> Vec<usize> {
    chosen.iter().map(|s| s.index).collect()
}

#[test]
fn test_batch_top_k() {
    let query = vec![1.0, 0.0, 0.0];
    let docs = vec![
        vec![1.0, 0.0, 0.0], // sim = 1.0
        vec![0.0, 1.0, 0.0], // sim = 0.0
        vec![0.5, 0.5, 0.0], // sim ~= 0.707
    ];
    let compared: Vec<Similar> = docs
        .iter()
        .enumerate()
        .map(|(index, doc)| Similar { index, bits: cosine(&query, doc).to_bits() })
        .collect();
    let results = rank_similar(&compared, 2);
    assert_eq!(results.len(), 2);
    assert_eq!(results[0].index, 0); // index 0 first (highest sim)
    assert_eq!(f32::from_bits(results[0].bits), 1.0);
    assert_eq!(results[1].index, 2);
    assert!((f32::from_bits(results[1].bits) - 0.707).abs() < 1e-3);
}

#[test]
fn ranks_by_similarity_descending() {
    let compared = scored(&[0.1, 0.9, -0.5, 0.5, 0.0, -1.0, 1.0]);
    assert_eq!(indices(&rank_similar(&compared, 7)), vec![6, 1, 3, 0, 4, 2, 5]);
    assert_eq!(indices(&rank_similar(&compared, 3)), vec![6, 1, 3]);
    assert_eq!(indices(&rank_similar(&compared, 100)), vec![6, 1, 3, 0, 4, 2, 5]);
    assert!(rank_similar(&compared, 0).is_empty());
    assert!(rank_similar(&Vec::new(), 5).is_empty());
}

#[test]
fn equal_similarities_keep_their_order() {
    let compared = scored(&[0.5, 0.7, 0.5, 0.7, 0.5]);
    assert_eq!(indices(&rank_similar(&compared, 4)), vec![1, 3, 0, 2]);
}

#[test]
fn result_keeps_index_and_bits_together() {
    let compared = vec![
        Similar { index: 40, bits: 0.25f32.to_bits() },
        Similar { index: 7, bits: 0.75f32.to_bits() },
    ];
    let chosen = rank_similar(&compared, 1);
    assert_eq!(chosen.len(), 1);
    assert_eq!(chosen[0].index, 7);
    assert_eq!(chosen[0].bits, 0.75f32.to_bits());
}

#[test]
fn sort_key_orders_patterns_as_numbers() {
    let values = [
        f32::NEG_INFINITY,
        -1.0e30,
        -1.0,
        -1.0e-30,
        -0.0,
        0.0,
        1.0e-30,
        0.5,
        1.0,
        1.0e30,
        f32::INFINITY,
    ];
    for pair in values.windows(2) {
        assert!(sort_key(pair[0].to_bits()) < sort_key(pair[1].to_bits()));
    }
    assert_eq!(sort_key(0), 0x8000_0000);
    assert_eq!(sort_key(0x8000_0000), 0x7FFF_FFFF);
    assert_eq!(sort_key(1.0f32.to_bits()), 0xBF80_0000);
    assert_eq!(sort_key((-1.0f32).to_bits()), 0x407F_FFFF);
}
