use kristina_core::clock::{elapsed_seconds, parse_instant, Instant};
use kristina_core::hashing::{text_hash, to_hex16, word_hash};
use kristina_core::keywords::{extract_keywords, is_stop_word, term_hashes};
use kristina_core::retrieval::score;
use kristina_core::text::{first_chars, split_words};

#[test]
fn words_are_runs_without_whitespace() {
    assert_eq!(split_words("  hello   world\t\nagain "), vec!["hello", "world", "again"]);
    assert_eq!(split_words("one"), vec!["one"]);
    assert!(split_words("").is_empty());
    assert!(split_words(" \t\r\n").is_empty());
    // a no-break space and an ideographic space separate words too
    assert_eq!(split_words("a\u{a0}b\u{3000}c"), vec!["a", "b", "c"]);
    assert_eq!(split_words("срочно нужна помощь"), vec!["срочно", "нужна", "помощь"]);
}

#[test]
fn words_agree_with_split_whitespace() {
    let text = "The  quick\u{2003}brown fox,\njumps!  over\u{85}the lazy\u{feff}dog ";
    let expected: Vec<String> = text.split_whitespace().map(|w| w.to_string()).collect();
    assert_eq!(split_words(text), expected);
}

#[test]
fn first_chars_counts_characters() {
    assert_eq!(first_chars("hello", 3), "hel");
    assert_eq!(first_chars("hello", 5), "hello");
    assert_eq!(first_chars("hello", 50), "hello");
    assert_eq!(first_chars("hello", 0), "");
    assert_eq!(first_chars("привет", 2), "пр");
    assert_eq!(first_chars("", 4), "");
}

#[test]
fn hex_has_sixteen_digits() {
    assert_eq!(to_hex16(0), "0000000000000000");
    assert_eq!(to_hex16(u64::MAX), "ffffffffffffffff");
    assert_eq!(to_hex16(0x0123_4567_89ab_cdef), "0123456789abcdef");
    assert_eq!(to_hex16(255), "00000000000000ff");
}

#[test]
fn text_hash_is_the_digest_in_hexadecimal() {
    assert_eq!(text_hash(""), "2d06800538d394c2");
    assert_eq!(text_hash("hello"), format!("{:016x}", xxhash_rust::xxh3::xxh3_64(b"hello")));
    assert_eq!(word_hash("помощь"), xxhash_rust::xxh3::xxh3_64("помощь".as_bytes()));
    assert_ne!(text_hash("hello"), text_hash("hellp"));
    assert_ne!(text_hash("hello"), "hello");
}

#[test]
fn keywords_are_lowercased_long_words() {
    assert_eq!(extract_keywords("Hello WORLD from Rust"), vec!["hello", "world", "from", "rust"]);
    assert_eq!(extract_keywords("the cat is on a mat"), Vec::<String>::new());
    assert_eq!(extract_keywords("Срочно НУЖНА помощь"), vec!["срочно", "нужна", "помощь"]);
    // length is counted in characters: "как" has three
    assert_eq!(extract_keywords("как это будет"), vec!["будет"]);
    assert_eq!(extract_keywords("again again"), vec!["again", "again"]);
    assert!(extract_keywords("").is_empty());
}

#[test]
fn at_most_ten_keywords_are_kept() {
    let text = "word01 word02 word03 word04 word05 word06 word07 word08 word09 word10 word11 word12";
    let keywords = extract_keywords(text);
    assert_eq!(keywords.len(), 10);
    assert_eq!(keywords[0], "word01");
    assert_eq!(keywords[9], "word10");
}

#[test]
fn stop_words_are_recognised() {
    for word in [
        "я", "ты", "он", "она", "мы", "вы", "они", "в", "на", "и", "с", "по", "для", "от", "к", "не", "что",
        "это", "как", "но", "the", "is", "are", "a", "an", "in", "on", "for", "to", "of",
    ] {
        assert!(is_stop_word(word));
    }
    for word in ["The", "они ", "", "off", "нет", "these"] {
        assert!(!is_stop_word(word));
    }
}

#[test]
fn terms_are_hashes_of_lowercased_words_longer_than_two() {
    let expected = vec![
        xxhash_rust::xxh3::xxh3_64(b"the"),
        xxhash_rust::xxh3::xxh3_64(b"cat"),
        xxhash_rust::xxh3::xxh3_64(b"cat"),
        xxhash_rust::xxh3::xxh3_64("öko".as_bytes()),
    ];
    assert_eq!(term_hashes("THE Cat is on a cat ÖKO"), expected);
    assert!(term_hashes("a bc de").is_empty());
}

#[test]
fn timestamps_are_read_as_instants() {
    let parsed = parse_instant("2012-12-12T12:12:12Z").unwrap();
    assert_eq!((parsed.secs, parsed.nanos), (1355314332, 0));
    let relaxed = parse_instant("2012-12-12 12:12:12+0000").unwrap();
    assert_eq!((relaxed.secs, relaxed.nanos), (1355314332, 0));
    let offset = parse_instant("2012-12-12T14:12:12.5+02:00").unwrap();
    assert_eq!((offset.secs, offset.nanos), (1355314332, 500_000_000));
    let early = parse_instant("1969-12-31T23:59:59.25Z").unwrap();
    assert_eq!((early.secs, early.nanos), (-1, 250_000_000));
    assert!(parse_instant("yesterday").is_none());
    assert!(parse_instant("").is_none());
    assert!(parse_instant("2012-12-12").is_none());
}

#[test]
fn elapsed_seconds_rounds_toward_zero() {
    let t = |secs, nanos| Instant { secs, nanos };
    assert_eq!(elapsed_seconds(t(100, 0), t(40, 0)), 60);
    assert_eq!(elapsed_seconds(t(100, 1), t(40, 2)), 59);
    assert_eq!(elapsed_seconds(t(100, 999_999_999), t(40, 0)), 60);
    assert_eq!(elapsed_seconds(t(40, 0), t(100, 0)), -60);
    assert_eq!(elapsed_seconds(t(40, 1), t(100, 0)), -59);
    assert_eq!(elapsed_seconds(t(40, 0), t(100, 1)), -60);
    assert_eq!(elapsed_seconds(t(0, 0), t(0, 0)), 0);
    assert_eq!(elapsed_seconds(t(0, 0), t(0, 1)), 0);
    assert_eq!(elapsed_seconds(t(0, 0), t(1, 0)), -1);
    assert_eq!(elapsed_seconds(t(i64::MAX, 0), t(i64::MIN, 0)), u64::MAX as i128);
    assert_eq!(elapsed_seconds(t(i64::MIN, 0), t(i64::MAX, 0)), -(u64::MAX as i128));
}

#[test]
fn score_is_the_product_within_32_bits() {
    assert_eq!(score(0, 5), 0);
    assert_eq!(score(3, 0), 0);
    assert_eq!(score(1, 5), 5);
    assert_eq!(score(3, -5), -15);
    assert_eq!(score(2, 1_073_741_823), 2_147_483_646);
    assert_eq!(score(2, 1_073_741_824), i32::MAX);
    assert_eq!(score(2, -1_073_741_824), i32::MIN);
    assert_eq!(score(2, -1_073_741_825), i32::MIN);
    assert_eq!(score(0x8000_0000, 1), i32::MAX);
    assert_eq!(score(0x8000_0000, -1), i32::MIN);
    assert_eq!(score(0x7FFF_FFFF, 1), i32::MAX);
    assert_eq!(score(0x7FFF_FFFF, -1), -i32::MAX);
    assert_eq!(score(u128::MAX, 1), i32::MAX);
    assert_eq!(score(u128::MAX, -1), i32::MIN);
    assert_eq!(score(u128::MAX, 0), 0);
}
