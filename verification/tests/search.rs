use revelation_server::search::concordance::{concordance, verse_precedes, VerseRef, WordEntry};
use revelation_server::search::limits::{
    clamp_limit, page_limit, page_offset, result_count, DEFAULT_CONCORDANCE_LIMIT, DEFAULT_LIMIT,
    DEFAULT_SHORT_LIMIT, MAX_RESULTS,
};
use revelation_server::search::ranking::{rank_matches, ranks_above, RankKey};
use revelation_server::search::title::{has_title_prefix, song_key, starts_with, verse_key};
use revelation_server::search::words::{
    index_words, keeps_char, lower_char, lower_word, normalize_word, MIN_WORD_LEN,
};

fn key(title_prefix: bool, relevance: u32, views: i32) -> RankKey {
    RankKey { title_prefix, relevance, views }
}

fn verse(book_id: i16, chapter: i16, verse: i16) -> VerseRef {
    VerseRef { book_id, chapter, verse }
}

fn entry(word: &str, at: VerseRef, position: i16) -> WordEntry {
    WordEntry { word: word.to_string(), verse: at, position }
}

/// The score of the engine on the scale of whole numbers.
fn scale(score: f32) -> u32 {
    if score > 0.0 {
        score.to_bits()
    } else {
        0
    }
}

#[test]
fn limits_are_held_down_to_the_ceiling() {
    assert_eq!(MAX_RESULTS, 100);
    assert_eq!(clamp_limit(50), 50);
    assert_eq!(clamp_limit(100), 100);
    assert_eq!(clamp_limit(101), 100);
    assert_eq!(clamp_limit(i64::MAX), 100);
    assert_eq!(clamp_limit(0), 0);
    assert_eq!(clamp_limit(-5), -5);
    assert_eq!(clamp_limit(i64::MIN), i64::MIN);
}

#[test]
fn page_takes_defaults() {
    assert_eq!(DEFAULT_LIMIT, 50);
    assert_eq!(DEFAULT_SHORT_LIMIT, 20);
    assert_eq!(DEFAULT_CONCORDANCE_LIMIT, 100);
    assert_eq!(page_limit(None), 50);
    assert_eq!(page_limit(Some(10)), 10);
    assert_eq!(page_limit(Some(1000)), 100);
    assert_eq!(page_offset(None), 0);
    assert_eq!(page_offset(Some(40)), 40);
}

#[test]
fn result_count_is_never_negative() {
    assert_eq!(result_count(-1), 0);
    assert_eq!(result_count(i64::MIN), 0);
    assert_eq!(result_count(0), 0);
    assert_eq!(result_count(1), 1);
    assert_eq!(result_count(99), 99);
    assert_eq!(result_count(100), 100);
    assert_eq!(result_count(101), 100);
    assert_eq!(result_count(i64::MAX), 100);
}

#[test]
fn title_prefix_ranks_above_any_relevance() {
    let keys = vec![key(false, u32::MAX, i32::MAX), key(true, 0, i32::MIN), key(false, 7, 0)];
    assert_eq!(rank_matches(&keys, 10), vec![1, 0, 2]);
}

#[test]
fn title_prefix_match_survives_the_cut() {
    let mut keys: Vec<RankKey> = (0..150).map(|i| key(false, 1000 + i, 0)).collect();
    keys.push(key(true, 0, 0));
    let order = rank_matches(&keys, 1);
    assert_eq!(order, vec![150]);
}

#[test]
fn relevance_then_views_decide() {
    let keys = vec![
        key(false, 5, 10),
        key(false, 9, 0),
        key(false, 5, 30),
        key(true, 1, 1),
        key(true, 1, 2),
        key(false, 5, -4),
    ];
    assert_eq!(rank_matches(&keys, 50), vec![4, 3, 1, 2, 0, 5]);
}

#[test]
fn equal_keys_keep_their_order() {
    let keys = vec![key(false, 3, 3); 6];
    assert_eq!(rank_matches(&keys, 50), vec![0, 1, 2, 3, 4, 5]);
    assert_eq!(rank_matches(&keys, 4), vec![0, 1, 2, 3]);
}

#[test]
fn no_match_gives_an_empty_list() {
    let none: Vec<RankKey> = Vec::new();
    assert_eq!(rank_matches(&none, 50), Vec::<usize>::new());
    assert_eq!(rank_matches(&none, 0), Vec::<usize>::new());
    assert_eq!(rank_matches(&none, -1), Vec::<usize>::new());
}

#[test]
fn zero_or_negative_limit_gives_an_empty_list() {
    let keys = vec![key(true, 1, 1), key(false, 2, 2)];
    assert_eq!(rank_matches(&keys, 0), Vec::<usize>::new());
    assert_eq!(rank_matches(&keys, -3), Vec::<usize>::new());
    assert_eq!(rank_matches(&keys, i64::MIN), Vec::<usize>::new());
}

#[test]
fn result_count_never_exceeds_the_ceiling() {
    let keys: Vec<RankKey> = (0..250).map(|i| key(i % 7 == 0, (i * 37 % 101) as u32, i % 5)).collect();
    for limit in [100, 101, 250, 1000, i64::MAX] {
        assert_eq!(rank_matches(&keys, limit).len(), 100);
    }
    assert_eq!(rank_matches(&keys, 99).len(), 99);
    assert_eq!(rank_matches(&keys[..30].to_vec(), 1000).len(), 30);
}

#[test]
fn cut_ranking_is_the_head_of_the_full_ranking() {
    let keys: Vec<RankKey> = (0..90)
        .map(|i| key(i % 11 == 3, (i * 53 % 17) as u32, (i * 29 % 13) - 6))
        .collect();
    let mut expected: Vec<usize> = (0..keys.len()).collect();
    expected.sort_by(|a, b| {
        let (x, y) = (&keys[*a], &keys[*b]);
        y.title_prefix
            .cmp(&x.title_prefix)
            .then(y.relevance.cmp(&x.relevance))
            .then(y.views.cmp(&x.views))
    });
    let full = rank_matches(&keys, 100);
    assert_eq!(full, expected);
    for limit in 0..=90 {
        assert_eq!(rank_matches(&keys, limit as i64), expected[..limit].to_vec());
    }
}

#[test]
fn ranks_above_goes_key_by_key() {
    assert!(ranks_above(&key(true, 0, 0), &key(false, 9, 9)));
    assert!(!ranks_above(&key(false, 9, 9), &key(true, 0, 0)));
    assert!(ranks_above(&key(true, 2, 0), &key(true, 1, 9)));
    assert!(ranks_above(&key(false, 1, 5), &key(false, 1, 4)));
    assert!(!ranks_above(&key(false, 1, 4), &key(false, 1, 4)));
}

#[test]
fn engine_scores_keep_their_order_on_the_scale() {
    let scores = [0.0f32, 1.0e-20, 0.000_1, 0.030_4, 0.060_8, 0.1, 0.5, 1.0, 3.5e10];
    for pair in scores.windows(2) {
        assert!(scale(pair[0]) < scale(pair[1]));
    }
    let keys: Vec<RankKey> = [0.0607f32, 0.0911, 0.0304].iter().map(|s| verse_key(scale(*s))).collect();
    assert_eq!(rank_matches(&keys, 10), vec![1, 0, 2]);
}

#[test]
fn title_prefix_sets_letter_case_aside() {
    assert!(has_title_prefix("Amazing Grace", "amazing"));
    assert!(has_title_prefix("amazing grace", "AMAZING G"));
    assert!(has_title_prefix("Великий Бог", "великий"));
    assert!(has_title_prefix("Amazing Grace", ""));
    assert!(has_title_prefix("", ""));
    assert!(!has_title_prefix("Amazing Grace", "grace"));
    assert!(!has_title_prefix("Amazing", "Amazing Grace"));
    assert!(!has_title_prefix("", "a"));
}

#[test]
fn starts_with_compares_character_for_character() {
    let text: Vec<char> = "Бог есть любовь".chars().collect();
    let prefix: Vec<char> = "Бог".chars().collect();
    let other: Vec<char> = "бог".chars().collect();
    assert!(starts_with(&text, &prefix));
    assert!(starts_with(&text, &text));
    assert!(starts_with(&text, &Vec::new()));
    assert!(!starts_with(&text, &other));
    assert!(!starts_with(&prefix, &text));
}

#[test]
fn song_key_marks_the_title_match() {
    assert_eq!(song_key("amaz", "Amazing Grace", 7, 3), key(true, 7, 3));
    assert_eq!(song_key("grace", "Amazing Grace", 7, 3), key(false, 7, 3));
    assert_eq!(verse_key(12), key(false, 12, 0));
}

#[test]
fn title_match_ranks_above_body_match() {
    let query = "grace";
    let songs = [
        ("Amazing Grace", 0.9f32, 5000),
        ("Grace Alone", 0.01, 1),
        ("How Great", 0.99, 90000),
        ("GRACE greater than our sin", 0.01, 2),
    ];
    let keys: Vec<RankKey> = songs
        .iter()
        .map(|(title, score, views)| song_key(query, title, scale(*score), *views))
        .collect();
    assert_eq!(rank_matches(&keys, 50), vec![3, 1, 2, 0]);
}

#[test]
fn words_are_normalized() {
    assert_eq!(normalize_word("Hello,"), "hello");
    assert_eq!(normalize_word("«Бог»!"), "бог");
    assert_eq!(normalize_word("ЁЛКА-ёлка"), "ёлкаёлка");
    assert_eq!(normalize_word("don't"), "dont");
    assert_eq!(normalize_word("x2-Y3"), "x2y3");
    assert_eq!(normalize_word("..."), "");
    assert_eq!(normalize_word(""), "");
    assert_eq!(normalize_word("Äpfel"), "pfel");
    assert_eq!(normalize_word("АБВГДЕЖЗИЙКЛМНОПРСТУФХЦЧШЩЪЫЬЭЮЯ"), "абвгдежзийклмнопрстуфхцчшщъыьэюя");
    assert_eq!(normalize_word("ABCDEFGHIJKLMNOPQRSTUVWXYZ"), "abcdefghijklmnopqrstuvwxyz");
}

#[test]
fn lower_case_agrees_with_the_standard_one_on_kept_characters() {
    for code in 0..0x500u32 {
        if let Some(c) = char::from_u32(code) {
            let standard: String = c.to_lowercase().collect();
            if keeps_char(c) {
                assert_eq!(lower_char(c).to_string(), standard);
                assert!(keeps_char(lower_char(c)));
            } else {
                assert_eq!(lower_char(c), c);
            }
        }
    }
    assert_eq!(lower_word("БОГ Ёж Abc-19 ÄÖ"), "бог ёж abc-19 ÄÖ");
}

#[test]
fn kept_characters_are_letters_and_digits() {
    for c in "azAZ09аяАЯёЁmМ5".chars() {
        assert!(keeps_char(c));
    }
    for c in " -_.,!?'\"«»\n\tÄéѐіҐ٣".chars() {
        assert!(!keeps_char(c), "{:?}", c);
    }
}

#[test]
fn short_words_are_left_out_of_the_index() {
    assert_eq!(MIN_WORD_LEN, 3);
    assert_eq!(
        index_words("В начале сотворил Бог небо и землю."),
        vec!["начале", "сотворил", "бог", "небо", "землю"]
    );
    assert_eq!(index_words("a an the I, am... O.K. ok!"), vec!["the"]);
    assert_eq!(index_words("a-b-c"), vec!["abc"]);
}

#[test]
fn index_words_are_cut_at_white_space() {
    assert_eq!(index_words(""), Vec::<String>::new());
    assert_eq!(index_words("  \n\t "), Vec::<String>::new());
    assert_eq!(index_words("  one\ttwo\r\nthree\u{a0}four  "), vec!["one", "two", "three", "four"]);
    assert_eq!(index_words("one,two"), vec!["onetwo"]);
    assert_eq!(index_words("Word word WORD"), vec!["word", "word", "word"]);
}

#[test]
fn absent_word_is_not_found() {
    let index = vec![
        entry("бог", verse(1, 1, 1), 3),
        entry("небо", verse(1, 1, 1), 4),
        entry("свет", verse(1, 1, 3), 4),
    ];
    let found = concordance(&index, "тьма", 100);
    assert!(found.verses.is_empty());
    assert_eq!(found.total_count, 0);
    let found = concordance(&Vec::new(), "бог", 100);
    assert!(found.verses.is_empty());
    assert_eq!(found.total_count, 0);
}

#[test]
fn occurrences_are_counted_and_verses_listed_once() {
    let index = vec![
        entry("свет", verse(1, 1, 3), 4),
        entry("небо", verse(1, 1, 1), 4),
        entry("свет", verse(1, 1, 3), 7),
        entry("свет", verse(43, 1, 5), 1),
        entry("свет", verse(1, 1, 3), 9),
    ];
    let found = concordance(&index, "свет", 100);
    assert_eq!(found.verses, vec![verse(1, 1, 3), verse(43, 1, 5)]);
    assert_eq!(found.total_count, 4);
}

#[test]
fn verses_come_in_the_order_of_the_bible() {
    let index = vec![
        entry("love", verse(62, 4, 8), 5),
        entry("love", verse(43, 3, 16), 4),
        entry("love", verse(5, 6, 5), 3),
        entry("love", verse(43, 3, 2), 9),
        entry("love", verse(43, 15, 1), 9),
        entry("love", verse(5, 6, 5), 9),
    ];
    let found = concordance(&index, "love", 100);
    assert_eq!(
        found.verses,
        vec![verse(5, 6, 5), verse(43, 3, 2), verse(43, 3, 16), verse(43, 15, 1), verse(62, 4, 8)]
    );
    assert_eq!(found.total_count, 6);
}

#[test]
fn lookup_puts_the_word_in_lower_case() {
    let index = vec![entry("бог", verse(1, 1, 1), 3), entry("god", verse(1, 1, 1), 3)];
    assert_eq!(concordance(&index, "БОГ", 10).total_count, 1);
    assert_eq!(concordance(&index, "Бог", 10).verses, vec![verse(1, 1, 1)]);
    assert_eq!(concordance(&index, "GoD", 10).total_count, 1);
    assert_eq!(concordance(&index, "бог,", 10).total_count, 0);
    assert_eq!(concordance(&index, "", 10).total_count, 0);
}

#[test]
fn lookup_is_cut_at_the_limit_but_counts_everything() {
    let index: Vec<WordEntry> = (0..40)
        .map(|i| entry("word", verse(1 + (39 - i) / 10, 1, 1 + (i * 7) % 10), 1))
        .collect();
    let all = concordance(&index, "word", 1000);
    assert_eq!(all.verses.len(), 40);
    assert_eq!(all.total_count, 40);
    for pair in all.verses.windows(2) {
        assert!(verse_precedes(&pair[0], &pair[1]));
    }
    for limit in [0i64, 1, 7, 39, 40, 41] {
        let found = concordance(&index, "word", limit);
        let expected = (limit as usize).min(40);
        assert_eq!(found.verses, all.verses[..expected].to_vec());
        assert_eq!(found.total_count, 40);
    }
    let found = concordance(&index, "word", -1);
    assert!(found.verses.is_empty());
    assert_eq!(found.total_count, 40);
}

#[test]
fn verse_order_goes_book_chapter_verse() {
    assert!(verse_precedes(&verse(1, 50, 26), &verse(2, 1, 1)));
    assert!(verse_precedes(&verse(2, 1, 22), &verse(2, 2, 1)));
    assert!(verse_precedes(&verse(2, 2, 1), &verse(2, 2, 2)));
    assert!(!verse_precedes(&verse(2, 2, 2), &verse(2, 2, 2)));
    assert!(!verse_precedes(&verse(3, 1, 1), &verse(2, 9, 9)));
}

#[test]
fn index_and_lookup_work_together() {
    let verses = [
        (verse(1, 1, 3), "И сказал Бог: да будет свет. И стал свет."),
        (verse(1, 1, 4), "И увидел Бог свет, что он хорош, и отделил Бог свет от тьмы."),
        (verse(1, 1, 5), "И назвал Бог свет днем, а тьму ночью."),
        (verse(1, 1, 1), "В начале сотворил Бог небо и землю."),
    ];
    let mut index = Vec::new();
    for (at, text) in verses.iter() {
        for (i, word) in index_words(text).into_iter().enumerate() {
            index.push(WordEntry { word, verse: *at, position: (i + 1) as i16 });
        }
    }
    let found = concordance(&index, "Свет", 100);
    assert_eq!(found.verses, vec![verse(1, 1, 3), verse(1, 1, 4), verse(1, 1, 5)]);
    assert_eq!(found.total_count, 5);
    let found = concordance(&index, "бог", 2);
    assert_eq!(found.verses, vec![verse(1, 1, 1), verse(1, 1, 3)]);
    assert_eq!(found.total_count, 5);
    assert_eq!(concordance(&index, "и", 100).total_count, 0);
}
