use autocompletion::index::basic::basic_format;
use autocompletion::index::japanese::jp_format;
use autocompletion::index::ngram_ext::{dice_milli, padded};
use autocompletion::phonetic::{eudex_hash, phonetic_dist};
use autocompletion::strdist::{levenshtein, scaled_sim};
use autocompletion::topk::top_k_indices;
use autocompletion::suggest::extension::longest_prefix::strip_str_end;
use autocompletion::index::str_item::StringItem;
use autocompletion::index::ngram_ext::iter::windows;

#[test]
fn format_strips_and_folds() {
    assert_eq!(basic_format("(Hello), World?"), "hello world");
    assert_eq!(basic_format("A.B/C[D]E{F}"), "abcdef");
    // the generic set keeps the exclamation mark, the Japanese set removes it
    assert_eq!(basic_format("Stop!"), "stop!");
    assert_eq!(jp_format("Stop!"), "stop");
}

#[test]
fn format_is_idempotent_on_samples() {
    for s in ["(Hello), World?", "Stop!", "トウキョウ、.x", ""] {
        let once = basic_format(s);
        assert_eq!(basic_format(&once), once);
        let jp_once = jp_format(s);
        assert_eq!(jp_format(&jp_once), jp_once);
    }
}

#[test]
fn levenshtein_matches_known_values() {
    let k: Vec<char> = "kitten".chars().collect();
    let s: Vec<char> = "sitting".chars().collect();
    assert_eq!(levenshtein(&k, &s), 3);
    let e: Vec<char> = Vec::new();
    assert_eq!(levenshtein(&e, &s), 7);
    assert_eq!(levenshtein(&k, &k), 0);
}

#[test]
fn scaled_sim_matches_known_values() {
    let k: Vec<char> = "kitten".chars().collect();
    let s: Vec<char> = "sitting".chars().collect();
    // (7 - 3) * 1000 / 7 = 571
    assert_eq!(scaled_sim(&k, &s, 1000), 571);
    let e: Vec<char> = Vec::new();
    // two empty words count as identical
    assert_eq!(scaled_sim(&e, &e, 1000), 1000);
}

#[test]
fn dice_weights_behave() {
    // sim(a, a, w) == 1.0 for any weight
    assert_eq!(dice_milli(3, 3, 3, 700), 1000);
    assert_eq!(dice_milli(3, 3, 3, 200), 1000);
    // sim(a, b, 0.5) == 2 |a n b| / (|a| + |b|): 4 / 7 => 571 per mille
    assert_eq!(dice_milli(2, 3, 4, 500), 571);
    // query weight 0.6 over a 4-gram query against a 10-gram document
    assert_eq!(dice_milli(4, 4, 10, 600), 625);
}

#[test]
fn padding_wraps_both_sides() {
    assert_eq!(padded("ab", 2), "\u{a7}\u{a7}ab\u{a7}\u{a7}");
    assert_eq!(padded("", 1), "\u{a7}\u{a7}");
}

#[test]
fn phonetic_distance_is_symmetric_and_zero_on_self() {
    let a = eudex_hash("ananas");
    let b = eudex_hash("banana");
    assert_eq!(phonetic_dist(a, a), 0);
    assert_eq!(phonetic_dist(a, b), phonetic_dist(b, a));
    assert!(phonetic_dist(a, b) > 0);
}

#[test]
fn top_k_selects_greatest_with_stable_ties() {
    let keys: Vec<u64> = vec![5, 1, 5, 3];
    assert_eq!(top_k_indices(&keys, 2), vec![0, 2]);
    assert_eq!(top_k_indices(&keys, 10), vec![0, 2, 3, 1]);
    assert_eq!(top_k_indices(&keys, 0), Vec::<usize>::new());
}

#[test]
fn strip_str_end_removes_tail_characters() {
    assert_eq!(strip_str_end("hello", 1), "hell");
    assert_eq!(strip_str_end("hello", 5), "");
    assert_eq!(strip_str_end("hello", 9), "");
    assert_eq!(strip_str_end("あおぞら", 2), "あお");
}

#[test]
fn window_split_counts_match() {
    // a word of m characters and width n yields m - n + 1 windows of n
    let chars: Vec<char> = "homesick".chars().collect();
    for n in 1..=8usize {
        let w = windows(&chars, n);
        assert_eq!(w.len(), 8 - n + 1);
        assert!(w.iter().all(|x| x.len() == n));
    }
    assert_eq!(windows(&chars, 9).len(), 0);
}

#[test]
fn surrounding_whitespace_normalizes_away() {
    // a stray trailing space queries the same key
    assert_eq!(basic_format("to "), "to");
    assert_eq!(basic_format("to"), "to");
    assert_eq!(basic_format("  Hello World \t"), "hello world");
    assert_eq!(jp_format("そら　"), "そら");
}

#[test]
fn plain_relevance_uses_the_per_mille_ladder() {
    let item = StringItem::new("ab".to_string(), 0);
    // one of two characters survives the edit: half the ladder
    assert_eq!(item.str_relevance("b"), 500);
    assert_eq!(item.str_relevance("ab"), 1000);
}
