use autocompletion::index::japanese::builder::JpIndexBulider;
use autocompletion::index::japanese::Item;

fn jp_index() -> autocompletion::index::japanese::JapaneseIndex {
    let mut builder = JpIndexBulider::with_ngindex(2);
    let aozora = Item::new(
        0,
        "あおぞら".to_string(),
        Some("青空".to_string()),
        Vec::new(),
        100_000,
    );
    let id = builder.add_item(aozora);
    builder.insert_kalign(&vec!["青空".to_string()], id);
    builder.insert_ng(&vec!["あおぞら".to_string()], id);
    let sora = Item::new(1, "そら".to_string(), Some("空".to_string()), Vec::new(), 200_000);
    let id2 = builder.add_item(sora);
    builder.insert_kalign(&vec!["空".to_string()], id2);
    builder.insert_ng(&vec!["そら".to_string()], id2);
    builder.build()
}

#[test]
fn jp_prefix_lookup_uses_all_readings() {
    let index = jp_index();
    let by_kana = index.predictions("あお", 10);
    assert_eq!(by_kana.len(), 1);
    assert_eq!(by_kana[0].to_output().primary, "あおぞら");
    let by_kanji = index.predictions("青", 10);
    assert_eq!(by_kanji.len(), 1);
    assert_eq!(by_kanji[0].to_output().secondary.as_deref(), Some("青空"));
}

#[test]
fn jp_typo_misses_the_prefix_but_finds_phonetic_neighbours() {
    let index = jp_index();
    // the typo has no literal prefix match
    assert_eq!(index.predictions("あおそら", 10).len(), 0);
    let similar = index.similar_terms("あおそら", 10, 200);
    assert!(!similar.is_empty());
    assert_eq!(similar[0].to_output().primary, "あおぞら");
}

#[test]
fn jp_kanji_alignment_finds_aligned_items() {
    let index = jp_index();
    let aligned = index.align_reading("青");
    assert_eq!(aligned.len(), 1);
    assert_eq!(aligned[0].to_output().secondary.as_deref(), Some("青空"));
    // the fragment of the other item does not start with this kanji
    let all = index.align_reading("");
    assert_eq!(all.len(), 2);
}

#[test]
fn jp_exact_lists_every_item_of_a_reading() {
    let index = jp_index();
    let hit = index.exact("そら");
    assert_eq!(hit.len(), 1);
    assert_eq!(hit[0].to_output().primary, "そら");
    assert_eq!(index.exact("ぞら").len(), 0);
}

#[test]
fn jp_item_scoring_prefers_prefix_hits() {
    let item = Item::new(0, "あおぞら".to_string(), Some("青空".to_string()), Vec::new(), 0);
    let prefix_hit = item.str_relevance("あお");
    let miss = item.str_relevance("まど");
    assert!(prefix_hit > miss);
    // an exact kana match scores the full ladder plus the prefix boost
    assert_eq!(item.str_relevance("あおぞら"), 1010);
}

#[test]
fn katakana_queries_fold_to_hiragana() {
    let item = Item::new(0, "あおぞら".to_string(), None, Vec::new(), 0);
    // the katakana spelling of the same reading is a full prefix hit
    assert_eq!(item.str_relevance("アオゾラ"), 1010);
    assert_eq!(item.str_relevance("アオ"), item.str_relevance("あお"));
}

#[test]
fn latin_queries_reach_kana_terms_through_romaji() {
    let index = jp_index();
    // the n-gram side indexes romaji readings, so a Latin query matches
    let found = index.similar("aozora", 10, 600, usize::MAX);
    assert!(!found.is_empty());
    assert_eq!(found[0].to_output().primary, "あおぞら");
}

#[test]
fn one_character_queries_have_no_phonetic_neighbours() {
    let index = jp_index();
    assert_eq!(index.similar_terms("あ", 10, 1000).len(), 0);
}

#[test]
fn near_miss_readings_score_by_edit_distance() {
    // no alternatives, query is not a prefix: the kana edit-distance score
    // still counts
    let item = Item::new(0, "あおぞら".to_string(), None, Vec::new(), 0);
    let near = item.str_relevance("あおぞり");
    assert!(near > 0);
    assert!(near < item.str_relevance("あおぞら"));
}
