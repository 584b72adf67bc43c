use autocompletion::index::basic::basic_format;
use autocompletion::index::basic::builder::BasicIndexBuilder;
use autocompletion::index::ngram::Item;
use autocompletion::index::IndexRef;
use autocompletion::suggest::extension::ngram::NGramExtension;
use autocompletion::suggest::extension::similar_terms::SimilarTermsExtension;
use autocompletion::suggest::extension::SuggestExtension;
use autocompletion::suggest::query::SuggestionQuery;
use autocompletion::suggest::task::SuggestionTask;
use autocompletion::suggest::extension::longest_prefix::LongestPrefixExtension;
use autocompletion::index::str_item::StringItem;
use autocompletion::relevance::item::{EngineItem, IndexEntry};
use autocompletion::index::Output;

/// Builds the small English index the scenarios use: frequencies are given
/// in parts per million of 1.0.
fn english_index(words: &[(&str, u32)], with_ngram: bool) -> autocompletion::index::basic::BasicIndex {
    let mut builder = if with_ngram {
        BasicIndexBuilder::with_ngindex(3)
    } else {
        BasicIndexBuilder::new()
    };
    for (word, freq) in words {
        let formatted = basic_format(word);
        let id = builder
            .insert(Item::new((*word).to_string(), 0, *freq), &formatted)
            .expect("unique key");
        builder.insert_ng(&formatted, id);
    }
    builder.build()
}

fn home_index(with_ngram: bool) -> autocompletion::index::basic::BasicIndex {
    english_index(
        &[
            ("home", 100_000),
            ("homework", 200_000),
            ("homesick", 50_000),
            ("house", 150_000),
        ],
        with_ngram,
    )
}

fn outputs(task: &SuggestionTask) -> Vec<String> {
    task.search().into_iter().map(|o| o.primary).collect()
}

#[test]
fn prefix_search_ranks_by_relevance() {
    let index = home_index(false);
    let mut task = SuggestionTask::new(10);
    task.add_query(SuggestionQuery::new(IndexRef::Basic(&index), "hom".to_string()));
    let res = outputs(&task);
    // the shortest prefix match wins; equal scores keep candidate order
    assert_eq!(res, vec!["home", "homework", "homesick"]);
}

#[test]
fn search_respects_limit() {
    let index = english_index(&[("to", 100_000), ("tomorrow", 100_000), ("today", 100_000), ("toast", 100_000)], false);
    let mut task = SuggestionTask::new(2);
    task.add_query(SuggestionQuery::new(IndexRef::Basic(&index), "t".to_string()));
    let res = outputs(&task);
    assert_eq!(res.len(), 2);
    assert_eq!(res[0], "to");
}

#[test]
fn zero_limit_yields_nothing() {
    let index = home_index(false);
    let mut task = SuggestionTask::new(0);
    task.add_query(SuggestionQuery::new(IndexRef::Basic(&index), "hom".to_string()));
    assert_eq!(outputs(&task).len(), 0);
}

#[test]
fn no_prefix_match_and_no_extensions_is_empty() {
    let index = home_index(true);
    let mut task = SuggestionTask::new(10);
    task.add_query(SuggestionQuery::new(IndexRef::Basic(&index), "musi".to_string()));
    assert_eq!(outputs(&task).len(), 0);
}

#[test]
fn extensions_recover_a_misspelled_query() {
    let index = english_index(
        &[
            ("music", 100_000),
            ("mud", 50_000),
            ("house", 150_000),
        ],
        true,
    );
    let mut task = SuggestionTask::new(10);
    let mut query = SuggestionQuery::new(IndexRef::Basic(&index), "musi".to_string());
    query.add_extension(SuggestExtension::SimilarTerms(SimilarTermsExtension::new(
        IndexRef::Basic(&index),
        7,
    )));
    query.add_extension(SuggestExtension::Ngram(NGramExtension::new(IndexRef::Basic(
        &index,
    ))));
    task.add_query(query);
    let res = outputs(&task);
    assert!(!res.is_empty());
    assert!(res.contains(&"music".to_string()));
}

#[test]
fn duplicate_suggestions_are_collapsed() {
    let index = home_index(false);
    let mut task = SuggestionTask::new(10);
    // two queries finding the same terms must not double the output
    task.add_query(SuggestionQuery::new(IndexRef::Basic(&index), "hom".to_string()));
    task.add_query(SuggestionQuery::new(IndexRef::Basic(&index), "home".to_string()));
    let res = outputs(&task);
    let mut dedup = res.clone();
    dedup.sort();
    dedup.dedup();
    assert_eq!(res.len(), dedup.len());
}

#[test]
fn threshold_gates_later_queries() {
    let index = english_index(&[("alpha", 100_000), ("beta", 100_000)], false);
    // B carries a positive threshold and A already found something: B is skipped
    let mut task = SuggestionTask::new(10);
    task.add_query(SuggestionQuery::new(IndexRef::Basic(&index), "alpha".to_string()));
    let mut b = SuggestionQuery::new(IndexRef::Basic(&index), "beta".to_string());
    b.threshold = 1;
    task.add_query(b);
    assert_eq!(outputs(&task), vec!["alpha"]);
    // with the threshold disabled (zero), B always runs
    let mut task2 = SuggestionTask::new(10);
    task2.add_query(SuggestionQuery::new(IndexRef::Basic(&index), "alpha".to_string()));
    task2.add_query(SuggestionQuery::new(IndexRef::Basic(&index), "beta".to_string()));
    let res2 = outputs(&task2);
    assert!(res2.contains(&"alpha".to_string()) && res2.contains(&"beta".to_string()));
}

#[test]
fn builder_assigns_stable_ids_and_refuses_duplicates() {
    let mut builder = BasicIndexBuilder::new();
    let id_a = builder
        .insert(Item::new("Apple".to_string(), 0, 10), "apple")
        .expect("fresh key");
    let id_b = builder
        .insert(Item::new("Banana".to_string(), 0, 20), "banana")
        .expect("fresh key");
    assert_eq!((id_a, id_b), (0, 1));
    assert!(builder.insert(Item::new("Apfel".to_string(), 0, 30), "apple").is_err());
    let index = builder.build();
    assert_eq!(index.len(), 2);
    let word = index.get_word(id_a).expect("live id");
    assert_eq!(word.to_output().primary, "Apple");
    let word_b = index.get_word(id_b).expect("live id");
    assert_eq!(word_b.to_output().primary, "Banana");
    assert!(index.get_word(2).is_none());
}

#[test]
fn phonetic_neighbours_are_found() {
    let index = english_index(&[("hello", 100_000), ("help", 100_000), ("zebra", 100_000)], false);
    let res = index.similar_terms("hallo", 10, 200);
    assert!(!res.is_empty());
    assert_eq!(res[0].to_output().primary, "hello");
}

#[test]
fn walk_back_recovers_a_truncated_typo() {
    let index = home_index(false);
    let mut task = SuggestionTask::new(10);
    let mut query = SuggestionQuery::new(IndexRef::Basic(&index), "homx".to_string());
    query.add_extension(SuggestExtension::LongestPrefix(LongestPrefixExtension::new(
        IndexRef::Basic(&index),
        1,
        5,
    )));
    task.add_query(query);
    let res = outputs(&task);
    assert!(res.contains(&"home".to_string()));
}

#[test]
fn custom_entries_join_the_merge() {
    let index = home_index(false);
    let mut task = SuggestionTask::new(10);
    task.add_query(SuggestionQuery::new(IndexRef::Basic(&index), "hom".to_string()));
    let pinned = EngineItem::new(
        IndexEntry::Str(StringItem::new("homepage".to_string(), 0)),
        60000,
    );
    task.add_custom_entries(vec![pinned]);
    let res = outputs(&task);
    assert_eq!(res[0], "homepage");
}

#[test]
fn overlong_queries_have_no_phonetic_neighbours() {
    let index = home_index(false);
    // no useful fingerprint exists beyond 16 bytes
    assert_eq!(index.similar_terms("homesickhomesickh", 10, 1000).len(), 0);
}

#[test]
fn phonetic_distance_orders_neighbours() {
    let index = english_index(&[("hello", 100_000), ("help", 100_000)], false);
    let res = index.similar_terms("hallo", 10, 1000);
    assert_eq!(res.len(), 2);
    assert_eq!(res[0].to_output().primary, "hello");
    // a real fingerprint separates the two candidates
    assert!(res[0].get_relevance() < res[1].get_relevance());
}

#[test]
fn output_new_keeps_both_fields() {
    let o = Output::new("sky".to_string(), Some("空".to_string()));
    assert_eq!(o.primary, "sky");
    assert_eq!(o.secondary.as_deref(), Some("空"));
}
