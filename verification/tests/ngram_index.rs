use autocompletion::index::ngram::builder::NgramIndexBuilder;
use autocompletion::relevance::{RelevanceCalc, RelevanceWeights};
use autocompletion::index::ngram::Item;
use autocompletion::index::ngram_ext::builder::NGIndexBuilder;

#[test]
fn query_vec_and_similarity_over_one_word() {
    let mut builder = NGIndexBuilder::new(3);
    assert!(builder.insert("homesick", vec![0]));
    // too short for a window of three
    assert!(!builder.insert("ho", vec![1]));
    let index = builder.build();
    let qvec = index.query_vec("home").expect("shared n-grams");
    assert!(!qvec.is_empty());
    let found = index.find_qweight(&qvec, 600, usize::MAX);
    assert_eq!(found.len(), 1);
    assert_eq!(found[0].0, vec![0]);
    // overlap 4, query 4 dims, document 10 dims, weight 0.6 => 625 per mille
    assert_eq!(found[0].1, 625);
    assert!(found[0].1 > 300);
}

#[test]
fn unrelated_queries_find_nothing() {
    let mut builder = NGIndexBuilder::new(3);
    builder.insert("homesick", vec![0]);
    let index = builder.build();
    assert!(index.query_vec("xyz").is_none());
}

#[test]
fn ngram_index_predictions_rank_by_similarity() {
    let mut builder = NgramIndexBuilder::new(3);
    builder.insert(&vec!["home".to_string()], Item::new("home".to_string(), 0, 100_000));
    builder.insert(&vec!["house".to_string()], Item::new("house".to_string(), 1, 100_000));
    let index = builder.build();
    let res = index.predictions("home", 10);
    assert!(!res.is_empty());
    assert_eq!(res[0].to_output().primary, "home");
    let exact = index.exact("home");
    assert_eq!(exact.len(), 1);
    assert_eq!(exact[0].get_relevance(), 1000);
}

#[test]
fn relevance_is_monotonic_in_both_inputs() {
    let calc = RelevanceCalc::new(RelevanceWeights::new(1000, 1000, 1000));
    // rising frequency never lowers the score
    assert!(calc.calc_parts(0, 500) <= calc.calc_parts(1, 500));
    assert!(calc.calc_parts(1, 500) <= calc.calc_parts(100_000, 500));
    // rising string similarity never lowers the score
    assert!(calc.calc_parts(1000, 100) <= calc.calc_parts(1000, 900));
    // any frequency data at all earns at least one point
    assert_eq!(calc.calc_parts(0, 0), 10);
    assert_eq!(calc.calc_parts(1, 0), 20);
    // the nominal ceiling: full string score, capped frequency
    assert_eq!(calc.calc_parts(1_000_000, 1000), 20010);
}

#[test]
fn queries_shorter_than_the_window_have_no_vector() {
    let mut builder = NGIndexBuilder::new(3);
    builder.insert("homesick", vec![0]);
    let index = builder.build();
    assert!(index.query_vec("ho").is_none());
    assert!(index.query_vec("").is_none());
}
