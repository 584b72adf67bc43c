use autocompletion::index::ngram_ext::iter::NgramIter;

fn collect_windows(inp: &str, w_size: usize) -> Vec<String> {
    let mut it = NgramIter::new(inp, w_size);
    let mut out = Vec::new();
    while let Some(w) = it.next() {
        out.push(w);
    }
    out
}

#[test]
fn test_window_iter_simple3() {
    let inp = "homesick";
    let res = collect_windows(inp, 3);
    assert_eq!(res, vec!["hom", "ome", "mes", "esi", "sic", "ick"]);
}

#[test]
fn test_window_iter_simple2() {
    let inp = "homesick";
    let res = collect_windows(inp, 2);
    assert_eq!(res, vec!["ho", "om", "me", "es", "si", "ic", "ck"]);
}

#[test]
fn test_window_iter_simple1() {
    let inp = "homesick";
    let res = collect_windows(inp, 1);
    assert_eq!(res, vec!["h", "o", "m", "e", "s", "i", "c", "k"]);
}
