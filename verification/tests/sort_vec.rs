use autocompletion::sort_vec::SortVec;

#[test]
fn push_get_len() {
    let mut v: SortVec<&str> = SortVec::new();
    assert!(v.is_empty());
    v.push("a", 3);
    v.push("b", 1);
    assert_eq!(v.len(), 2);
    assert_eq!(v.get(0), Some(&("a", 3)));
    assert_eq!(v.get(2), None);
    assert!(!v.is_empty());
}

#[test]
fn from_vec_pairs_positionally() {
    let v = SortVec::from_vec(vec!["x", "y", "z"], vec![9, 8]);
    assert_eq!(v.len(), 2);
    assert_eq!(v.get(1), Some(&("y", 8)));
}

#[test]
fn sort_ll_sorts_ascending() {
    let v = SortVec::from_tuple_vec(vec![("c", 3), ("a", 1), ("b", 2)]);
    assert_eq!(v.sort_ll(), vec![("a", 1), ("b", 2), ("c", 3)]);
}

#[test]
fn with_capacity_starts_empty() {
    let v: SortVec<u32> = SortVec::with_capacity(16);
    assert!(v.is_empty());
    assert_eq!(v.into_inner(), Vec::new());
}

#[test]
fn biggest_keeps_top_entries() {
    let v = SortVec::from_tuple_vec(vec![(10u32, 5), (20u32, 9), (30u32, 1), (40u32, 9)]);
    assert_eq!(v.get_biggest(2), vec![(20, 9), (40, 9)]);
    assert_eq!(v.into_biggest(3), vec![(20, 9), (40, 9), (10, 5)]);
}

#[test]
fn sort_by_rearranges_with_a_custom_comparator() {
    let v = SortVec::from_tuple_vec(vec![("c", 3), ("a", 1), ("b", 2)]);
    let mut sorted = v.sort_by(|x, y| y.1.cmp(&x.1));
    assert_eq!(sorted.remove(0), ("c", 3));
    assert_eq!(sorted, vec![("b", 2), ("a", 1)]);
}
