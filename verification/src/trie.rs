//! The prefix tree behind every index: a `qp_trie::Trie` keyed by the
//! normalized string. The trie is kept behind a small trusted surface; its
//! contents are modelled as a map from character sequences to the stored
//! payload, and every wrapper states what the `qp-trie` sources show of the
//! call it makes.
//!
//! Two payload shapes exist, exactly as the indices need them: a single term
//! id, and the list of term ids sharing one reading.

use vstd::prelude::*;

verus! {

#[verifier::external_type_specification]
#[verifier::external_body]
pub struct ExBString(qp_trie::wrapper::BString);

#[verifier::external_type_specification]
#[verifier::external_body]
#[verifier::reject_recursive_types(K)]
#[verifier::reject_recursive_types(V)]
pub struct ExTrie<K, V>(qp_trie::Trie<K, V>);

/// What a single-payload trie holds: each key maps to one term id.
pub uninterp spec fn one_map(t: qp_trie::Trie<qp_trie::wrapper::BString, u32>) -> Map<
    Seq<char>,
    u32,
>;

/// What a multi-payload trie holds: each key maps to the ids inserted under
/// it, in insertion order.
pub uninterp spec fn many_map(t: qp_trie::Trie<qp_trie::wrapper::BString, Vec<u32>>) -> Map<
    Seq<char>,
    Seq<u32>,
>;

/// The entries of `m` whose key begins with `prefix`, as a list: every pair
/// listed is in `m`, carries the prefix, appears once, and nothing with the
/// prefix is missed.
pub open spec fn covers_prefix<V>(
    m: Map<Seq<char>, V>,
    prefix: Seq<char>,
    r: Seq<(String, V)>,
) -> bool {
    &&& forall|i: int|
        0 <= i < r.len() ==> m.contains_pair((#[trigger] r[i]).0@, r[i].1) && prefix.is_prefix_of(
            r[i].0@,
        )
    &&& forall|k: Seq<char>|
        m.dom().contains(k) && prefix.is_prefix_of(k) ==> exists|i: int|
            0 <= i < r.len() && (#[trigger] r[i]).0@ == k
    &&& forall|i: int, j: int| 0 <= i < j < r.len() ==> (#[trigger] r[i]).0@ != (#[trigger] r[j]).0@
}

/// Relies on `qp_trie::Trie::new`: a fresh trie has no entries (its root is
/// `None`, so gets and iteration find nothing).
#[verifier::external_body]
pub fn one_new() -> (r: qp_trie::Trie<qp_trie::wrapper::BString, u32>)
    ensures
        forall|k: Seq<char>| !one_map(r).dom().contains(k),
{
    qp_trie::Trie::new()
}

/// Relies on `qp_trie::Trie::insert_str`: the entry for `key` is set to
/// `val`, every other entry is untouched.
#[verifier::external_body]
pub fn one_insert(
    t: &mut qp_trie::Trie<qp_trie::wrapper::BString, u32>,
    key: &str,
    val: u32,
)
    ensures
        one_map(*final(t)) == one_map(*old(t)).insert(key@, val),
{
    t.insert_str(key, val);
}

/// Relies on `qp_trie::Trie::get_str`: returns the entry stored for exactly
/// this key, if there is one.
#[verifier::external_body]
pub fn one_get(t: &qp_trie::Trie<qp_trie::wrapper::BString, u32>, key: &str) -> (r: Option<u32>)
    ensures
        r is Some <==> one_map(*t).dom().contains(key@),
        r is Some ==> r->0 == one_map(*t)[key@],
{
    t.get_str(key).copied()
}

/// Relies on `qp_trie::Trie::contains_key_str`: reports whether an entry for
/// exactly this key exists.
#[verifier::external_body]
pub fn one_contains(t: &qp_trie::Trie<qp_trie::wrapper::BString, u32>, key: &str) -> (r: bool)
    ensures
        r == one_map(*t).dom().contains(key@),
{
    t.contains_key_str(key)
}

/// Relies on `qp_trie::Trie::iter_prefix_str`: visits exactly the entries
/// whose key starts with `prefix`, each once.
#[verifier::external_body]
pub fn one_prefix_entries(t: &qp_trie::Trie<qp_trie::wrapper::BString, u32>, prefix: &str) -> (r:
    Vec<(String, u32)>)
    ensures
        covers_prefix(one_map(*t), prefix@, r@),
{
    t.iter_prefix_str(prefix).map(|(k, v)| (String::from(k.clone()), *v)).collect()
}

/// Relies on `qp_trie::Trie::new`: a fresh trie has no entries.
#[verifier::external_body]
pub fn many_new() -> (r: qp_trie::Trie<qp_trie::wrapper::BString, Vec<u32>>)
    ensures
        forall|k: Seq<char>| !many_map(r).dom().contains(k),
{
    qp_trie::Trie::new()
}

/// Relies on `qp_trie::Trie::insert_str`: the entry for `key` is set to
/// `val`, every other entry is untouched.
#[verifier::external_body]
pub fn many_insert(
    t: &mut qp_trie::Trie<qp_trie::wrapper::BString, Vec<u32>>,
    key: &str,
    val: Vec<u32>,
)
    ensures
        many_map(*final(t)) == many_map(*old(t)).insert(key@, val@),
{
    t.insert_str(key, val);
}

/// Relies on `qp_trie::Trie::get_str`: returns a copy of the entry stored
/// for exactly this key, if there is one.
#[verifier::external_body]
pub fn many_get(t: &qp_trie::Trie<qp_trie::wrapper::BString, Vec<u32>>, key: &str) -> (r: Option<
    Vec<u32>,
>)
    ensures
        r is Some <==> many_map(*t).dom().contains(key@),
        r is Some ==> r->0@ == many_map(*t)[key@],
{
    t.get_str(key).cloned()
}

/// Relies on `qp_trie::Trie::iter_prefix_str`: visits exactly the entries
/// whose key starts with `prefix`, each once.
#[verifier::external_body]
pub fn many_prefix_entries(
    t: &qp_trie::Trie<qp_trie::wrapper::BString, Vec<u32>>,
    prefix: &str,
) -> (r: Vec<(String, Vec<u32>)>)
    ensures
        covers_prefix(many_map(*t), prefix@, r@.map_values(|p: (String, Vec<u32>)| (p.0, p.1@))),
{
    t.iter_prefix_str(prefix).map(|(k, v)| (String::from(k.clone()), v.clone())).collect()
}

/// Relies on `qp_trie::Trie::subtrie_str` and `SubTrie`'s iterator: visits
/// exactly the entries whose key starts with `prefix`, each once.
#[verifier::external_body]
pub fn many_subtrie_entries(
    t: &qp_trie::Trie<qp_trie::wrapper::BString, Vec<u32>>,
    prefix: &str,
) -> (r: Vec<(String, Vec<u32>)>)
    ensures
        covers_prefix(many_map(*t), prefix@, r@.map_values(|p: (String, Vec<u32>)| (p.0, p.1@))),
{
    t.subtrie_str(prefix).iter().map(|(k, v)| (String::from(k.clone()), v.clone())).collect()
}

} // verus!
