//! An in-memory autocompletion engine: prefix lookup over normalized keys,
//! with approximate fallbacks (phonetic neighbours, n-gram similarity,
//! longest-prefix walk-back and kanji reading alignment) merged under a
//! global result budget.

pub mod index;
pub mod phonetic;
pub mod relevance;
pub mod sort_vec;
pub mod strdist;
pub mod suggest;
pub mod text;
pub mod topk;
pub mod trie;
