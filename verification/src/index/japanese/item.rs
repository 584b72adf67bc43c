//! The record stored in the Japanese index: a kana reading, an optional
//! kanji surface, alternative readings, frequency, and a phonetic
//! fingerprint of the kana.

use vstd::prelude::*;
use crate::index::output::Output;
use crate::index::ToOutput;
use crate::phonetic::{jp_hash, spec_jp_hash};
use crate::strdist::{prefix_score, scaled_sim, spec_prefix_score, spec_scaled_sim};
use crate::text::{chars_of, hiragana_of, spec_starts_with, starts_with, to_hiragana};

verus! {

/// One reading scored against the hiragana-folded query: the score and
/// whether it was a prefix hit. Readings are compared hiragana-folded.
/// Degenerately long readings score zero.
pub open spec fn spec_reading_score(word: Seq<char>, hq: Seq<char>) -> (int, bool) {
    let hw = hiragana_of(word);
    if hw.len() >= 0x100_0000 || hq.len() >= 0x100_0000 {
        (0int, false)
    } else if spec_starts_with(hw, hq) {
        (spec_prefix_score(hw.len() as int, hq.len() as int), true)
    } else {
        (spec_scaled_sim(hw, hq, 1000), false)
    }
}

/// The greatest score among the alternative readings, zero when there are
/// none.
pub open spec fn spec_alt_max(alts: Seq<String>, hq: Seq<char>) -> int
    decreases alts.len(),
{
    if alts.len() == 0 {
        0
    } else {
        let rest = spec_alt_max(alts.drop_last(), hq);
        let last = spec_reading_score(alts.last()@, hq).0;
        if last >= rest {
            last
        } else {
            rest
        }
    }
}

/// An item of the Japanese index.
#[derive(Debug)]
pub struct Item {
    pub word_id: u32,
    pub kana: String,
    pub kanji: Option<String>,
    pub alternative: Vec<String>,
    /// Parts per million, at most [`crate::index::ngram::item::FREQ_SCALE`].
    pub frequency: u32,
    /// The phonetic fingerprint of the kana reading.
    pub hash: Option<u64>,
}

/// How a Japanese item scores against a query, all readings folded to
/// hiragana: a prefix hit on kana or kanji wins and earns a small boost;
/// otherwise the score is the best of the kana and kanji edit-distance
/// scores and the alternative readings' scores, the alternatives under a
/// 300-point penalty.
pub open spec fn spec_jp_relevance(item: Item, query: Seq<char>) -> int {
    let hq = hiragana_of(query);
    let ks = spec_reading_score(item.kana@, hq);
    let js = if item.kanji is Some {
        spec_reading_score(item.kanji->0@, hq)
    } else {
        (0int, false)
    };
    if ks.1 || js.1 {
        (if ks.0 >= js.0 {
            ks.0
        } else {
            js.0
        }) + 10
    } else {
        let base = if ks.0 >= js.0 {
            ks.0
        } else {
            js.0
        };
        let m = spec_alt_max(item.alternative@, hq);
        let alt = if m >= 300 {
            m - 300
        } else {
            0
        };
        if base >= alt {
            base
        } else {
            alt
        }
    }
}

/// Scores one reading against the already-folded query.
fn reading_score(word: &str, hq: &Vec<char>) -> (r: (u16, bool))
    ensures
        (r.0 as int, r.1) == spec_reading_score(word@, hq@),
        r.0 <= 1000,
{
    let hw_s = to_hiragana(word);
    let hw = chars_of(hw_s.as_str());
    if hw.len() >= 0x100_0000 || hq.len() >= 0x100_0000 {
        (0, false)
    } else if starts_with(&hw, hq) {
        (prefix_score(hw.len(), hq.len()), true)
    } else {
        (scaled_sim(&hw, hq, 1000), false)
    }
}

impl Item {
    /// The stored frequency is on the parts-per-million ladder.
    pub open spec fn wf(self) -> bool {
        self.frequency <= crate::index::ngram::item::FREQ_SCALE
    }

    /// Creates a new Japanese item. The frequency must already be
    /// normalized.
    pub fn new(
        word_id: u32,
        kana: String,
        kanji: Option<String>,
        alternative: Vec<String>,
        frequency: u32,
    ) -> (r: Item)
        requires
            frequency <= crate::index::ngram::item::FREQ_SCALE,
        ensures
            r.wf(),
            r.word_id == word_id,
            r.kana@ == kana@,
            r.kanji == kanji,
            r.alternative == alternative,
            r.frequency == frequency,
            r.hash == spec_jp_hash(kana@),
    {
        let hash = jp_hash(kana.as_str());
        Item { word_id, kana, kanji, alternative, frequency, hash }
    }

    /// Scores this item against a query; see [`spec_jp_relevance`].
    pub fn str_relevance(&self, query: &str) -> (r: u16)
        ensures
            r == spec_jp_relevance(*self, query@),
            r <= 1010,
    {
        let hq_s = to_hiragana(query);
        let hq = chars_of(hq_s.as_str());
        let ks = reading_score(self.kana.as_str(), &hq);
        let js = match &self.kanji {
            Some(k) => reading_score(k.as_str(), &hq),
            None => (0, false),
        };
        if ks.1 || js.1 {
            (if ks.0 >= js.0 {
                ks.0
            } else {
                js.0
            }) + 10
        } else {
            let base = if ks.0 >= js.0 {
                ks.0
            } else {
                js.0
            };
            let mut m: u16 = 0;
            let mut i: usize = 0;
            while i < self.alternative.len()
                invariant
                    i <= self.alternative@.len(),
                    m <= 1000,
                    m == spec_alt_max(self.alternative@.take(i as int), hq@),
                decreases self.alternative@.len() - i,
            {
                proof {
                    assert(self.alternative@.take(i + 1).drop_last() =~= self.alternative@.take(
                        i as int,
                    ));
                    assert(self.alternative@.take(i + 1).last() == self.alternative@[i as int]);
                }
                let sc = reading_score(self.alternative[i].as_str(), &hq);
                if sc.0 > m {
                    m = sc.0;
                }
                i += 1;
            }
            proof {
                assert(self.alternative@.take(self.alternative@.len() as int)
                    =~= self.alternative@);
            }
            let alt = if m >= 300 {
                m - 300
            } else {
                0
            };
            if base >= alt {
                base
            } else {
                alt
            }
        }
    }

    /// All searchable surface forms: the kana reading, then the kanji.
    pub fn terms(&self) -> (r: Vec<String>)
        ensures
            r@.len() == 1 + (if self.kanji is Some {
                1int
            } else {
                0int
            }),
            r@[0]@ == self.kana@,
            self.kanji is Some ==> r@[1]@ == self.kanji->0@,
    {
        let mut out: Vec<String> = Vec::new();
        out.push(self.kana.clone());
        if let Some(k) = &self.kanji {
            out.push(k.clone());
        }
        out
    }

    /// A copy of this item.
    pub fn duplicate(&self) -> (r: Item)
        ensures
            r.word_id == self.word_id,
            r.kana == self.kana,
            r.kanji == self.kanji,
            r.alternative@ == self.alternative@,
            r.frequency == self.frequency,
            r.hash == self.hash,
    {
        let kanji = match &self.kanji {
            Some(k) => Some(k.clone()),
            None => None,
        };
        let mut alternative: Vec<String> = Vec::new();
        let mut i: usize = 0;
        while i < self.alternative.len()
            invariant
                i <= self.alternative@.len(),
                alternative@ == self.alternative@.take(i as int),
            decreases self.alternative@.len() - i,
        {
            alternative.push(self.alternative[i].clone());
            i += 1;
            proof {
                assert(alternative@ =~= self.alternative@.take(i as int));
            }
        }
        proof {
            assert(self.alternative@.take(self.alternative@.len() as int) =~= self.alternative@);
        }
        Item {
            word_id: self.word_id,
            kana: self.kana.clone(),
            kanji,
            alternative,
            frequency: self.frequency,
            hash: self.hash,
        }
    }
}

impl ToOutput for Item {
    fn to_output(&self) -> (r: Output)
        ensures
            r.primary@ == self.kana@,
            r.secondary == self.kanji,
    {
        let secondary = match &self.kanji {
            Some(k) => Some(k.clone()),
            None => None,
        };
        Output { primary: self.kana.clone(), secondary }
    }
}

} // verus!
