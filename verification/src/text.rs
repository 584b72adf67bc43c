//! Character-level helpers shared by every index: bridging between strings
//! and character vectors, ASCII case folding, punctuation stripping and
//! prefix tests.

use vstd::prelude::*;

verus! {

/// Relies on `str::chars`: yields the string's characters in order, so the
/// collected vector is exactly the string's character sequence.
#[verifier::external_body]
pub fn chars_of(s: &str) -> (r: Vec<char>)
    ensures
        r@ == s@,
{
    s.chars().collect()
}

/// Relies on `String`'s `FromIterator<char>` impl: collecting characters
/// builds the string with exactly those characters in order.
#[verifier::external_body]
pub fn string_from_chars(v: &Vec<char>) -> (r: String)
    ensures
        r@ == v@,
{
    v.iter().collect()
}

/// A character encodes to one to four bytes, so a word's byte length lies
/// between its character count and four times it.
pub proof fn lemma_encode_len(s: Seq<char>)
    ensures
        s.len() <= vstd::utf8::encode_utf8(s).len() <= 4 * s.len(),
    decreases s.len(),
{
    if s.len() > 0 {
        lemma_encode_len(s.drop_first());
    }
}

/// ASCII case folding: upper-case Latin letters fold to lower case, every
/// other character is left alone.
pub open spec fn fold_char(c: char) -> char {
    if 'A' <= c && c <= 'Z' {
        (((c as u32) + 32) as u8) as char
    } else {
        c
    }
}

/// Exec twin of [`fold_char`].
pub fn fold_char_exec(c: char) -> (r: char)
    ensures
        r == fold_char(c),
{
    if 'A' <= c && c <= 'Z' {
        (((c as u32) + 32) as u8) as char
    } else {
        c
    }
}

/// A folded character is never an upper-case Latin letter, so folding twice
/// changes nothing.
pub proof fn lemma_fold_char_idempotent(c: char)
    ensures
        fold_char(fold_char(c)) == fold_char(c),
{
}

/// Case folding over a whole character sequence.
pub open spec fn fold_seq(s: Seq<char>) -> Seq<char> {
    s.map_values(|c: char| fold_char(c))
}

/// Folds every character of `v` to lower case.
pub fn fold_chars(v: &Vec<char>) -> (r: Vec<char>)
    ensures
        r@ == fold_seq(v@),
{
    let mut r: Vec<char> = Vec::new();
    let mut i: usize = 0;
    while i < v.len()
        invariant
            i <= v@.len(),
            r@.len() == i,
            forall|t: int| 0 <= t < i ==> r@[t] == fold_char(v@[t]),
        decreases v@.len() - i,
    {
        r.push(fold_char_exec(v[i]));
        i += 1;
    }
    proof {
        assert(r@ =~= fold_seq(v@));
    }
    r
}

/// The punctuation stripped by the formatting step. The Japanese variant
/// also removes the exclamation mark.
pub open spec fn is_removed_char(c: char, jp: bool) -> bool {
    ||| c == '('
    ||| c == ')'
    ||| c == '.'
    ||| c == ','
    ||| c == '/'
    ||| c == '['
    ||| c == ']'
    ||| c == '?'
    ||| c == '{'
    ||| c == '}'
    ||| c == '\u{3001}'
    ||| c == '\u{3002}'
    ||| c == '\u{30fb}'
    ||| (jp && c == '!')
}

/// Exec twin of [`is_removed_char`].
pub fn is_removed_char_exec(c: char, jp: bool) -> (r: bool)
    ensures
        r == is_removed_char(c, jp),
{
    c == '(' || c == ')' || c == '.' || c == ',' || c == '/' || c == '[' || c == ']' || c == '?'
        || c == '{' || c == '}' || c == '\u{3001}' || c == '\u{3002}' || c == '\u{30fb}' || (jp
        && c == '!')
}

/// Stripping and folding, before trimming: drop the configured
/// punctuation, fold the rest to lower case.
pub open spec fn spec_strip_fold(s: Seq<char>, jp: bool) -> Seq<char>
    decreases s.len(),
{
    if s.len() == 0 {
        Seq::empty()
    } else {
        spec_strip_fold(s.drop_last(), jp) + (if is_removed_char(s.last(), jp) {
            Seq::empty()
        } else {
            seq![fold_char(s.last())]
        })
    }
}

/// The whitespace ignored at either end of a key.
pub open spec fn is_trim_char(c: char) -> bool {
    c == ' ' || c == '\t' || c == '\n' || c == '\r' || c == '\u{3000}'
}

/// Exec twin of [`is_trim_char`].
pub fn is_trim_char_exec(c: char) -> (r: bool)
    ensures
        r == is_trim_char(c),
{
    c == ' ' || c == '\t' || c == '\n' || c == '\r' || c == '\u{3000}'
}

/// `s` without its trailing whitespace.
pub open spec fn spec_trim_end(s: Seq<char>) -> Seq<char>
    decreases s.len(),
{
    if s.len() > 0 && is_trim_char(s.last()) {
        spec_trim_end(s.drop_last())
    } else {
        s
    }
}

/// `s` without its leading whitespace.
pub open spec fn spec_trim_start(s: Seq<char>) -> Seq<char>
    decreases s.len(),
{
    if s.len() > 0 && is_trim_char(s.first()) {
        spec_trim_start(s.drop_first())
    } else {
        s
    }
}

/// `s` without surrounding whitespace.
pub open spec fn spec_trim(s: Seq<char>) -> Seq<char> {
    spec_trim_start(spec_trim_end(s))
}

/// The normalization every index key goes through: drop the configured
/// punctuation, fold the rest to lower case, and ignore surrounding
/// whitespace, so a stray trailing space queries the same key.
pub open spec fn spec_format(s: Seq<char>, jp: bool) -> Seq<char> {
    spec_trim(spec_strip_fold(s, jp))
}

/// What is left after trimming was already in the sequence.
proof fn lemma_trim_contains(s: Seq<char>)
    ensures
        forall|x: char| #[trigger] spec_trim(s).contains(x) ==> s.contains(x),
{
    lemma_trim_end_contains(s);
    lemma_trim_start_contains(spec_trim_end(s));
    assert forall|x: char| #[trigger] spec_trim(s).contains(x) implies s.contains(x) by {
        assert(spec_trim_end(s).contains(x));
    }
}

proof fn lemma_trim_end_contains(s: Seq<char>)
    ensures
        forall|x: char| #[trigger] spec_trim_end(s).contains(x) ==> s.contains(x),
    decreases s.len(),
{
    if s.len() > 0 && is_trim_char(s.last()) {
        lemma_trim_end_contains(s.drop_last());
        assert forall|x: char| #[trigger] spec_trim_end(s).contains(x) implies s.contains(x) by {
            assert(spec_trim_end(s.drop_last()).contains(x));
            assert(s.drop_last().contains(x));
            let i = choose|i: int| 0 <= i < s.drop_last().len() && s.drop_last()[i] == x;
            assert(s[i] == x);
        }
    }
}

proof fn lemma_trim_start_contains(s: Seq<char>)
    ensures
        forall|x: char| #[trigger] spec_trim_start(s).contains(x) ==> s.contains(x),
    decreases s.len(),
{
    if s.len() > 0 && is_trim_char(s.first()) {
        lemma_trim_start_contains(s.drop_first());
        assert forall|x: char| #[trigger] spec_trim_start(s).contains(x) implies s.contains(x) by {
            assert(spec_trim_start(s.drop_first()).contains(x));
            assert(s.drop_first().contains(x));
            let i = choose|i: int| 0 <= i < s.drop_first().len() && s.drop_first()[i] == x;
            assert(s[i + 1] == x);
        }
    }
}

/// A trimmed sequence neither starts nor ends with whitespace, so trimming
/// it again changes nothing.
proof fn lemma_trim_idempotent(s: Seq<char>)
    ensures
        spec_trim(spec_trim(s)) == spec_trim(s),
{
    let w = spec_trim_end(s);
    let z = spec_trim_start(w);
    lemma_trim_end_last(s);
    lemma_trim_start_first(w);
    lemma_trim_start_keeps_last(w);
    if z.len() > 0 {
        assert(!is_trim_char(z.last()));
        assert(spec_trim_end(z) == z);
        assert(!is_trim_char(z.first()));
        assert(spec_trim_start(z) == z);
    } else {
        assert(spec_trim_end(z) == z);
        assert(spec_trim_start(z) == z);
    }
}

proof fn lemma_trim_end_last(s: Seq<char>)
    ensures
        spec_trim_end(s).len() == 0 || !is_trim_char(spec_trim_end(s).last()),
    decreases s.len(),
{
    if s.len() > 0 && is_trim_char(s.last()) {
        lemma_trim_end_last(s.drop_last());
    }
}

proof fn lemma_trim_start_first(s: Seq<char>)
    ensures
        spec_trim_start(s).len() == 0 || !is_trim_char(spec_trim_start(s).first()),
    decreases s.len(),
{
    if s.len() > 0 && is_trim_char(s.first()) {
        lemma_trim_start_first(s.drop_first());
    }
}

proof fn lemma_trim_start_keeps_last(s: Seq<char>)
    ensures
        spec_trim_start(s).len() > 0 ==> s.len() > 0 && spec_trim_start(s).last() == s.last(),
    decreases s.len(),
{
    if s.len() > 0 && is_trim_char(s.first()) {
        lemma_trim_start_keeps_last(s.drop_first());
        if spec_trim_start(s).len() > 0 {
            assert(s.drop_first().last() == s.last());
        }
    }
}

/// Folding never produces a removed character from a kept one, and folding
/// a folded character changes nothing.
pub proof fn lemma_fold_keeps_kept(c: char, jp: bool)
    ensures
        !is_removed_char(c, jp) ==> !is_removed_char(fold_char(c), jp),
{
}

/// Every character the stripping step keeps is already folded and is not
/// punctuation.
proof fn lemma_strip_fold_chars(s: Seq<char>, jp: bool)
    ensures
        forall|x: char|
            #[trigger] spec_strip_fold(s, jp).contains(x) ==> !is_removed_char(x, jp)
                && fold_char(x) == x,
    decreases s.len(),
{
    if s.len() > 0 {
        let dl = s.drop_last();
        lemma_strip_fold_chars(dl, jp);
        assert forall|x: char|
            #[trigger] spec_strip_fold(s, jp).contains(x) implies !is_removed_char(x, jp)
            && fold_char(x) == x by {
            let t = spec_strip_fold(dl, jp);
            let i = choose|i: int|
                0 <= i < spec_strip_fold(s, jp).len() && spec_strip_fold(s, jp)[i] == x;
            if i < t.len() {
                assert(t[i] == x);
                assert(t.contains(x));
            } else {
                assert(x == fold_char(s.last()));
                lemma_fold_keeps_kept(s.last(), jp);
                lemma_fold_char_idempotent(s.last());
            }
        }
    }
}

/// Stripping and folding a sequence of kept, folded characters changes
/// nothing.
proof fn lemma_strip_fold_fixed(x: Seq<char>, jp: bool)
    requires
        forall|c: char| #[trigger] x.contains(c) ==> !is_removed_char(c, jp) && fold_char(c) == c,
    ensures
        spec_strip_fold(x, jp) == x,
    decreases x.len(),
{
    if x.len() > 0 {
        let dl = x.drop_last();
        assert(forall|c: char| #[trigger] dl.contains(c) ==> x.contains(c)) by {
            assert forall|c: char| #[trigger] dl.contains(c) implies x.contains(c) by {
                let i = choose|i: int| 0 <= i < dl.len() && dl[i] == c;
                assert(x[i] == c);
            }
        }
        lemma_strip_fold_fixed(dl, jp);
        assert(x.contains(x.last()));
        assert(spec_strip_fold(x, jp) =~= x);
    }
}

/// Formatting is idempotent: normalizing an already-normalized key changes
/// nothing.
pub proof fn lemma_format_idempotent(s: Seq<char>, jp: bool)
    ensures
        spec_format(spec_format(s, jp), jp) == spec_format(s, jp),
{
    let y = spec_strip_fold(s, jp);
    let z = spec_trim(y);
    lemma_strip_fold_chars(s, jp);
    lemma_trim_contains(y);
    assert forall|c: char| #[trigger] z.contains(c) implies !is_removed_char(c, jp) && fold_char(c)
        == c by {
        assert(y.contains(c));
    }
    lemma_strip_fold_fixed(z, jp);
    lemma_trim_idempotent(y);
}

/// Normalizes the characters of a key: [`spec_format`], executably.
pub fn format_chars(v: &Vec<char>, jp: bool) -> (r: Vec<char>)
    ensures
        r@ == spec_format(v@, jp),
{
    let mut w: Vec<char> = Vec::new();
    let mut i: usize = 0;
    proof {
        assert(v@.take(0) =~= Seq::<char>::empty());
    }
    while i < v.len()
        invariant
            i <= v@.len(),
            w@ == spec_strip_fold(v@.take(i as int), jp),
        decreases v@.len() - i,
    {
        proof {
            assert(v@.take(i + 1).drop_last() =~= v@.take(i as int));
            assert(v@.take(i + 1).last() == v@[i as int]);
        }
        let c = v[i];
        if !is_removed_char_exec(c, jp) {
            w.push(fold_char_exec(c));
            proof {
                assert(w@ =~= spec_strip_fold(v@.take(i as int), jp) + seq![fold_char(
                    v@[i as int],
                )]);
            }
        } else {
            proof {
                assert(w@ =~= spec_strip_fold(v@.take(i as int), jp) + Seq::<char>::empty());
            }
        }
        i += 1;
    }
    proof {
        assert(v@.take(v@.len() as int) =~= v@);
    }
    trim_chars(w)
}

/// Drops surrounding whitespace: [`spec_trim`], executably.
pub fn trim_chars(v: Vec<char>) -> (r: Vec<char>)
    ensures
        r@ == spec_trim(v@),
{
    let mut end = v.len();
    proof {
        assert(v@.take(v@.len() as int) =~= v@);
    }
    while end > 0 && is_trim_char_exec(v[end - 1])
        invariant
            end <= v@.len(),
            spec_trim_end(v@) == spec_trim_end(v@.take(end as int)),
        decreases end,
    {
        proof {
            assert(v@.take(end as int).drop_last() =~= v@.take(end - 1));
            assert(v@.take(end as int).last() == v@[end - 1]);
        }
        end -= 1;
    }
    proof {
        if end > 0 {
            assert(v@.take(end as int).last() == v@[end - 1]);
        }
        assert(spec_trim_end(v@) == v@.take(end as int));
    }
    let mut start: usize = 0;
    while start < end && is_trim_char_exec(v[start])
        invariant
            start <= end <= v@.len(),
            spec_trim_end(v@) == v@.take(end as int),
            spec_trim_start(v@.take(end as int)) == spec_trim_start(
                v@.subrange(start as int, end as int),
            ),
        decreases end - start,
    {
        proof {
            assert(v@.subrange(start as int, end as int).drop_first() =~= v@.subrange(
                start + 1,
                end as int,
            ));
            assert(v@.subrange(start as int, end as int).first() == v@[start as int]);
        }
        start += 1;
    }
    proof {
        if start < end {
            assert(v@.subrange(start as int, end as int).first() == v@[start as int]);
        }
        assert(spec_trim_start(v@.subrange(start as int, end as int)) =~= v@.subrange(
            start as int,
            end as int,
        ));
    }
    let mut r: Vec<char> = Vec::new();
    let mut i = start;
    while i < end
        invariant
            start <= i <= end <= v@.len(),
            r@ == v@.subrange(start as int, i as int),
        decreases end - i,
    {
        r.push(v[i]);
        i += 1;
        proof {
            assert(r@ =~= v@.subrange(start as int, i as int));
        }
    }
    proof {
        assert(r@ == v@.subrange(start as int, end as int));
    }
    r
}

/// What the `romaji` crate's kana-to-romaji transliteration returns: a pure
/// function of the characters.
pub uninterp spec fn romaji_of(s: Seq<char>) -> Seq<char>;

/// Relies on romaji's `RomajiExt::to_romaji`: a deterministic, table-driven
/// transliteration of kana into Latin letters.
#[verifier::external_body]
pub fn to_romaji(s: &str) -> (r: String)
    ensures
        r@ == romaji_of(s@),
{
    romaji::RomajiExt::to_romaji(s)
}

/// What the `romaji` crate's katakana-to-hiragana folding returns: a pure
/// function of the characters.
pub uninterp spec fn hiragana_of(s: Seq<char>) -> Seq<char>;

/// Relies on romaji's `RomajiExt::to_hiragana`: a deterministic, table-driven
/// folding of a reading into hiragana.
#[verifier::external_body]
pub fn to_hiragana(s: &str) -> (r: String)
    ensures
        r@ == hiragana_of(s@),
{
    romaji::RomajiExt::to_hiragana(s)
}

/// Case-insensitive prefix test at the character level.
pub open spec fn spec_starts_with(whole: Seq<char>, prefix: Seq<char>) -> bool {
    prefix.is_prefix_of(whole)
}

/// Returns whether `prefix` is a prefix of `whole`.
pub fn starts_with(whole: &Vec<char>, prefix: &Vec<char>) -> (r: bool)
    ensures
        r == spec_starts_with(whole@, prefix@),
{
    if prefix.len() > whole.len() {
        assert(!prefix@.is_prefix_of(whole@));
        return false;
    }
    let mut i: usize = 0;
    while i < prefix.len()
        invariant
            i <= prefix.len() <= whole.len(),
            forall|j: int| 0 <= j < i ==> whole@[j] == prefix@[j],
        decreases prefix.len() - i,
    {
        if whole[i] != prefix[i] {
            assert(!prefix@.is_prefix_of(whole@)) by {
                assert(whole@.subrange(0, prefix@.len() as int)[i as int] != prefix@[i as int]);
            }
            return false;
        }
        i += 1;
    }
    assert(prefix@.is_prefix_of(whole@)) by {
        assert(whole@.subrange(0, prefix@.len() as int) =~= prefix@);
    }
    true
}

} // verus!
