//! Character windows: all length-`n` windows of a word, advancing one
//! character per step, left to right.

use vstd::prelude::*;
use crate::text::string_from_chars;

verus! {

/// The window starting at `i`: characters `i .. i + n` of `s`.
pub open spec fn spec_window(s: Seq<char>, n: int, i: int) -> Seq<char> {
    s.subrange(i, i + n)
}

/// All length-`n` windows of `s`, in order. A word of `m >= n` characters
/// has exactly `m - n + 1` windows of exactly `n` characters each.
pub fn windows(chars: &Vec<char>, n: usize) -> (r: Vec<Vec<char>>)
    requires
        1 <= n,
    ensures
        chars@.len() >= n ==> r@.len() == chars@.len() - n + 1,
        chars@.len() < n ==> r@.len() == 0,
        forall|i: int| 0 <= i < r@.len() ==> (#[trigger] r@[i])@ == spec_window(chars@, n as int, i),
        forall|i: int| 0 <= i < r@.len() ==> (#[trigger] r@[i])@.len() == n,
{
    let mut r: Vec<Vec<char>> = Vec::new();
    if chars.len() < n {
        return r;
    }
    let count = chars.len() - n + 1;
    let mut i: usize = 0;
    while i < count
        invariant
            count == chars@.len() - n + 1,
            n >= 1,
            n <= chars@.len(),
            chars@.len() <= usize::MAX,
            i <= count,
            r@.len() == i,
            forall|t: int|
                0 <= t < i ==> (#[trigger] r@[t])@ == spec_window(chars@, n as int, t),
        decreases count - i,
    {
        let mut w: Vec<char> = Vec::new();
        let mut j: usize = 0;
        while j < n
            invariant
                j <= n,
                i + n <= chars@.len(),
                chars@.len() <= usize::MAX,
                w@.len() == j,
                forall|t: int| 0 <= t < j ==> w@[t] == chars@[i + t],
            decreases n - j,
        {
            w.push(chars[i + j]);
            j += 1;
        }
        proof {
            assert(w@ =~= spec_window(chars@, n as int, i as int));
        }
        r.push(w);
        i += 1;
    }
    r
}

/// Yields the length-`w_size` character windows of a word, one per call,
/// left to right.
pub struct NgramIter {
    chars: Vec<char>,
    w_size: usize,
    pos: usize,
}

impl NgramIter {
    /// The word the windows are drawn from.
    pub closed spec fn text(self) -> Seq<char> {
        self.chars@
    }

    /// The window width.
    pub closed spec fn width(self) -> int {
        self.w_size as int
    }

    /// How many windows were already yielded.
    pub closed spec fn position(self) -> int {
        self.pos as int
    }

    /// Starts a window iterator over `s`. The word must be long enough to
    /// hold at least one window.
    pub fn new(s: &str, w_size: usize) -> (r: NgramIter)
        requires
            1 <= w_size <= s@.len(),
        ensures
            r.text() == s@,
            r.width() == w_size,
            r.position() == 0,
    {
        let chars = crate::text::chars_of(s);
        NgramIter { chars, w_size, pos: 0 }
    }

    /// The next window, or `None` once the last window was yielded.
    pub fn next(&mut self) -> (r: Option<String>)
        requires
            1 <= old(self).width(),
        ensures
            final(self).text() == old(self).text(),
            final(self).width() == old(self).width(),
            old(self).position() + old(self).width() <= old(self).text().len() ==> {
                &&& r is Some
                &&& r->0@ == spec_window(old(self).text(), old(self).width(), old(self).position())
                &&& final(self).position() == old(self).position() + 1
            },
            old(self).position() + old(self).width() > old(self).text().len() ==> {
                &&& r is None
                &&& final(self).position() == old(self).position()
            },
    {
        if self.pos > self.chars.len() || self.chars.len() - self.pos < self.w_size {
            return None;
        }
        let mut w: Vec<char> = Vec::new();
        let mut j: usize = 0;
        while j < self.w_size
            invariant
                j <= self.w_size,
                self.pos + self.w_size <= self.chars@.len(),
                self.chars@.len() <= usize::MAX,
                w@.len() == j,
                forall|t: int| 0 <= t < j ==> w@[t] == self.chars@[self.pos + t],
            decreases self.w_size - j,
        {
            w.push(self.chars[self.pos + j]);
            j += 1;
        }
        proof {
            assert(w@ =~= spec_window(self.chars@, self.w_size as int, self.pos as int));
        }
        let out = string_from_chars(&w);
        self.pos += 1;
        Some(out)
    }
}

} // verus!
