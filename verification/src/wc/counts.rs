//! Lines, words, bytes and characters of a byte sequence.

use vstd::prelude::*;

verus! {

/// Line feed, which ends a line.
pub const NEWLINE: u8 = 0x0a;

/// What was counted in one input.
#[derive(Clone, Copy, Debug, PartialEq, Eq, Structural)]
pub struct Counts {
    /// Line feeds.
    pub lines: usize,
    /// Maximal runs of bytes that are not white space.
    pub words: usize,
    /// Bytes.
    pub bytes: usize,
    /// Bytes that are not continuation bytes of UTF-8, one for each character of valid UTF-8.
    pub chars: usize,
}

/// Whether `b` is ASCII white space: space, horizontal tab, line feed, form
/// feed or carriage return.
pub open spec fn is_whitespace(b: u8) -> bool {
    b == 0x20 || b == 0x09 || b == 0x0a || b == 0x0c || b == 0x0d
}

/// Whether `b` is a continuation byte of UTF-8: its two highest bits are `10`.
pub open spec fn is_continuation(b: u8) -> bool {
    128 <= b < 192
}

/// Whether a line ends at position `i` of `s`.
pub open spec fn ends_line(s: Seq<u8>, i: int) -> bool {
    s[i] == NEWLINE
}

/// Whether a word starts at position `i` of `s`: the byte there is not white
/// space, and it is the first byte or follows white space.
pub open spec fn starts_word(s: Seq<u8>, i: int) -> bool {
    !is_whitespace(s[i]) && (i == 0 || is_whitespace(s[i - 1]))
}

/// Whether a character starts at position `i` of `s`.
pub open spec fn starts_char(s: Seq<u8>, i: int) -> bool {
    !is_continuation(s[i])
}

/// Number of positions below `n` that satisfy `p`.
pub open spec fn count_below(n: nat, p: spec_fn(int) -> bool) -> nat
    decreases n,
{
    if n == 0 {
        0
    } else {
        count_below((n - 1) as nat, p) + if p(n - 1) {
            1nat
        } else {
            0nat
        }
    }
}

/// The positions of `s` at which a line ends.
pub open spec fn line_ends(s: Seq<u8>) -> spec_fn(int) -> bool {
    |i: int| ends_line(s, i)
}

/// The positions of `s` at which a word starts.
pub open spec fn word_starts(s: Seq<u8>) -> spec_fn(int) -> bool {
    |i: int| starts_word(s, i)
}

/// The positions of `s` at which a character starts.
pub open spec fn char_starts(s: Seq<u8>) -> spec_fn(int) -> bool {
    |i: int| starts_char(s, i)
}

/// Number of line feeds among the first `n` bytes of `s`.
pub open spec fn lines_in(s: Seq<u8>, n: nat) -> nat {
    count_below(n, line_ends(s))
}

/// Number of words that start among the first `n` bytes of `s`.
pub open spec fn words_in(s: Seq<u8>, n: nat) -> nat {
    count_below(n, word_starts(s))
}

/// Number of characters that start among the first `n` bytes of `s`.
pub open spec fn chars_in(s: Seq<u8>, n: nat) -> nat {
    count_below(n, char_starts(s))
}

/// There are no more positions that satisfy `p` than positions.
pub proof fn lemma_count_below_bound(n: nat, p: spec_fn(int) -> bool)
    ensures
        count_below(n, p) <= n,
    decreases n,
{
    if n > 0 {
        lemma_count_below_bound((n - 1) as nat, p);
    }
}

/// Among `n` bytes there are at most `n` line feeds, `n` words and `n` characters.
pub proof fn lemma_counts_bound(s: Seq<u8>, n: nat)
    ensures
        lines_in(s, n) <= n,
        words_in(s, n) <= n,
        chars_in(s, n) <= n,
{
    lemma_count_below_bound(n, line_ends(s));
    lemma_count_below_bound(n, word_starts(s));
    lemma_count_below_bound(n, char_starts(s));
}

impl Counts {
    /// What these counts say of the bytes `s`.
    pub open spec fn counts_of(self, s: Seq<u8>) -> bool {
        &&& self.bytes == s.len()
        &&& self.lines == lines_in(s, s.len())
        &&& self.words == words_in(s, s.len())
        &&& self.chars == chars_in(s, s.len())
    }

    /// Nothing counted.
    pub fn zero() -> (counts: Counts)
        ensures
            counts == (Counts { lines: 0, words: 0, bytes: 0, chars: 0 }),
    {
        Counts { lines: 0, words: 0, bytes: 0, chars: 0 }
    }

    /// Whether the sums of these counts and `other` can be held.
    pub open spec fn spec_can_accumulate(self, other: Counts) -> bool {
        &&& self.lines + other.lines <= usize::MAX
        &&& self.words + other.words <= usize::MAX
        &&& self.bytes + other.bytes <= usize::MAX
        &&& self.chars + other.chars <= usize::MAX
    }

    /// Whether `accumulate` may be called with `other`.
    pub fn can_accumulate(&self, other: &Counts) -> (ok: bool)
        ensures
            ok == self.spec_can_accumulate(*other),
    {
        self.lines <= usize::MAX - other.lines && self.words <= usize::MAX - other.words
            && self.bytes <= usize::MAX - other.bytes && self.chars <= usize::MAX - other.chars
    }

    /// Adds the counts of another input to these, as for a total over several inputs.
    pub fn accumulate(&mut self, other: &Counts)
        requires
            old(self).spec_can_accumulate(*other),
        ensures
            final(self).lines == old(self).lines + other.lines,
            final(self).words == old(self).words + other.words,
            final(self).bytes == old(self).bytes + other.bytes,
            final(self).chars == old(self).chars + other.chars,
    {
        self.lines = self.lines + other.lines;
        self.words = self.words + other.words;
        self.bytes = self.bytes + other.bytes;
        self.chars = self.chars + other.chars;
    }
}

impl Default for Counts {
    fn default() -> (counts: Counts)
        ensures
            counts == (Counts { lines: 0, words: 0, bytes: 0, chars: 0 }),
    {
        Counts::zero()
    }
}

/// Whether `b` is ASCII white space.
pub fn is_ascii_whitespace(b: u8) -> (white: bool)
    ensures
        white == is_whitespace(b),
{
    b == 0x20 || b == 0x09 || b == 0x0a || b == 0x0c || b == 0x0d
}

/// Counts the lines, words, bytes and characters of `input`.
pub fn count_reader(input: &[u8]) -> (counts: Counts)
    ensures
        counts.counts_of(input@),
        counts.lines <= counts.bytes,
        counts.words <= counts.bytes,
        counts.chars <= counts.bytes,
{
    let mut counts = Counts::zero();
    let mut in_word: bool = false;
    let mut i: usize = 0;
    while i < input.len()
        invariant
            i <= input@.len(),
            counts.bytes == i,
            counts.lines == lines_in(input@, i as nat),
            counts.words == words_in(input@, i as nat),
            counts.chars == chars_in(input@, i as nat),
            in_word == (i > 0 && !is_whitespace(input@[i - 1])),
        decreases input@.len() - i,
    {
        let b: u8 = input[i];
        proof {
            lemma_counts_bound(input@, i as nat);
        }
        counts.bytes = counts.bytes + 1;
        if b == NEWLINE {
            counts.lines = counts.lines + 1;
        }
        if is_ascii_whitespace(b) {
            in_word = false;
        } else {
            if !in_word {
                counts.words = counts.words + 1;
            }
            in_word = true;
        }
        if !(128 <= b && b < 192) {
            counts.chars = counts.chars + 1;
        }
        i = i + 1;
    }
    proof {
        lemma_counts_bound(input@, i as nat);
    }
    counts
}

} // verus!
