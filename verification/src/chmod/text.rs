//! Character sequences: the characters of a string, and the longest prefix
//! whose characters all have some property.

use vstd::prelude::*;

verus! {

/// Length of the longest prefix of `s` whose characters all satisfy `keep`.
pub open spec fn prefix_len(s: Seq<char>, keep: spec_fn(char) -> bool) -> nat
    decreases s.len(),
{
    if s.len() == 0 || !keep(s[0]) {
        0
    } else {
        1 + prefix_len(s.drop_first(), keep)
    }
}

/// The prefix lies within the sequence, all its characters satisfy `keep`, and
/// the character after it, if there is one, does not.
pub proof fn lemma_prefix_len(s: Seq<char>, keep: spec_fn(char) -> bool)
    ensures
        prefix_len(s, keep) <= s.len(),
        forall|i: int| 0 <= i < prefix_len(s, keep) ==> keep(#[trigger] s[i]),
        prefix_len(s, keep) < s.len() ==> !keep(s[prefix_len(s, keep) as int]),
    decreases s.len(),
{
    if s.len() > 0 && keep(s[0]) {
        let rest = s.drop_first();
        lemma_prefix_len(rest, keep);
        assert forall|i: int| 0 <= i < prefix_len(s, keep) implies keep(#[trigger] s[i]) by {
            if i > 0 {
                assert(s[i] == rest[i - 1]);
            }
        }
        if prefix_len(s, keep) < s.len() {
            assert(s[prefix_len(s, keep) as int] == rest[prefix_len(rest, keep) as int]);
        }
    }
}

/// A length with the three properties of `lemma_prefix_len` is the prefix length.
pub proof fn lemma_prefix_len_is(s: Seq<char>, keep: spec_fn(char) -> bool, n: nat)
    requires
        n <= s.len(),
        forall|i: int| 0 <= i < n ==> keep(#[trigger] s[i]),
        n < s.len() ==> !keep(s[n as int]),
    ensures
        prefix_len(s, keep) == n,
    decreases s.len(),
{
    if n > 0 {
        let rest = s.drop_first();
        assert(keep(s[0]));
        assert forall|i: int| 0 <= i < n - 1 implies keep(#[trigger] rest[i]) by {
            assert(rest[i] == s[i + 1]);
        }
        lemma_prefix_len_is(rest, keep, (n - 1) as nat);
    }
}

/// The characters of `s`, in order.
pub fn chars_of(s: &str) -> (chars: Vec<char>)
    ensures
        chars@ == s@,
{
    let mut chars: Vec<char> = Vec::new();
    for c in it: s.chars()
        invariant
            it.seq() == s@,
            chars@ == it.seq().take(it.index()),
    {
        chars.push(c);
        assert(it.seq().take(it.index() + 1) =~= it.seq().take(it.index()).push(c));
    }
    assert(s@.take(s@.len() as int) =~= s@);
    chars
}

/// Whether `c` occurs in `chars`.
pub fn has_char(chars: &[char], c: char) -> (found: bool)
    ensures
        found == chars@.contains(c),
{
    let mut i: usize = 0;
    while i < chars.len()
        invariant
            i <= chars@.len(),
            forall|k: int| 0 <= k < i ==> chars@[k] != c,
        decreases chars@.len() - i,
    {
        if chars[i] == c {
            return true;
        }
        i = i + 1;
    }
    false
}

} // verus!
