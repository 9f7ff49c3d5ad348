//! What a directory listing shows: the names that are not hidden, in order.

use vstd::prelude::*;
use vstd::seq_lib::to_multiset_build;

verus! {

/// How to list.
#[derive(Clone, Copy, Debug, PartialEq, Eq, Structural)]
pub struct Config {
    /// Whether names that start with a dot are listed too.
    pub include_dot_files: bool,
}

/// Whether a name is hidden: it starts with a dot.
pub open spec fn is_hidden(name: Seq<char>) -> bool {
    name.len() > 0 && name[0] == '.'
}

/// Whether a name is listed: it is not hidden, or hidden names are asked for.
pub open spec fn spec_is_listed(name: Seq<char>, include_dot_files: bool) -> bool {
    !is_hidden(name) || include_dot_files
}

/// The names of `names` that are listed, in the order in which they stand.
pub open spec fn listed(names: Seq<Seq<char>>, include_dot_files: bool) -> Seq<Seq<char>>
    decreases names.len(),
{
    if names.len() == 0 {
        Seq::empty()
    } else if spec_is_listed(names.last(), include_dot_files) {
        listed(names.drop_last(), include_dot_files).push(names.last())
    } else {
        listed(names.drop_last(), include_dot_files)
    }
}

/// The order of strings: `a` stands before `b` or is `b`. Strings are compared
/// character by character, by code point, and a prefix stands before what it
/// is a prefix of.
pub open spec fn lex_le(a: Seq<char>, b: Seq<char>) -> bool
    decreases a.len(),
{
    if a.len() == 0 {
        true
    } else if b.len() == 0 {
        false
    } else if a[0] != b[0] {
        a[0] < b[0]
    } else {
        lex_le(a.drop_first(), b.drop_first())
    }
}

/// Whether each name stands before the names after it.
pub open spec fn sorted(names: Seq<Seq<char>>) -> bool {
    forall|i: int, j: int| 0 <= i <= j < names.len() ==> lex_le(names[i], names[j])
}

/// The names as character sequences.
pub open spec fn views(names: Seq<String>) -> Seq<Seq<char>> {
    names.map_values(|name: String| name@)
}

/// Where hidden names are asked for, every name is listed.
pub proof fn lemma_listed_with_hidden(names: Seq<Seq<char>>)
    ensures
        listed(names, true) == names,
    decreases names.len(),
{
    if names.len() > 0 {
        lemma_listed_with_hidden(names.drop_last());
        assert(names.drop_last().push(names.last()) =~= names);
    } else {
        assert(listed(names, true) =~= names);
    }
}

/// Where hidden names are not asked for, the names that are listed are those
/// that are not hidden: each of them as often as it occurs, and no other.
pub proof fn lemma_listed_without_hidden(names: Seq<Seq<char>>)
    ensures
        forall|i: int|
            0 <= i < listed(names, false).len() ==> !is_hidden(#[trigger] listed(names, false)[i]),
        forall|name: Seq<char>| #[trigger]
            listed(names, false).to_multiset().count(name) == if is_hidden(name) {
                0
            } else {
                names.to_multiset().count(name)
            },
    decreases names.len(),
{
    if names.len() > 0 {
        let front = names.drop_last();
        let last = names.last();
        let shown = listed(names, false);
        lemma_listed_without_hidden(front);
        assert(front.push(last) =~= names);
        to_multiset_build(front, last);
        assert(names.to_multiset() == front.to_multiset().insert(last));
        if is_hidden(last) {
            assert(shown == listed(front, false));
        } else {
            assert(shown == listed(front, false).push(last));
            to_multiset_build(listed(front, false), last);
            assert(shown.to_multiset() == listed(front, false).to_multiset().insert(last));
            assert forall|i: int| 0 <= i < shown.len() implies !is_hidden(#[trigger] shown[i]) by {
                if i < shown.len() - 1 {
                    assert(shown[i] == listed(front, false)[i]);
                }
            }
        }
        assert forall|name: Seq<char>| #[trigger]
            shown.to_multiset().count(name) == if is_hidden(name) {
                0
            } else {
                names.to_multiset().count(name)
            } by {
            let kept = listed(front, false).to_multiset().count(name);
            assert(kept == if is_hidden(name) {
                0
            } else {
                front.to_multiset().count(name)
            });
        }
    } else {
        assert(listed(names, false) =~= names);
        names.to_multiset_ensures();
        assert forall|name: Seq<char>| #[trigger] names.to_multiset().count(name) == 0 by {
            assert(!names.contains(name));
        }
    }
}

/// Whether `name` is listed.
pub fn is_listed(name: &str, include_dot_files: bool) -> (shown: bool)
    ensures
        shown == spec_is_listed(name@, include_dot_files),
{
    include_dot_files || name.is_empty() || name.get_char(0) != '.'
}

/// Sorts the names with `sort` of std's slices. Afterwards the vector holds the
/// names it held before, each as often as before, in the order of std's
/// strings, which is that of their code points.
#[verifier::external_body]
fn sort_names(names: &mut Vec<String>)
    ensures
        views(final(names)@).to_multiset() == views(old(names)@).to_multiset(),
        sorted(views(final(names)@)),
{
    names.sort();
}

/// The listing of a directory whose entries have the names `entries`: the
/// names that are listed, sorted.
pub fn list_dir(entries: &[String], config: &Config) -> (names: Vec<String>)
    ensures
        views(names@).to_multiset() == listed(views(entries@), config.include_dot_files).to_multiset(),
        sorted(views(names@)),
{
    let mut names: Vec<String> = Vec::new();
    let mut i: usize = 0;
    assert(views(entries@).take(0) =~= Seq::<Seq<char>>::empty());
    assert(views(names@) =~= Seq::<Seq<char>>::empty());
    while i < entries.len()
        invariant
            i <= entries@.len(),
            views(names@) == listed(views(entries@).take(i as int), config.include_dot_files),
        decreases entries@.len() - i,
    {
        let ghost before = views(names@);
        proof {
            let upto = views(entries@).take(i + 1);
            assert(upto.drop_last() =~= views(entries@).take(i as int));
            assert(upto.last() == entries@[i as int]@);
        }
        if is_listed(entries[i].as_str(), config.include_dot_files) {
            names.push(entries[i].clone());
            assert(views(names@) =~= before.push(entries@[i as int]@));
        }
        i = i + 1;
    }
    assert(views(entries@).take(i as int) =~= views(entries@));
    sort_names(&mut names);
    names
}

} // verus!
