//! Symbolic notation: clauses such as `u+rw`, `g-x` or `a=r`, separated by commas.
//!
//! A clause names whose bits it touches (any of `u`, `g`, `o`, `a`; all of
//! them where it names none), then one operation (`+`, `-` or `=`), then the
//! permissions (any of `r`, `w`, `x`). Clauses are applied from left to right.

use vstd::prelude::*;
use vstd::slice::slice_subrange;
use crate::chmod::text::{lemma_prefix_len_is, prefix_len};

verus! {

/// The bits of the owner.
pub const USER_BITS: u32 = 0o700;

/// The bits of the group.
pub const GROUP_BITS: u32 = 0o070;

/// The bits of everyone else.
pub const OTHER_BITS: u32 = 0o007;

/// The bits of all three.
pub const ALL_BITS: u32 = 0o777;

/// The read bit of all three.
pub const READ_BITS: u32 = 0o444;

/// The write bit of all three.
pub const WRITE_BITS: u32 = 0o222;

/// The execute bit of all three.
pub const EXECUTE_BITS: u32 = 0o111;

/// Why a string is not a mode.
#[derive(Clone, Copy, Debug, PartialEq, Eq)]
pub enum ModeError {
    /// A clause has, where its operation should stand, a character that is none of `+`, `-`, `=`.
    InvalidOperation,
    /// A clause ends where its operation should stand.
    InvalidFormat,
    /// A clause has this character among its permissions, which is none of `r`, `w`, `x`.
    InvalidPermission(char),
    /// The string starts with `0`, and what follows is not an octal number of 32 bits.
    InvalidOctal,
    /// The string is not an octal number of 32 bits.
    InvalidMode,
}

/// Whether `c` names whose bits a clause touches.
pub open spec fn is_who(c: char) -> bool {
    c == 'u' || c == 'g' || c == 'o' || c == 'a'
}

/// Whether `c` is an operation.
pub open spec fn is_operation(c: char) -> bool {
    c == '+' || c == '-' || c == '='
}

/// Whether `c` names a permission.
pub open spec fn is_permission(c: char) -> bool {
    c == 'r' || c == 'w' || c == 'x'
}

/// Whether `c` belongs to a clause, that is, does not separate two.
pub open spec fn in_clause(c: char) -> bool {
    c != ','
}

/// The characters that name whose bits a clause touches.
pub open spec fn who_chars() -> spec_fn(char) -> bool {
    |c: char| is_who(c)
}

/// The characters that name permissions.
pub open spec fn permission_chars() -> spec_fn(char) -> bool {
    |c: char| is_permission(c)
}

/// The characters of a clause.
pub open spec fn clause_chars() -> spec_fn(char) -> bool {
    |c: char| in_clause(c)
}

/// The bits that one character of the first part of a clause selects.
pub open spec fn who_bits(c: char) -> u32 {
    if c == 'u' {
        USER_BITS
    } else if c == 'g' {
        GROUP_BITS
    } else if c == 'o' {
        OTHER_BITS
    } else if c == 'a' {
        ALL_BITS
    } else {
        0
    }
}

/// The bits that one permission character stands for, for all three classes.
pub open spec fn permission_bits(c: char) -> u32 {
    if c == 'r' {
        READ_BITS
    } else if c == 'w' {
        WRITE_BITS
    } else if c == 'x' {
        EXECUTE_BITS
    } else {
        0
    }
}

/// The bits that the characters of `chars` select together.
pub open spec fn who_mask(chars: Seq<char>) -> u32
    decreases chars.len(),
{
    if chars.len() == 0 {
        0
    } else {
        who_mask(chars.drop_last()) | who_bits(chars.last())
    }
}

/// The permissions that `chars` name, within the bits of `who`.
pub open spec fn permission_mask(chars: Seq<char>, who: u32) -> u32
    decreases chars.len(),
{
    if chars.len() == 0 {
        0
    } else {
        permission_mask(chars.drop_last(), who) | (permission_bits(chars.last()) & who)
    }
}

/// The mode after one operation: `+` sets the permissions, `-` clears them, and
/// `=` clears all bits of `who` and then sets the permissions.
pub open spec fn apply_operation(mode: u32, operation: char, who: u32, permissions: u32) -> u32 {
    if operation == '+' {
        mode | permissions
    } else if operation == '-' {
        mode & !permissions
    } else {
        (mode & !who) | permissions
    }
}

/// The mode after one clause, or what is wrong with the clause.
pub open spec fn spec_apply_clause(mode: u32, clause: Seq<char>) -> Result<u32, ModeError> {
    let who_len = prefix_len(clause, who_chars()) as int;
    let named = who_mask(clause.take(who_len));
    let who = if named == 0 {
        ALL_BITS
    } else {
        named
    };
    if who_len == clause.len() {
        Err(ModeError::InvalidFormat)
    } else if !is_operation(clause[who_len]) {
        Err(ModeError::InvalidOperation)
    } else {
        let permissions = clause.skip(who_len + 1);
        let good = prefix_len(permissions, permission_chars()) as int;
        if good < permissions.len() {
            Err(ModeError::InvalidPermission(permissions[good]))
        } else {
            Ok(apply_operation(mode, clause[who_len], who, permission_mask(permissions, who)))
        }
    }
}

/// The mode after the clauses of `s`, applied in order to `mode`, or what is
/// wrong with the first clause that is wrong.
pub open spec fn spec_apply_clauses(mode: u32, s: Seq<char>) -> Result<u32, ModeError>
    decreases s.len(),
{
    let n = prefix_len(s, clause_chars()) as int;
    match spec_apply_clause(mode, s.take(n)) {
        Err(e) => Err(e),
        Ok(next) => if n >= s.len() {
            Ok(next)
        } else {
            spec_apply_clauses(next, s.skip(n + 1))
        },
    }
}

/// Applies one clause to `mode`.
pub fn apply_clause(mode: u32, clause: &[char]) -> (res: Result<u32, ModeError>)
    ensures
        res == spec_apply_clause(mode, clause@),
{
    let mut named: u32 = 0;
    let mut i: usize = 0;
    while i < clause.len() && (clause[i] == 'u' || clause[i] == 'g' || clause[i] == 'o'
        || clause[i] == 'a')
        invariant
            i <= clause@.len(),
            forall|k: int| 0 <= k < i ==> is_who(#[trigger] clause@[k]),
            named == who_mask(clause@.take(i as int)),
        decreases clause@.len() - i,
    {
        let c: char = clause[i];
        proof {
            assert(clause@.take(i + 1).drop_last() =~= clause@.take(i as int));
            assert(clause@.take(i + 1).last() == c);
        }
        if c == 'u' {
            named = named | USER_BITS;
        } else if c == 'g' {
            named = named | GROUP_BITS;
        } else if c == 'o' {
            named = named | OTHER_BITS;
        } else {
            named = named | ALL_BITS;
        }
        i = i + 1;
    }
    proof {
        assert forall|k: int| 0 <= k < i implies who_chars()(#[trigger] clause@[k]) by {
            assert(is_who(clause@[k]));
        }
        lemma_prefix_len_is(clause@, who_chars(), i as nat);
    }
    let who: u32 = if named == 0 { ALL_BITS } else { named };
    if i == clause.len() {
        return Err(ModeError::InvalidFormat);
    }
    let operation: char = clause[i];
    if !(operation == '+' || operation == '-' || operation == '=') {
        return Err(ModeError::InvalidOperation);
    }
    let first: usize = i + 1;
    let ghost wanted = clause@.skip(first as int);
    let mut permissions: u32 = 0;
    let mut j: usize = first;
    while j < clause.len()
        invariant
            1 <= first <= j <= clause@.len(),
            prefix_len(clause@, who_chars()) == first - 1,
            is_operation(clause@[first - 1]),
            wanted == clause@.skip(first as int),
            forall|k: int| 0 <= k < j - first ==> is_permission(#[trigger] wanted[k]),
            permissions == permission_mask(wanted.take(j - first), who),
        decreases clause@.len() - j,
    {
        let c: char = clause[j];
        proof {
            assert(wanted[j - first] == c);
            assert(wanted.take(j - first + 1).drop_last() =~= wanted.take(j - first));
            assert(wanted.take(j - first + 1).last() == c);
        }
        if c == 'r' {
            permissions = permissions | (READ_BITS & who);
        } else if c == 'w' {
            permissions = permissions | (WRITE_BITS & who);
        } else if c == 'x' {
            permissions = permissions | (EXECUTE_BITS & who);
        } else {
            proof {
                assert forall|k: int| 0 <= k < j - first implies permission_chars()(
                    #[trigger] wanted[k],
                ) by {
                    assert(is_permission(wanted[k]));
                }
                lemma_prefix_len_is(wanted, permission_chars(), (j - first) as nat);
            }
            return Err(ModeError::InvalidPermission(c));
        }
        j = j + 1;
    }
    proof {
        assert forall|k: int| 0 <= k < wanted.len() implies permission_chars()(
            #[trigger] wanted[k],
        ) by {
            assert(is_permission(wanted[k]));
        }
        lemma_prefix_len_is(wanted, permission_chars(), wanted.len());
        assert(wanted.take(wanted.len() as int) =~= wanted);
    }
    if operation == '+' {
        Ok(mode | permissions)
    } else if operation == '-' {
        Ok(mode & !permissions)
    } else {
        Ok((mode & !who) | permissions)
    }
}

/// Applies the clauses of `chars`, from left to right, to `mode`.
pub fn apply_clauses(mode: u32, chars: &[char]) -> (res: Result<u32, ModeError>)
    ensures
        res == spec_apply_clauses(mode, chars@),
{
    let mut current: u32 = mode;
    let mut start: usize = 0;
    proof {
        assert(chars@.skip(0) =~= chars@);
    }
    loop
        invariant
            start <= chars@.len(),
            spec_apply_clauses(mode, chars@) == spec_apply_clauses(
                current,
                chars@.skip(start as int),
            ),
        decreases chars@.len() - start,
    {
        let ghost rest = chars@.skip(start as int);
        let mut end: usize = start;
        while end < chars.len() && chars[end] != ','
            invariant
                start <= end <= chars@.len(),
                forall|k: int| start <= k < end ==> in_clause(#[trigger] chars@[k]),
            decreases chars@.len() - end,
        {
            end = end + 1;
        }
        proof {
            assert forall|k: int| 0 <= k < end - start implies clause_chars()(
                #[trigger] rest[k],
            ) by {
                assert(in_clause(chars@[start + k]));
            }
            lemma_prefix_len_is(rest, clause_chars(), (end - start) as nat);
        }
        let clause = slice_subrange(chars, start, end);
        assert(clause@ =~= rest.take(end - start));
        match apply_clause(current, clause) {
            Err(e) => {
                return Err(e);
            },
            Ok(next) => {
                if end >= chars.len() {
                    return Ok(next);
                }
                assert(rest.skip(end - start + 1) =~= chars@.skip(end + 1));
                current = next;
                start = end + 1;
            },
        }
    }
}

/// The bits of the classes among owner, group and others that are named.
pub open spec fn class_bits(user: bool, group: bool, other: bool) -> u32 {
    (if user {
        USER_BITS
    } else {
        0
    }) | (if group {
        GROUP_BITS
    } else {
        0
    }) | (if other {
        OTHER_BITS
    } else {
        0
    })
}

/// The bits, in all three classes, of the permissions among read, write and
/// execute that are named.
pub open spec fn kind_bits(read: bool, write: bool, execute: bool) -> u32 {
    (if read {
        READ_BITS
    } else {
        0
    }) | (if write {
        WRITE_BITS
    } else {
        0
    }) | (if execute {
        EXECUTE_BITS
    } else {
        0
    })
}

/// What the first part of a clause selects depends only on which letters occur
/// in it: the bits of the owner for `u`, of the group for `g`, of the others
/// for `o`, and of all three for `a`.
pub proof fn lemma_who_mask(chars: Seq<char>)
    ensures
        who_mask(chars) == class_bits(
            chars.contains('u') || chars.contains('a'),
            chars.contains('g') || chars.contains('a'),
            chars.contains('o') || chars.contains('a'),
        ),
    decreases chars.len(),
{
    if chars.len() == 0 {
        assert(class_bits(false, false, false) == 0) by (bit_vector);
    } else {
        let front = chars.drop_last();
        let last = chars.last();
        lemma_who_mask(front);
        assert(chars =~= front.push(last));
        assert forall|c: char| chars.contains(c) <==> front.contains(c) || c == last by {
            if front.contains(c) {
                let i = choose|i: int| 0 <= i < front.len() && front[i] == c;
                assert(chars[i] == c);
            }
            if c == last {
                assert(chars[chars.len() - 1] == c);
            }
        }
        let u = front.contains('u') || front.contains('a');
        let g = front.contains('g') || front.contains('a');
        let o = front.contains('o') || front.contains('a');
        let sofar = who_mask(front);
        assert(sofar | 0o700 == class_bits(true, g, o) && sofar | 0o070 == class_bits(u, true, o)
            && sofar | 0o007 == class_bits(u, g, true) && sofar | 0o777 == class_bits(
            true,
            true,
            true,
        ) && sofar | 0 == sofar) by (bit_vector)
            requires
                sofar == class_bits(u, g, o),
        ;
    }
}

/// The permissions that a clause names depend only on which letters occur in
/// them: within the bits of `who`, the read bits for `r`, the write bits for
/// `w` and the execute bits for `x`.
pub proof fn lemma_permission_mask(chars: Seq<char>, who: u32)
    ensures
        permission_mask(chars, who) == kind_bits(
            chars.contains('r'),
            chars.contains('w'),
            chars.contains('x'),
        ) & who,
    decreases chars.len(),
{
    if chars.len() == 0 {
        assert(kind_bits(false, false, false) & who == 0) by (bit_vector);
    } else {
        let front = chars.drop_last();
        let last = chars.last();
        lemma_permission_mask(front, who);
        assert(chars =~= front.push(last));
        assert forall|c: char| chars.contains(c) <==> front.contains(c) || c == last by {
            if front.contains(c) {
                let i = choose|i: int| 0 <= i < front.len() && front[i] == c;
                assert(chars[i] == c);
            }
            if c == last {
                assert(chars[chars.len() - 1] == c);
            }
        }
        let r = front.contains('r');
        let w = front.contains('w');
        let x = front.contains('x');
        let sofar = permission_mask(front, who);
        assert(sofar | (0o444 & who) == kind_bits(true, w, x) & who && sofar | (0o222 & who)
            == kind_bits(r, true, x) & who && sofar | (0o111 & who) == kind_bits(r, w, true) & who
            && sofar | (0 & who) == sofar) by (bit_vector)
            requires
                sofar == kind_bits(r, w, x) & who,
        ;
    }
}

/// The permissions that a clause names lie within the nine permission bits.
pub proof fn lemma_permission_mask_bits(chars: Seq<char>, who: u32)
    ensures
        permission_mask(chars, who) <= ALL_BITS,
    decreases chars.len(),
{
    if chars.len() > 0 {
        lemma_permission_mask_bits(chars.drop_last(), who);
        let sofar = permission_mask(chars.drop_last(), who);
        let bits = permission_bits(chars.last());
        assert(sofar | (bits & who) <= 0o777) by (bit_vector)
            requires
                sofar <= 0o777,
                bits == 0o444 || bits == 0o222 || bits == 0o111 || bits == 0,
        ;
    }
}

/// A clause leaves a mode within the nine permission bits where it finds it there.
pub proof fn lemma_clause_keeps_permission_bits(mode: u32, clause: Seq<char>)
    requires
        mode <= ALL_BITS,
    ensures
        spec_apply_clause(mode, clause) matches Ok(next) ==> next <= ALL_BITS,
{
    if let Ok(next) = spec_apply_clause(mode, clause) {
        let who_len = prefix_len(clause, who_chars()) as int;
        let named = who_mask(clause.take(who_len));
        let who = if named == 0 {
            ALL_BITS
        } else {
            named
        };
        let permissions = permission_mask(clause.skip(who_len + 1), who);
        lemma_permission_mask_bits(clause.skip(who_len + 1), who);
        assert(mode | permissions <= 0o777 && mode & !permissions <= 0o777 && (mode & !who)
            | permissions <= 0o777) by (bit_vector)
            requires
                mode <= 0o777,
                permissions <= 0o777,
        ;
    }
}

/// Symbolic clauses leave a mode within the nine permission bits where they
/// find it there, as they do the two modes that they start from.
pub proof fn lemma_clauses_keep_permission_bits(mode: u32, s: Seq<char>)
    requires
        mode <= ALL_BITS,
    ensures
        spec_apply_clauses(mode, s) matches Ok(last) ==> last <= ALL_BITS,
    decreases s.len(),
{
    let n = prefix_len(s, clause_chars()) as int;
    lemma_clause_keeps_permission_bits(mode, s.take(n));
    if let Ok(next) = spec_apply_clause(mode, s.take(n)) {
        if n < s.len() {
            lemma_clauses_keep_permission_bits(next, s.skip(n + 1));
        }
    }
}

} // verus!
