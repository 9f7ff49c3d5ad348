//! A mode from its notation, octal or symbolic.

use vstd::prelude::*;
use vstd::slice::slice_subrange;
use crate::chmod::octal::{parse_octal, spec_parse_octal};
use crate::chmod::symbolic::{
    apply_clauses, lemma_clauses_keep_permission_bits, spec_apply_clauses, ModeError, ALL_BITS,
};
use crate::chmod::text::{chars_of, has_char};

verus! {

/// The mode that symbolic clauses start from where none of them assigns with `=`.
pub const DEFAULT_MODE: u32 = 0o666;

/// Whether `s` is in symbolic notation: it holds one of `+`, `-`, `=`.
pub open spec fn is_symbolic(s: Seq<char>) -> bool {
    s.contains('+') || s.contains('-') || s.contains('=')
}

/// The mode that the clauses of `s` are applied to: no bits where a `=` occurs
/// in `s`, else read and write for all.
pub open spec fn initial_mode(s: Seq<char>) -> u32 {
    if s.contains('=') {
        0
    } else {
        DEFAULT_MODE
    }
}

/// The mode that `s` denotes, or why it denotes none.
///
/// A string with one of `+`, `-`, `=` in it is a list of symbolic clauses. Any
/// other is an octal number, before which one `0` may stand; that `0` is not
/// part of the number, so `0` alone denotes nothing.
pub open spec fn spec_parse_mode(s: Seq<char>) -> Result<u32, ModeError> {
    if is_symbolic(s) {
        spec_apply_clauses(initial_mode(s), s)
    } else if s.len() > 0 && s[0] == '0' {
        match spec_parse_octal(s.skip(1)) {
            Some(mode) => Ok(mode),
            None => Err(ModeError::InvalidOctal),
        }
    } else {
        match spec_parse_octal(s) {
            Some(mode) => Ok(mode),
            None => Err(ModeError::InvalidMode),
        }
    }
}

/// Reads a mode in octal or symbolic notation.
///
/// A mode in symbolic notation has none but the nine permission bits.
pub fn parse_mode(mode_str: &str) -> (res: Result<u32, ModeError>)
    ensures
        res == spec_parse_mode(mode_str@),
        is_symbolic(mode_str@) ==> (res matches Ok(mode) ==> mode <= ALL_BITS),
{
    let chars = chars_of(mode_str);
    let s = chars.as_slice();
    let assigns = has_char(s, '=');
    if assigns || has_char(s, '+') || has_char(s, '-') {
        let start: u32 = if assigns { 0 } else { DEFAULT_MODE };
        proof {
            lemma_clauses_keep_permission_bits(start, s@);
        }
        return apply_clauses(start, s);
    }
    if s.len() > 0 && s[0] == '0' {
        let digits = slice_subrange(s, 1, s.len());
        assert(digits@ =~= mode_str@.skip(1));
        return match parse_octal(digits) {
            Some(mode) => Ok(mode),
            None => Err(ModeError::InvalidOctal),
        };
    }
    match parse_octal(s) {
        Some(mode) => Ok(mode),
        None => Err(ModeError::InvalidMode),
    }
}

} // verus!
