//! The 64-symbol alphabet and its two lookups.
//!
//! The alphabet is the ordered sequence `A`..`Z`, `a`..`z`, `0`..`9`, `+`, `/`.
//! A sextet (a value in `0..64`) is the position of its symbol in that sequence.
//! The forward lookup goes from sextet to symbol, the reverse lookup from symbol
//! to sextet; `lemma_reverse_of_forward` and `lemma_forward_of_reverse` show that
//! the two agree exactly.

use vstd::prelude::*;

verus! {

/// Number of symbols in the alphabet.
pub const ALPHABET_LEN: u8 = 64;

/// The pad symbol `=`. It marks absent trailing bytes and is not one of the 64 symbols.
pub const PAD: u8 = 0x3d;

/// ASCII `A`, the symbol of sextet 0.
pub const UPPER_A: u8 = 0x41;

/// ASCII `a`, the symbol of sextet 26.
pub const LOWER_A: u8 = 0x61;

/// ASCII `0`, the symbol of sextet 52.
pub const DIGIT_0: u8 = 0x30;

/// ASCII `+`, the symbol of sextet 62.
pub const PLUS: u8 = 0x2b;

/// ASCII `/`, the symbol of sextet 63.
pub const SLASH: u8 = 0x2f;

/// Signal of the reverse lookup: the symbol is not one of the 64.
#[derive(Clone, Copy, Debug, PartialEq, Eq, Structural)]
pub struct NotInAlphabet;

/// The symbol at position `index` of the alphabet, for `0 <= index < 64`.
pub open spec fn spec_symbol_of(index: int) -> u8 {
    if index < 26 {
        (UPPER_A + index) as u8
    } else if index < 52 {
        (LOWER_A + (index - 26)) as u8
    } else if index < 62 {
        (DIGIT_0 + (index - 52)) as u8
    } else if index == 62 {
        PLUS
    } else {
        SLASH
    }
}

/// The position of `symbol` in the alphabet, or `None` where it is not in it.
pub open spec fn spec_index_of(symbol: u8) -> Option<u8> {
    if UPPER_A <= symbol < UPPER_A + 26 {
        Some((symbol - UPPER_A) as u8)
    } else if LOWER_A <= symbol < LOWER_A + 26 {
        Some((symbol - LOWER_A + 26) as u8)
    } else if DIGIT_0 <= symbol < DIGIT_0 + 10 {
        Some((symbol - DIGIT_0 + 52) as u8)
    } else if symbol == PLUS {
        Some(62u8)
    } else if symbol == SLASH {
        Some(63u8)
    } else {
        None
    }
}

/// Whether `symbol` is one of the 64 symbols.
pub open spec fn in_alphabet(symbol: u8) -> bool {
    spec_index_of(symbol) is Some
}

/// Forward lookup: the symbol of a sextet.
pub fn symbol_of(index: u8) -> (symbol: u8)
    requires
        index < ALPHABET_LEN,
    ensures
        symbol == spec_symbol_of(index as int),
        spec_index_of(symbol) == Some(index),
{
    if index < 26 {
        UPPER_A + index
    } else if index < 52 {
        LOWER_A + (index - 26)
    } else if index < 62 {
        DIGIT_0 + (index - 52)
    } else if index == 62 {
        PLUS
    } else {
        SLASH
    }
}

/// Reverse lookup: the sextet of a symbol, or `NotInAlphabet` for any other byte,
/// the pad symbol included.
pub fn index_of(symbol: u8) -> (res: Result<u8, NotInAlphabet>)
    ensures
        match res {
            Ok(index) => index < ALPHABET_LEN && spec_symbol_of(index as int) == symbol
                && spec_index_of(symbol) == Some(index),
            Err(_) => !in_alphabet(symbol) && forall|i: int|
                0 <= i < ALPHABET_LEN ==> spec_symbol_of(i) != symbol,
        },
{
    if UPPER_A <= symbol && symbol < UPPER_A + 26 {
        Ok(symbol - UPPER_A)
    } else if LOWER_A <= symbol && symbol < LOWER_A + 26 {
        Ok(symbol - LOWER_A + 26)
    } else if DIGIT_0 <= symbol && symbol < DIGIT_0 + 10 {
        Ok(symbol - DIGIT_0 + 52)
    } else if symbol == PLUS {
        Ok(62)
    } else if symbol == SLASH {
        Ok(63)
    } else {
        Err(NotInAlphabet)
    }
}

/// The reverse lookup undoes the forward lookup: every sextet is found again
/// under its own symbol. Hence the 64 symbols are pairwise distinct.
pub proof fn lemma_reverse_of_forward(index: int)
    requires
        0 <= index < ALPHABET_LEN,
    ensures
        spec_index_of(spec_symbol_of(index)) == Some(index as u8),
{
}

/// The forward lookup undoes the reverse lookup: a symbol that is found lies in
/// the table at the position that the reverse lookup gives.
pub proof fn lemma_forward_of_reverse(symbol: u8)
    requires
        in_alphabet(symbol),
    ensures
        spec_index_of(symbol)->Some_0 < ALPHABET_LEN,
        spec_symbol_of(spec_index_of(symbol)->Some_0 as int) == symbol,
{
}

/// Looking a symbol of the table up and back again gives the same symbol.
pub proof fn lemma_lookup_idempotent(index: int)
    requires
        0 <= index < ALPHABET_LEN,
    ensures
        in_alphabet(spec_symbol_of(index)),
        spec_symbol_of(spec_index_of(spec_symbol_of(index))->Some_0 as int) == spec_symbol_of(
            index,
        ),
{
}

/// Two different sextets have different symbols.
pub proof fn lemma_symbols_distinct(i: int, j: int)
    requires
        0 <= i < ALPHABET_LEN,
        0 <= j < ALPHABET_LEN,
        i != j,
    ensures
        spec_symbol_of(i) != spec_symbol_of(j),
{
}

/// The pad symbol is not in the alphabet.
pub proof fn lemma_pad_not_in_alphabet()
    ensures
        !in_alphabet(PAD),
        forall|i: int| 0 <= i < ALPHABET_LEN ==> spec_symbol_of(i) != PAD,
{
}

} // verus!
