//! Decoding: symbols to bytes, a group of four symbols to at most three bytes.

use vstd::prelude::*;
use vstd::slice::slice_subrange;
use crate::base64::alphabet::{in_alphabet, index_of, spec_index_of, ALPHABET_LEN, PAD};

verus! {

/// Why an input has no decoding.
#[derive(Clone, Copy, Debug, PartialEq, Eq, Structural)]
pub enum DecodeError {
    /// The number of symbols is not a multiple of four.
    MalformedLength,
    /// A symbol is neither in the alphabet nor a pad symbol, or a pad symbol
    /// stands before a data symbol of its group.
    InvalidSymbol,
}

impl DecodeError {
    /// What to tell a user.
    pub open spec fn spec_message(self) -> Seq<char> {
        match self {
            DecodeError::MalformedLength => "Input length is not a multiple of 4"@,
            DecodeError::InvalidSymbol => "invalid input"@,
        }
    }

    /// What to tell a user.
    pub fn message(&self) -> (text: &'static str)
        ensures
            text@ == self.spec_message(),
    {
        match self {
            DecodeError::MalformedLength => "Input length is not a multiple of 4",
            DecodeError::InvalidSymbol => "invalid input",
        }
    }
}

/// A sextet moved to its place in the accumulator: sextet `j` goes to bit offset `18 - 6 * j`.
pub open spec fn place(value: u8, j: int) -> u32 {
    (value as u32) << ((18 - 6 * j) as u32)
}

/// Byte `k` of an accumulator: its eight bits at offset `16 - 8 * k`.
pub open spec fn byte_of(acc: u32, k: int) -> u8 {
    ((acc >> ((16 - 8 * k) as u32)) & 0xff) as u8
}

/// What a symbol adds to the accumulator: its sextet, or nothing for a pad symbol.
pub open spec fn sextet_value(symbol: u8) -> u8 {
    match spec_index_of(symbol) {
        Some(value) => value,
        None => 0,
    }
}

/// One for the pad symbol, zero for any other.
pub open spec fn pad_weight(symbol: u8) -> int {
    if symbol == PAD {
        1
    } else {
        0
    }
}

/// How many of the four symbols of a group are pad symbols.
pub open spec fn pad_count(group: Seq<u8>) -> int {
    pad_weight(group[0]) + pad_weight(group[1]) + pad_weight(group[2]) + pad_weight(group[3])
}

/// A group can be decoded: it has four symbols, its pad symbols are its last
/// symbols, and every other symbol is in the alphabet.
pub open spec fn group_valid(group: Seq<u8>) -> bool {
    &&& group.len() == 4
    &&& forall|j: int|
        0 <= j < 4 ==> if #[trigger] group[j] == PAD {
            j >= 4 - pad_count(group)
        } else {
            in_alphabet(group[j])
        }
}

/// The accumulator of a group of four symbols.
pub open spec fn group_bits(group: Seq<u8>) -> u32 {
    place(sextet_value(group[0]), 0) | place(sextet_value(group[1]), 1) | place(
        sextet_value(group[2]),
        2,
    ) | place(sextet_value(group[3]), 3)
}

/// Number of bytes that a group stands for: three less its pad symbols, and never less than none.
pub open spec fn decoded_len(group: Seq<u8>) -> nat {
    if pad_count(group) >= 3 {
        0
    } else {
        (3 - pad_count(group)) as nat
    }
}

/// The bytes of a valid group.
pub open spec fn spec_decode_group(group: Seq<u8>) -> Seq<u8> {
    Seq::new(decoded_len(group), |k: int| byte_of(group_bits(group), k))
}

/// Group `g` of a symbol sequence.
pub open spec fn group_at(symbols: Seq<u8>, g: int) -> Seq<u8> {
    symbols.subrange(4 * g, 4 * g + 4)
}

/// Every complete group of the sequence is valid.
pub open spec fn all_groups_valid(symbols: Seq<u8>) -> bool {
    forall|g: int| 0 <= g && 4 * g + 4 <= symbols.len() ==> group_valid(#[trigger] group_at(symbols, g))
}

/// The sequence has a decoding: it is made of valid groups of four.
pub open spec fn well_formed(symbols: Seq<u8>) -> bool {
    symbols.len() % 4 == 0 && all_groups_valid(symbols)
}

/// The decoding of a well-formed symbol sequence: the bytes of its groups, in order.
pub open spec fn spec_decode(symbols: Seq<u8>) -> Seq<u8>
    decreases symbols.len(),
{
    if symbols.len() < 4 {
        Seq::empty()
    } else {
        spec_decode_group(symbols.take(4)) + spec_decode(symbols.skip(4))
    }
}

/// The sextet of a data symbol, zero for a pad symbol.
fn symbol_value(symbol: u8) -> (res: Result<u8, DecodeError>)
    ensures
        match res {
            Ok(value) => value == sextet_value(symbol) && value < ALPHABET_LEN && (symbol == PAD
                || in_alphabet(symbol)),
            Err(e) => e == DecodeError::InvalidSymbol && symbol != PAD && !in_alphabet(symbol),
        },
{
    if symbol == PAD {
        Ok(0)
    } else {
        match index_of(symbol) {
            Ok(value) => Ok(value),
            Err(_) => Err(DecodeError::InvalidSymbol),
        }
    }
}

/// A sextet moved to its place in the accumulator.
fn place_at(value: u8, j: u32) -> (bits: u32)
    requires
        j < 4,
    ensures
        bits == place(value, j as int),
{
    (value as u32) << (18 - 6 * j)
}

/// Byte `k` of an accumulator.
fn byte_at(acc: u32, k: u32) -> (byte: u8)
    requires
        k < 3,
    ensures
        byte == byte_of(acc, k as int),
{
    let shift: u32 = 16 - 8 * k;
    let bits: u32 = (acc >> shift) & 0xff;
    assert(bits < 256) by (bit_vector)
        requires
            bits == (acc >> shift) & 0xff,
    ;
    bits as u8
}

/// One if the symbol is the pad symbol, else zero.
fn pad_weight_of(symbol: u8) -> (weight: usize)
    ensures
        weight == pad_weight(symbol),
{
    if symbol == PAD {
        1
    } else {
        0
    }
}

/// Appends to `out` the bytes of a group of four symbols, or leaves `out` as it
/// is where the group cannot be decoded.
pub fn decode_group(group: &[u8], out: &mut Vec<u8>) -> (res: Result<(), DecodeError>)
    ensures
        match res {
            Ok(_) => group_valid(group@) && final(out)@ == old(out)@ + spec_decode_group(group@),
            Err(DecodeError::MalformedLength) => group@.len() != 4 && final(out)@ == old(out)@,
            Err(DecodeError::InvalidSymbol) => group@.len() == 4 && !group_valid(group@)
                && final(out)@ == old(out)@,
        },
{
    if group.len() != 4 {
        return Err(DecodeError::MalformedLength);
    }
    let c0: u8 = group[0];
    let c1: u8 = group[1];
    let c2: u8 = group[2];
    let c3: u8 = group[3];
    let v0: u8 = match symbol_value(c0) {
        Ok(value) => value,
        Err(e) => {
            return Err(e);
        },
    };
    let v1: u8 = match symbol_value(c1) {
        Ok(value) => value,
        Err(e) => {
            return Err(e);
        },
    };
    let v2: u8 = match symbol_value(c2) {
        Ok(value) => value,
        Err(e) => {
            return Err(e);
        },
    };
    let v3: u8 = match symbol_value(c3) {
        Ok(value) => value,
        Err(e) => {
            return Err(e);
        },
    };
    let pads: usize = pad_weight_of(c0) + pad_weight_of(c1) + pad_weight_of(c2) + pad_weight_of(
        c3,
    );
    if (c0 == PAD && pads < 4) || (c1 == PAD && pads < 3) || (c2 == PAD && pads < 2) {
        return Err(DecodeError::InvalidSymbol);
    }
    let acc: u32 = place_at(v0, 0) | place_at(v1, 1) | place_at(v2, 2) | place_at(v3, 3);
    if pads < 3 {
        out.push(byte_at(acc, 0));
    }
    if pads < 2 {
        out.push(byte_at(acc, 1));
    }
    if pads < 1 {
        out.push(byte_at(acc, 2));
    }
    assert(out@ =~= old(out)@ + spec_decode_group(group@));
    Ok(())
}

/// Decodes `input`.
///
/// Fails with `MalformedLength` where the number of symbols is not a multiple
/// of four, else with `InvalidSymbol` where a group is not valid; any other
/// input is decoded, the empty input to the empty output.
pub fn decode(input: &[u8]) -> (res: Result<Vec<u8>, DecodeError>)
    ensures
        match res {
            Ok(bytes) => well_formed(input@) && bytes@ == spec_decode(input@),
            Err(DecodeError::MalformedLength) => input@.len() % 4 != 0,
            Err(DecodeError::InvalidSymbol) => input@.len() % 4 == 0 && !all_groups_valid(input@),
        },
{
    if input.len() % 4 != 0 {
        return Err(DecodeError::MalformedLength);
    }
    let mut out: Vec<u8> = Vec::with_capacity((input.len() / 4) * 3);
    let mut pos: usize = 0;
    assert(input@.skip(0) =~= input@);
    while pos < input.len()
        invariant
            pos <= input@.len(),
            pos % 4 == 0,
            input@.len() % 4 == 0,
            spec_decode(input@) == out@ + spec_decode(input@.skip(pos as int)),
            forall|g: int| 0 <= g && 4 * g + 4 <= pos ==> group_valid(#[trigger] group_at(input@, g)),
        decreases input@.len() - pos,
    {
        let group = slice_subrange(input, pos, pos + 4);
        let ghost tail = input@.skip(pos as int);
        assert(group@ =~= group_at(input@, pos as int / 4));
        match decode_group(group, &mut out) {
            Ok(_) => {},
            Err(e) => {
                return Err(e);
            },
        }
        proof {
            assert(tail.take(4) =~= group@);
            assert(tail.skip(4) =~= input@.skip(pos + 4));
            assert forall|g: int| 0 <= g && 4 * g + 4 <= pos + 4 implies group_valid(
                #[trigger] group_at(input@, g),
            ) by {
                if 4 * g + 4 > pos {
                    assert(g == pos as int / 4);
                }
            }
        }
        pos = pos + 4;
    }
    assert(spec_decode(input@.skip(pos as int)) =~= Seq::<u8>::empty());
    Ok(out)
}

} // verus!
