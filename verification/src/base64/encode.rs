//! Encoding: bytes to symbols, three bytes to a group of four symbols.

use vstd::prelude::*;
use vstd::slice::slice_subrange;
use crate::base64::alphabet::{spec_symbol_of, symbol_of, ALPHABET_LEN, PAD};
use crate::base64::decode::{spec_decode, well_formed};
use crate::base64::laws::{encoded_len, lemma_encoded_len, lemma_round_trip};

verus! {

/// The 24-bit accumulator of a group: byte `i` stands at bit offset `16 - 8 * i`.
pub open spec fn pack(b0: u8, b1: u8, b2: u8) -> u32 {
    ((b0 as u32) << 16) | ((b1 as u32) << 8) | (b2 as u32)
}

/// Sextet `j` of an accumulator: its six bits at offset `18 - 6 * j`.
pub open spec fn sextet(acc: u32, j: int) -> u8 {
    ((acc >> ((18 - 6 * j) as u32)) & 0x3f) as u8
}

/// Byte `i` of a group, zero where the group has no such byte.
pub open spec fn byte_or_zero(group: Seq<u8>, i: int) -> u8 {
    if 0 <= i < group.len() {
        group[i]
    } else {
        0
    }
}

/// The accumulator of a group of one to three bytes.
pub open spec fn group_accumulator(group: Seq<u8>) -> u32 {
    pack(byte_or_zero(group, 0), byte_or_zero(group, 1), byte_or_zero(group, 2))
}

/// The four symbols of a group of one to three bytes: one symbol more than it
/// has bytes, then pad symbols.
pub open spec fn spec_encode_group(group: Seq<u8>) -> Seq<u8> {
    Seq::new(
        4,
        |j: int|
            if j <= group.len() {
                spec_symbol_of(sextet(group_accumulator(group), j) as int)
            } else {
                PAD
            },
    )
}

/// Length of the first group of an input of `len` bytes.
pub open spec fn first_group_len(len: nat) -> int {
    if len < 3 {
        len as int
    } else {
        3
    }
}

/// The encoding of a byte sequence: the encodings of its groups, in order.
pub open spec fn spec_encode(bytes: Seq<u8>) -> Seq<u8>
    decreases bytes.len(),
{
    if bytes.len() == 0 {
        Seq::empty()
    } else {
        let n = first_group_len(bytes.len());
        spec_encode_group(bytes.take(n)) + spec_encode(bytes.skip(n))
    }
}

/// Sextet `j` of an accumulator.
fn sextet_at(acc: u32, j: u32) -> (value: u8)
    requires
        j < 4,
    ensures
        value == sextet(acc, j as int),
        value < ALPHABET_LEN,
{
    let shift: u32 = 18 - 6 * j;
    let bits: u32 = (acc >> shift) & 0x3f;
    assert(bits < 64) by (bit_vector)
        requires
            bits == (acc >> shift) & 0x3f,
    ;
    bits as u8
}

/// Appends to `out` the four symbols of a group of one to three bytes.
pub fn encode_group(group: &[u8], out: &mut Vec<u8>)
    requires
        1 <= group@.len() <= 3,
    ensures
        final(out)@ == old(out)@ + spec_encode_group(group@),
{
    let len = group.len();
    let b0: u8 = group[0];
    let b1: u8 = if len > 1 { group[1] } else { 0 };
    let b2: u8 = if len > 2 { group[2] } else { 0 };
    let acc: u32 = ((b0 as u32) << 16) | ((b1 as u32) << 8) | (b2 as u32);
    out.push(symbol_of(sextet_at(acc, 0)));
    out.push(symbol_of(sextet_at(acc, 1)));
    out.push(if len > 1 { symbol_of(sextet_at(acc, 2)) } else { PAD });
    out.push(if len > 2 { symbol_of(sextet_at(acc, 3)) } else { PAD });
    assert(out@ =~= old(out)@ + spec_encode_group(group@));
}

/// Encodes `input`. Every input has an encoding; the empty input has the empty one.
///
/// The output has four symbols for every three bytes or part of three, and
/// decoding it gives `input` back.
pub fn encode(input: &[u8]) -> (out: Vec<u8>)
    ensures
        out@ == spec_encode(input@),
        out@.len() == encoded_len(input@.len()),
        well_formed(out@),
        spec_decode(out@) == input@,
{
    let mut out: Vec<u8> = Vec::new();
    let mut pos: usize = 0;
    assert(input@.skip(0) =~= input@);
    while pos < input.len()
        invariant
            pos <= input@.len(),
            spec_encode(input@) == out@ + spec_encode(input@.skip(pos as int)),
        decreases input@.len() - pos,
    {
        let rest: usize = input.len() - pos;
        let n: usize = if rest < 3 { rest } else { 3 };
        let group = slice_subrange(input, pos, pos + n);
        let ghost tail = input@.skip(pos as int);
        encode_group(group, &mut out);
        proof {
            assert(tail.take(n as int) =~= group@);
            assert(tail.skip(n as int) =~= input@.skip(pos + n));
        }
        pos = pos + n;
    }
    assert(spec_encode(input@.skip(pos as int)) =~= Seq::<u8>::empty());
    proof {
        lemma_encoded_len(input@);
        lemma_round_trip(input@);
    }
    out
}

} // verus!
