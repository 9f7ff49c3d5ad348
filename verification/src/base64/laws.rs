//! What holds of the codec as a whole: the length and the padding of an
//! encoding, and that decoding undoes encoding.

use vstd::prelude::*;
use crate::base64::alphabet::{spec_index_of, ALPHABET_LEN, PAD};
use crate::base64::decode::{
    all_groups_valid, byte_of, decoded_len, group_at, group_valid, pad_count, place, sextet_value,
    spec_decode, spec_decode_group, well_formed,
};
use crate::base64::encode::{
    first_group_len, group_accumulator, pack, sextet, spec_encode, spec_encode_group,
};

verus! {

/// Number of symbols in the encoding of `len` bytes: four for every three bytes
/// or part of three.
pub open spec fn encoded_len(len: nat) -> nat {
    4 * ((len + 2) / 3)
}

/// Number of pad symbols at the end of the encoding of `len` bytes.
pub open spec fn padding_len(len: nat) -> nat {
    ((3 - len % 3) % 3) as nat
}

/// Every sextet of an accumulator is a position in the alphabet.
pub proof fn lemma_sextet_in_alphabet(acc: u32, j: int)
    requires
        0 <= j < 4,
    ensures
        sextet(acc, j) < ALPHABET_LEN,
{
    assert(sextet(acc, 0) < 64 && sextet(acc, 1) < 64 && sextet(acc, 2) < 64 && sextet(acc, 3)
        < 64) by (bit_vector);
}

/// Three bytes, cut into four sextets and put together again, are the same three bytes.
proof fn lemma_regroup_three(b0: u8, b1: u8, b2: u8)
    by (bit_vector)
    ensures
        ({
            let acc = pack(b0, b1, b2);
            let bits = place(sextet(acc, 0), 0) | place(sextet(acc, 1), 1) | place(
                sextet(acc, 2),
                2,
            ) | place(sextet(acc, 3), 3);
            byte_of(bits, 0) == b0 && byte_of(bits, 1) == b1 && byte_of(bits, 2) == b2
        }),
{
}

/// Two bytes come back from their first three sextets.
proof fn lemma_regroup_two(b0: u8, b1: u8)
    by (bit_vector)
    ensures
        ({
            let acc = pack(b0, b1, 0);
            let bits = place(sextet(acc, 0), 0) | place(sextet(acc, 1), 1) | place(
                sextet(acc, 2),
                2,
            ) | place(0, 3);
            byte_of(bits, 0) == b0 && byte_of(bits, 1) == b1
        }),
{
}

/// One byte comes back from its first two sextets.
proof fn lemma_regroup_one(b0: u8)
    by (bit_vector)
    ensures
        ({
            let acc = pack(b0, 0, 0);
            let bits = place(sextet(acc, 0), 0) | place(sextet(acc, 1), 1) | place(0, 2) | place(
                0,
                3,
            );
            byte_of(bits, 0) == b0
        }),
{
}

/// The symbols of an encoded group: data symbols for the sextets that hold
/// bits of the input, then pad symbols.
pub proof fn lemma_group_symbols(group: Seq<u8>)
    requires
        1 <= group.len() <= 3,
    ensures
        spec_encode_group(group).len() == 4,
        forall|j: int|
            0 <= j < 4 ==> (#[trigger] spec_encode_group(group)[j] == PAD <==> j > group.len()),
        forall|j: int|
            0 <= j <= group.len() ==> spec_index_of(#[trigger] spec_encode_group(group)[j])
                == Some(sextet(group_accumulator(group), j)),
{
    let acc = group_accumulator(group);
    assert forall|j: int| 0 <= j <= group.len() implies spec_index_of(
        #[trigger] spec_encode_group(group)[j],
    ) == Some(sextet(acc, j)) && spec_encode_group(group)[j] != PAD by {
        lemma_sextet_in_alphabet(acc, j);
    }
}

/// Decoding an encoded group gives the group back.
pub proof fn lemma_group_round_trip(group: Seq<u8>)
    requires
        1 <= group.len() <= 3,
    ensures
        group_valid(spec_encode_group(group)),
        spec_decode_group(spec_encode_group(group)) == group,
{
    let symbols = spec_encode_group(group);
    let acc = group_accumulator(group);
    lemma_group_symbols(group);
    assert(sextet_value(symbols[0]) == sextet(acc, 0));
    assert(sextet_value(symbols[1]) == sextet(acc, 1));
    assert(pad_count(symbols) == 3 - group.len());
    assert(decoded_len(symbols) == group.len());
    if group.len() == 3 {
        assert(sextet_value(symbols[2]) == sextet(acc, 2));
        assert(sextet_value(symbols[3]) == sextet(acc, 3));
        lemma_regroup_three(group[0], group[1], group[2]);
    } else if group.len() == 2 {
        assert(sextet_value(symbols[2]) == sextet(acc, 2));
        assert(sextet_value(symbols[3]) == 0);
        lemma_regroup_two(group[0], group[1]);
    } else {
        assert(sextet_value(symbols[2]) == 0);
        assert(sextet_value(symbols[3]) == 0);
        lemma_regroup_one(group[0]);
    }
    assert(spec_decode_group(symbols) =~= group);
}

/// The encoding of `n` bytes has `4 * ceil(n / 3)` symbols.
pub proof fn lemma_encoded_len(bytes: Seq<u8>)
    ensures
        spec_encode(bytes).len() == encoded_len(bytes.len()),
        spec_encode(bytes).len() % 4 == 0,
    decreases bytes.len(),
{
    if bytes.len() > 0 {
        lemma_encoded_len(bytes.skip(first_group_len(bytes.len())));
    }
}

/// The pad symbols of an encoding are exactly its last
/// `padding_len` symbols. So an input of a multiple of three bytes is encoded
/// without a pad symbol, one of a byte more ends in two pad symbols, and one of
/// two bytes more ends in one.
pub proof fn lemma_padding(bytes: Seq<u8>)
    ensures
        forall|k: int|
            0 <= k < spec_encode(bytes).len() ==> (#[trigger] spec_encode(bytes)[k] == PAD <==> k
                >= spec_encode(bytes).len() - padding_len(bytes.len())),
        bytes.len() % 3 == 0 ==> !spec_encode(bytes).contains(PAD),
        bytes.len() % 3 == 1 ==> spec_encode(bytes).len() >= 4 && spec_encode(bytes)[spec_encode(
            bytes,
        ).len() - 1] == PAD && spec_encode(bytes)[spec_encode(bytes).len() - 2] == PAD
            && spec_encode(bytes)[spec_encode(bytes).len() - 3] != PAD,
        bytes.len() % 3 == 2 ==> spec_encode(bytes).len() >= 4 && spec_encode(bytes)[spec_encode(
            bytes,
        ).len() - 1] == PAD && spec_encode(bytes)[spec_encode(bytes).len() - 2] != PAD,
    decreases bytes.len(),
{
    let symbols = spec_encode(bytes);
    lemma_encoded_len(bytes);
    if bytes.len() > 0 {
        let n = first_group_len(bytes.len());
        let first = spec_encode_group(bytes.take(n));
        let rest = spec_encode(bytes.skip(n));
        lemma_group_symbols(bytes.take(n));
        lemma_padding(bytes.skip(n));
        lemma_encoded_len(bytes.skip(n));
        assert forall|k: int| 0 <= k < symbols.len() implies (#[trigger] symbols[k] == PAD <==> k
            >= symbols.len() - padding_len(bytes.len())) by {
            if k < 4 {
                assert(symbols[k] == first[k]);
            } else {
                assert(symbols[k] == rest[k - 4]);
            }
        }
    }
}

/// Every encoding is well formed, and its decoding is the input that was encoded.
pub proof fn lemma_round_trip(bytes: Seq<u8>)
    ensures
        well_formed(spec_encode(bytes)),
        spec_decode(spec_encode(bytes)) == bytes,
    decreases bytes.len(),
{
    let symbols = spec_encode(bytes);
    if bytes.len() == 0 {
        assert(spec_decode(symbols) =~= bytes);
    } else {
        let n = first_group_len(bytes.len());
        let first = spec_encode_group(bytes.take(n));
        let rest = spec_encode(bytes.skip(n));
        lemma_group_round_trip(bytes.take(n));
        lemma_round_trip(bytes.skip(n));
        assert(symbols.take(4) =~= first);
        assert(symbols.skip(4) =~= rest);
        assert(bytes.take(n) + bytes.skip(n) =~= bytes);
        assert forall|g: int| 0 <= g && 4 * g + 4 <= symbols.len() implies group_valid(
            #[trigger] group_at(symbols, g),
        ) by {
            if g == 0 {
                assert(group_at(symbols, 0) =~= first);
            } else {
                assert(group_at(symbols, g) =~= group_at(rest, g - 1));
            }
        }
    }
}

/// A decoding has at most three bytes for every group of four symbols.
pub proof fn lemma_decoded_len_bound(symbols: Seq<u8>)
    ensures
        spec_decode(symbols).len() <= 3 * (symbols.len() / 4),
    decreases symbols.len(),
{
    if symbols.len() >= 4 {
        lemma_decoded_len_bound(symbols.skip(4));
    }
}

/// Where pad symbols stand in the last group only, and at most three of them,
/// the decoding has three bytes for every group less one for every pad symbol.
pub proof fn lemma_decoded_len(symbols: Seq<u8>)
    requires
        symbols.len() > 0,
        symbols.len() % 4 == 0,
        forall|k: int| 0 <= k < symbols.len() - 4 ==> symbols[k] != PAD,
        pad_count(symbols.skip(symbols.len() - 4)) <= 3,
    ensures
        spec_decode(symbols).len() == 3 * (symbols.len() / 4) - pad_count(
            symbols.skip(symbols.len() - 4),
        ),
    decreases symbols.len(),
{
    let first = symbols.take(4);
    let rest = symbols.skip(4);
    let last = symbols.skip(symbols.len() - 4);
    assert(spec_decode(symbols) == spec_decode_group(first) + spec_decode(rest));
    if symbols.len() == 4 {
        assert(first =~= last);
        assert(spec_decode(rest).len() == 0);
    } else {
        assert(rest.skip(rest.len() - 4) =~= last);
        assert(pad_count(first) == 0);
        lemma_decoded_len(rest);
    }
}

/// The accumulator of three bytes has no bit above its twenty-fourth, and so
/// has the accumulator of four sextets.
pub proof fn lemma_accumulator_width(b0: u8, b1: u8, b2: u8, v0: u8, v1: u8, v2: u8, v3: u8)
    requires
        v0 < ALPHABET_LEN,
        v1 < ALPHABET_LEN,
        v2 < ALPHABET_LEN,
        v3 < ALPHABET_LEN,
    ensures
        pack(b0, b1, b2) < 0x100_0000,
        place(v0, 0) | place(v1, 1) | place(v2, 2) | place(v3, 3) < 0x100_0000,
{
    assert(pack(b0, b1, b2) < 0x100_0000) by (bit_vector);
    assert(place(v0, 0) | place(v1, 1) | place(v2, 2) | place(v3, 3) < 0x100_0000)
        by (bit_vector)
        requires
            v0 < 64,
            v1 < 64,
            v2 < 64,
            v3 < 64,
    ;
}

/// Groups are encoded each by itself: behind whole groups of three bytes, what
/// follows is encoded as it would be alone.
pub proof fn lemma_encode_concat(head: Seq<u8>, tail: Seq<u8>)
    requires
        head.len() % 3 == 0,
    ensures
        spec_encode(head + tail) == spec_encode(head) + spec_encode(tail),
    decreases head.len(),
{
    let all = head + tail;
    if head.len() == 0 {
        assert(all =~= tail);
    } else {
        assert(all.take(3) =~= head.take(3));
        assert(all.skip(3) =~= head.skip(3) + tail);
        lemma_encode_concat(head.skip(3), tail);
    }
}

/// Groups are decoded each by itself: behind whole groups of four symbols,
/// what follows is valid where it would be alone, and is decoded as it would be alone.
pub proof fn lemma_decode_concat(head: Seq<u8>, tail: Seq<u8>)
    requires
        head.len() % 4 == 0,
    ensures
        all_groups_valid(head + tail) <==> all_groups_valid(head) && all_groups_valid(tail),
        spec_decode(head + tail) == spec_decode(head) + spec_decode(tail),
    decreases head.len(),
{
    let all = head + tail;
    let shift = head.len() as int / 4;
    assert forall|g: int| 0 <= g && 4 * g + 4 <= all.len() implies #[trigger] group_at(all, g) == (
    if g < shift {
        group_at(head, g)
    } else {
        group_at(tail, g - shift)
    }) by {
        if g < shift {
            assert(group_at(all, g) =~= group_at(head, g));
        } else {
            assert(group_at(all, g) =~= group_at(tail, g - shift));
        }
    }
    if all_groups_valid(all) {
        assert forall|g: int| 0 <= g && 4 * g + 4 <= head.len() implies group_valid(
            #[trigger] group_at(head, g),
        ) by {
            assert(group_valid(group_at(all, g)));
        }
        assert forall|g: int| 0 <= g && 4 * g + 4 <= tail.len() implies group_valid(
            #[trigger] group_at(tail, g),
        ) by {
            assert(group_valid(group_at(all, g + shift)));
        }
    }
    if all_groups_valid(head) && all_groups_valid(tail) {
        assert forall|g: int| 0 <= g && 4 * g + 4 <= all.len() implies group_valid(
            #[trigger] group_at(all, g),
        ) by {
            if g < shift {
                assert(group_valid(group_at(head, g)));
            } else {
                assert(group_valid(group_at(tail, g - shift)));
            }
        }
    }
    if head.len() == 0 {
        assert(all =~= tail);
    } else {
        assert(all.take(4) =~= head.take(4));
        assert(all.skip(4) =~= head.skip(4) + tail);
        lemma_decode_concat(head.skip(4), tail);
    }
}

} // verus!
