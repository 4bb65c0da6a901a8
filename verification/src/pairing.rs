//! The mathematical model of the paired byte encoding.
//!
//! A plaintext of `n` bytes is stored as `2 * n` bytes: pair `i` holds, at
//! position `2 * i`, the plaintext byte shifted up by an offset and, at
//! position `2 * i + 1`, that offset. The shift never wraps, so plain
//! subtraction gives the plaintext byte back.

use vstd::prelude::*;

verus! {

/// Offsets are drawn from the half-open range from zero up to this limit.
pub const OFFSET_LIMIT: u8 = 80;

/// The offset that is stored for `byte` when `candidate` was drawn: the
/// candidate itself where the sum still fits in a byte, and otherwise the
/// largest smaller offset for which it does.
pub open spec fn settled_offset(byte: u8, candidate: u8) -> u8 {
    if byte + candidate <= u8::MAX {
        candidate
    } else {
        (u8::MAX - byte) as u8
    }
}

/// The shifted value of pair `i`.
pub open spec fn value_at(encoded: Seq<u8>, i: int) -> u8 {
    encoded[2 * i]
}

/// The offset of pair `i`.
pub open spec fn offset_at(encoded: Seq<u8>, i: int) -> u8 {
    encoded[2 * i + 1]
}

/// Pair `i` can be decoded by subtraction: its value is not below its offset.
pub open spec fn pair_is_sound(encoded: Seq<u8>, i: int) -> bool {
    value_at(encoded, i) >= offset_at(encoded, i)
}

/// The bytes split into whole pairs, each of which is sound.
pub open spec fn is_well_formed(encoded: Seq<u8>) -> bool {
    &&& encoded.len() % 2 == 0
    &&& forall|i: int| 0 <= i < encoded.len() / 2 ==> #[trigger] pair_is_sound(encoded, i)
}

/// The plaintext that a well-formed sequence stands for: value minus offset,
/// pair by pair.
pub open spec fn plain_of(encoded: Seq<u8>) -> Seq<u8> {
    Seq::new(
        encoded.len() / 2,
        |i: int| (value_at(encoded, i) - offset_at(encoded, i)) as u8,
    )
}

/// Pair `i` of `encoded` stores byte `i` of `plain`: its offset is below
/// [`OFFSET_LIMIT`] and its value is the byte plus the offset, unwrapped.
pub open spec fn pair_encodes(encoded: Seq<u8>, plain: Seq<u8>, i: int) -> bool {
    &&& offset_at(encoded, i) < OFFSET_LIMIT
    &&& value_at(encoded, i) == plain[i] + offset_at(encoded, i)
}

/// `encoded` is one of the encodings of `plain`: twice as long, and every
/// pair stores the plaintext byte of its index.
pub open spec fn is_encoding_of(encoded: Seq<u8>, plain: Seq<u8>) -> bool {
    &&& encoded.len() == 2 * plain.len()
    &&& forall|i: int| 0 <= i < plain.len() ==> #[trigger] pair_encodes(encoded, plain, i)
}

/// The encoding of `plain` in which byte `i` was given the candidate offset
/// `candidates[i]`: each pair holds the byte plus its settled offset, then
/// that offset.
pub open spec fn encoding_with(plain: Seq<u8>, candidates: Seq<u8>) -> Seq<u8> {
    Seq::new(
        2 * plain.len(),
        |k: int|
            {
                let offset = settled_offset(plain[k / 2], candidates[k / 2]);
                if k % 2 == 0 {
                    (plain[k / 2] + offset) as u8
                } else {
                    offset
                }
            },
    )
}

/// Candidates below [`OFFSET_LIMIT`], one for each byte, give an encoding of
/// the plaintext.
pub proof fn candidates_give_encoding(plain: Seq<u8>, candidates: Seq<u8>)
    requires
        candidates.len() == plain.len(),
        forall|i: int| 0 <= i < candidates.len() ==> #[trigger] candidates[i] < OFFSET_LIMIT,
    ensures
        is_encoding_of(encoding_with(plain, candidates), plain),
{
    let encoded = encoding_with(plain, candidates);
    assert forall|i: int| 0 <= i < plain.len() implies #[trigger] pair_encodes(
        encoded,
        plain,
        i,
    ) by {
        assert(candidates[i] < OFFSET_LIMIT);
    }
}

/// Every encoding is well formed and stands for the plaintext it was made
/// from, whatever offsets were drawn.
pub proof fn encoding_round_trips(encoded: Seq<u8>, plain: Seq<u8>)
    requires
        is_encoding_of(encoded, plain),
    ensures
        is_well_formed(encoded),
        plain_of(encoded) == plain,
{
    assert forall|i: int| 0 <= i < encoded.len() / 2 implies #[trigger] pair_is_sound(
        encoded,
        i,
    ) by {
        assert(pair_encodes(encoded, plain, i));
    }
    assert forall|i: int| 0 <= i < plain.len() implies plain_of(encoded)[i] == plain[i] by {
        assert(pair_encodes(encoded, plain, i));
    }
    assert(plain_of(encoded) =~= plain);
}

/// In an encoding every offset lies below [`OFFSET_LIMIT`] and no value lies
/// below its offset.
pub proof fn encoding_stays_in_range(encoded: Seq<u8>, plain: Seq<u8>, i: int)
    requires
        is_encoding_of(encoded, plain),
        0 <= i < plain.len(),
    ensures
        offset_at(encoded, i) < OFFSET_LIMIT,
        value_at(encoded, i) >= offset_at(encoded, i),
        value_at(encoded, i) - offset_at(encoded, i) == plain[i],
{
    assert(pair_encodes(encoded, plain, i));
}

/// The offsets are the only freedom an encoding has: two encodings of one
/// plaintext that agree on every offset are the same sequence.
pub proof fn encoding_fixed_by_offsets(first: Seq<u8>, second: Seq<u8>, plain: Seq<u8>)
    requires
        is_encoding_of(first, plain),
        is_encoding_of(second, plain),
        forall|i: int|
            0 <= i < plain.len() ==> #[trigger] offset_at(first, i) == offset_at(second, i),
    ensures
        first == second,
{
    assert forall|k: int| 0 <= k < first.len() implies first[k] == second[k] by {
        assert(pair_encodes(first, plain, k / 2));
        assert(pair_encodes(second, plain, k / 2));
        assert(offset_at(first, k / 2) == offset_at(second, k / 2));
    }
    assert(first =~= second);
}

} // verus!
