//! Encoding: plaintext bytes to pairs of shifted value and offset.

use vstd::prelude::*;

use crate::pairing::{
    candidates_give_encoding, encoding_round_trips, encoding_with, is_encoding_of, is_well_formed,
    plain_of, settled_offset, OFFSET_LIMIT,
};
use crate::source::{Draw, RandomByteSource};

verus! {

/// The draw asked for an offset: a byte from zero up to, and without,
/// [`OFFSET_LIMIT`].
pub open spec fn is_offset_draw(draw: Draw) -> bool {
    &&& draw.low == 0
    &&& draw.high == OFFSET_LIMIT
    &&& draw.value < OFFSET_LIMIT
}

/// The history `later` is `earlier` with `count` draws added, each of them a
/// draw of an offset.
pub open spec fn drew_offsets(earlier: Seq<Draw>, later: Seq<Draw>, count: nat) -> bool {
    &&& later.len() == earlier.len() + count
    &&& later.take(earlier.len() as int) =~= earlier
    &&& forall|k: int| earlier.len() <= k < later.len() ==> is_offset_draw(#[trigger] later[k])
}

/// The bytes that came in the draws by which `later` is longer than
/// `earlier`, oldest first.
pub open spec fn values_since(earlier: Seq<Draw>, later: Seq<Draw>) -> Seq<u8> {
    Seq::new((later.len() - earlier.len()) as nat, |i: int| later[earlier.len() + i].value)
}

/// Encodes one byte with the offset `candidate`, or with the largest smaller
/// offset that keeps the sum within a byte. Returns the sum first and the
/// offset that was used second.
pub fn encode_byte(byte: u8, candidate: u8) -> (pair: (u8, u8))
    ensures
        pair.1 == settled_offset(byte, candidate),
        pair.0 == byte + pair.1,
{
    let mut offset: u8 = candidate;
    loop
        invariant
            offset <= candidate,
            settled_offset(byte, offset) == settled_offset(byte, candidate),
        decreases offset,
    {
        match byte.checked_add(offset) {
            Some(sum) => {
                return (sum, offset);
            },
            None => {
                offset = offset - 1;
            },
        }
    }
}

/// Encodes `plain` byte by byte. For each byte, in order, it draws one
/// candidate offset below [`OFFSET_LIMIT`] from `rng` and stores the pair
/// that [`encode_byte`] makes of the byte and the candidate. The result is
/// thus fixed by the plaintext and the answers of `rng`, and it is an
/// encoding of `plain` whatever those answers were.
pub fn encode<R: RandomByteSource>(plain: &[u8], rng: &mut R) -> (encoded: Vec<u8>)
    ensures
        drew_offsets(old(rng).history(), final(rng).history(), plain@.len()),
        encoded@ == encoding_with(
            plain@,
            values_since(old(rng).history(), final(rng).history()),
        ),
        encoded@.len() == 2 * plain@.len(),
        is_encoding_of(encoded@, plain@),
        is_well_formed(encoded@),
        plain_of(encoded@) == plain@,
{
    let ghost earlier = rng.history();
    let mut encoded: Vec<u8> = Vec::new();
    let mut i: usize = 0;
    while i < plain.len()
        invariant
            i <= plain.len(),
            encoded@.len() == 2 * i,
            drew_offsets(earlier, rng.history(), i as nat),
            forall|k: int|
                0 <= k < 2 * i ==> #[trigger] encoded@[k] == encoding_with(
                    plain@,
                    values_since(earlier, rng.history()),
                )[k],
        decreases plain.len() - i,
    {
        let ghost history_before = rng.history();
        let ghost encoded_before = encoded@;
        let candidate = rng.next_in_range(0, OFFSET_LIMIT);
        let (value, offset) = encode_byte(plain[i], candidate);
        encoded.push(value);
        encoded.push(offset);
        proof {
            let history = rng.history();
            assert(history.take(earlier.len() as int) =~= history_before.take(
                earlier.len() as int,
            ));
            assert forall|k: int| 0 <= k < 2 * i + 2 implies #[trigger] encoded@[k]
                == encoding_with(plain@, values_since(earlier, history))[k] by {
                if k < 2 * i {
                    assert(encoded@[k] == encoded_before[k]);
                    assert(history[earlier.len() + k / 2] == history_before[earlier.len() + k / 2]);
                }
            }
        }
        i = i + 1;
    }
    proof {
        let candidates = values_since(earlier, rng.history());
        assert(encoded@ =~= encoding_with(plain@, candidates));
        assert forall|j: int| 0 <= j < candidates.len() implies #[trigger] candidates[j]
            < OFFSET_LIMIT by {
            assert(is_offset_draw(rng.history()[earlier.len() + j]));
        }
        candidates_give_encoding(plain@, candidates);
        encoding_round_trips(encoded@, plain@);
    }
    encoded
}

} // verus!
