//! Decoding: pairs of shifted value and offset back to plaintext bytes, and
//! from there to text.

use vstd::prelude::*;
use vstd::utf8::{
    decode_utf8, encode_utf8, encode_utf8_decode_utf8, encode_utf8_valid_utf8, valid_utf8,
};

use crate::pairing::{
    encoding_round_trips, is_encoding_of, is_well_formed, offset_at, pair_is_sound, plain_of,
    value_at,
};

verus! {

/// Why a byte sequence could not be decoded.
#[derive(Clone, Copy, Debug, PartialEq, Eq, Structural)]
pub enum DecodeError {
    /// The sequence has an odd number of bytes, so its last pair is cut
    /// short.
    OddLength,
    /// The value of a pair lies below its offset. `index` counts pairs from
    /// zero and names the first such pair.
    ValueBelowOffset { index: usize },
}

/// Pair `index` is the first pair of `encoded` whose value lies below its
/// offset.
pub open spec fn is_first_unsound_pair(encoded: Seq<u8>, index: int) -> bool {
    &&& 0 <= index < encoded.len() / 2
    &&& !pair_is_sound(encoded, index)
    &&& forall|j: int| 0 <= j < index ==> #[trigger] pair_is_sound(encoded, j)
}

/// Decoding `encoded` fails with `error`.
pub open spec fn fails_with(encoded: Seq<u8>, error: DecodeError) -> bool {
    match error {
        DecodeError::OddLength => encoded.len() % 2 == 1,
        DecodeError::ValueBelowOffset { index } => {
            &&& encoded.len() % 2 == 0
            &&& is_first_unsound_pair(encoded, index as int)
        },
    }
}

/// Decoding `encoded` ends in `outcome`: the plaintext for a well-formed
/// sequence, and the matching error for any other.
pub open spec fn decodes_to(encoded: Seq<u8>, outcome: Result<Seq<u8>, DecodeError>) -> bool {
    match outcome {
        Ok(plain) => is_well_formed(encoded) && plain == plain_of(encoded),
        Err(error) => fails_with(encoded, error),
    }
}

/// Decoding undoes encoding: every encoding of `plain`, whatever offsets it
/// holds, decodes to `plain`.
pub proof fn encoding_decodes_to_plaintext(encoded: Seq<u8>, plain: Seq<u8>)
    requires
        is_encoding_of(encoded, plain),
    ensures
        decodes_to(encoded, Ok(plain)),
{
    encoding_round_trips(encoded, plain);
}

/// Decoding has one outcome for each input: it depends on the encoded bytes
/// alone, so decoding the same bytes again gives the same plaintext or the
/// same error.
pub proof fn decoding_is_unique(
    encoded: Seq<u8>,
    first: Result<Seq<u8>, DecodeError>,
    second: Result<Seq<u8>, DecodeError>,
)
    requires
        decodes_to(encoded, first),
        decodes_to(encoded, second),
    ensures
        first == second,
{
    match (first, second) {
        (
            Err(DecodeError::ValueBelowOffset { index: a }),
            Err(DecodeError::ValueBelowOffset { index: b }),
        ) => {
            if a < b {
                assert(pair_is_sound(encoded, a as int));
            } else if b < a {
                assert(pair_is_sound(encoded, b as int));
            }
        },
        (Ok(_), Err(DecodeError::ValueBelowOffset { index })) => {
            assert(pair_is_sound(encoded, index as int));
        },
        (Err(DecodeError::ValueBelowOffset { index }), Ok(_)) => {
            assert(pair_is_sound(encoded, index as int));
        },
        _ => {},
    }
}

/// Decodes `encoded` pair by pair, subtracting each offset from its value.
/// Succeeds on the well-formed sequences and on no others; a sequence of odd
/// length is refused before any pair is looked at.
pub fn decode(encoded: &[u8]) -> (result: Result<Vec<u8>, DecodeError>)
    ensures
        result is Ok <==> is_well_formed(encoded@),
        decodes_to(
            encoded@,
            match result {
                Ok(plain) => Ok(plain@),
                Err(error) => Err(error),
            },
        ),
{
    let len = encoded.len();
    if len % 2 != 0 {
        return Err(DecodeError::OddLength);
    }
    let pairs: usize = len / 2;
    let mut plain: Vec<u8> = Vec::new();
    let mut i: usize = 0;
    while i < pairs
        invariant
            len == encoded@.len(),
            len % 2 == 0,
            pairs == len / 2,
            i <= pairs,
            plain@.len() == i,
            forall|j: int| 0 <= j < i ==> #[trigger] pair_is_sound(encoded@, j),
            forall|j: int|
                0 <= j < i ==> #[trigger] plain@[j] == value_at(encoded@, j) - offset_at(
                    encoded@,
                    j,
                ),
        decreases pairs - i,
    {
        let value = encoded[2 * i];
        let offset = encoded[2 * i + 1];
        if value < offset {
            assert(!pair_is_sound(encoded@, i as int));
            return Err(DecodeError::ValueBelowOffset { index: i });
        }
        assert(pair_is_sound(encoded@, i as int));
        plain.push(value - offset);
        i = i + 1;
    }
    assert(plain@ =~= plain_of(encoded@));
    Ok(plain)
}

/// What `String::from_utf8_lossy` makes of `bytes`: the text that the bytes
/// spell, with the replacement character in place of each stretch that is no
/// UTF-8.
pub uninterp spec fn lossy_utf8_text(bytes: Seq<u8>) -> Seq<char>;

/// `String::from_utf8_lossy`, with the result as an owned `String`. The
/// result depends on the bytes alone. For bytes that are UTF-8 it is the text
/// they spell, unchanged; what the replacement does to other bytes is not
/// spelled out here.
#[verifier::external_body]
fn text_from_utf8_lossy(bytes: &[u8]) -> (text: String)
    ensures
        text@ == lossy_utf8_text(bytes@),
        valid_utf8(bytes@) ==> text@ == decode_utf8(bytes@),
{
    String::from_utf8_lossy(bytes).into_owned()
}

/// Text comes back as it went in: an encoding of the UTF-8 bytes of `text`
/// stands for bytes that are UTF-8 and spell `text`, so that
/// [`decode_to_string`] returns `text` with nothing replaced.
pub proof fn text_round_trips(encoded: Seq<u8>, text: Seq<char>)
    requires
        is_encoding_of(encoded, encode_utf8(text)),
    ensures
        is_well_formed(encoded),
        valid_utf8(plain_of(encoded)),
        decode_utf8(plain_of(encoded)) == text,
{
    encoding_round_trips(encoded, encode_utf8(text));
    encode_utf8_valid_utf8(text);
    encode_utf8_decode_utf8(text);
}

/// Decodes `encoded` and reads the plaintext as UTF-8 text, leniently: bytes
/// that are no UTF-8 are replaced, not refused. Fails exactly where
/// [`decode`] fails, with the same error.
pub fn decode_to_string(encoded: &[u8]) -> (result: Result<String, DecodeError>)
    ensures
        result is Ok <==> is_well_formed(encoded@),
        match result {
            Ok(text) => {
                &&& text@ == lossy_utf8_text(plain_of(encoded@))
                &&& valid_utf8(plain_of(encoded@)) ==> text@ == decode_utf8(plain_of(encoded@))
            },
            Err(error) => fails_with(encoded@, error),
        },
{
    match decode(encoded) {
        Ok(plain) => Ok(text_from_utf8_lossy(plain.as_slice())),
        Err(error) => Err(error),
    }
}

} // verus!
