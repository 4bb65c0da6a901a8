use obfustring::{decode, decode_to_string, encode, DecodeError, FixedSequence, ThreadRandom};

#[test]
fn nothing_decodes_to_nothing() {
    assert_eq!(decode(&[]), Ok(Vec::new()));
    assert_eq!(decode_to_string(&[]), Ok(String::new()));
}

#[test]
fn pair_decodes_to_letter_a() {
    assert_eq!(decode(&[75, 10]), Ok(vec![65]));
    assert_eq!(decode_to_string(&[75, 10]), Ok(String::from("A")));
}

#[test]
fn two_pairs_decode_to_hi() {
    assert_eq!(decode(&[77, 5, 108, 3]), Ok(vec![72, 105]));
    assert_eq!(decode_to_string(&[77, 5, 108, 3]), Ok(String::from("Hi")));
}

#[test]
fn pair_of_255_and_zero_decodes_to_255() {
    assert_eq!(decode(&[255, 0]), Ok(vec![255]));
}

#[test]
fn decoded_length_is_half_the_encoded_length() {
    let encoded: Vec<u8> = (0..200).map(|k| if k % 2 == 0 { 200 } else { k as u8 }).collect();
    assert_eq!(decode(&encoded).unwrap().len(), 100);
}

#[test]
fn offsets_beyond_the_limit_still_decode() {
    assert_eq!(decode(&[255, 200, 90, 90]), Ok(vec![55, 0]));
}

#[test]
fn odd_length_is_refused() {
    assert_eq!(decode(&[75]), Err(DecodeError::OddLength));
    assert_eq!(decode(&[77, 5, 108]), Err(DecodeError::OddLength));
    assert_eq!(decode_to_string(&[77, 5, 108]), Err(DecodeError::OddLength));
}

#[test]
fn odd_length_is_reported_before_any_pair() {
    assert_eq!(decode(&[1, 2, 3]), Err(DecodeError::OddLength));
}

#[test]
fn value_below_offset_is_refused_with_the_first_such_pair() {
    assert_eq!(decode(&[1, 2]), Err(DecodeError::ValueBelowOffset { index: 0 }));
    assert_eq!(
        decode(&[77, 5, 1, 3, 0, 9]),
        Err(DecodeError::ValueBelowOffset { index: 1 })
    );
    assert_eq!(
        decode_to_string(&[77, 5, 108, 3, 0, 9]),
        Err(DecodeError::ValueBelowOffset { index: 2 })
    );
}

#[test]
fn decoding_twice_gives_the_same_plaintext() {
    let mut rng = ThreadRandom::new();
    let encoded = encode(b"decode me again", &mut rng);
    let first = decode(&encoded);
    let second = decode(&encoded);
    assert_eq!(first, Ok(b"decode me again".to_vec()));
    assert_eq!(first, second);
    assert_eq!(decode_to_string(&encoded), decode_to_string(&encoded));
    assert_eq!(decode(&[3, 4, 5]), decode(&[3, 4, 5]));
    assert_eq!(decode(&[3, 4]), decode(&[3, 4]));
}

#[test]
fn text_comes_back_unchanged() {
    let mut rng = ThreadRandom::new();
    for text in ["", "A", "Hi", "naïve café", "你好迷惑！", "🦀 crab", "\u{0}\u{7f}\u{80}\u{10FFFF}"] {
        let encoded = encode(text.as_bytes(), &mut rng);
        assert_eq!(encoded.len(), 2 * text.len());
        assert_eq!(decode_to_string(&encoded), Ok(String::from(text)));
    }
}

#[test]
fn bytes_that_are_no_utf8_are_replaced() {
    let mut rng = FixedSequence::new(vec![7]);
    let encoded = encode(&[0x66, 0xFF, 0x6F], &mut rng);
    assert_eq!(decode(&encoded), Ok(vec![0x66, 0xFF, 0x6F]));
    assert_eq!(decode_to_string(&encoded), Ok(String::from("f\u{FFFD}o")));
}

#[test]
fn a_character_cut_short_is_replaced() {
    let encoded = encode(&[0xE2, 0x82], &mut ThreadRandom::new());
    assert_eq!(decode_to_string(&encoded), Ok(String::from("\u{FFFD}")));
}
