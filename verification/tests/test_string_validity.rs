use obfustring::{decode_to_string, encode, ThreadRandom};

#[test]
fn utf8_string_validity() {
    let mut rng = ThreadRandom::new();
    let encoded = encode("Hello obfustring!".as_bytes(), &mut rng);
    let obfuscated_string = decode_to_string(&encoded).unwrap();
    let generic_string = String::from("Hello obfustring!");
    let generic_str = "Hello obfustring!";

    assert_eq!(obfuscated_string, generic_string);
    assert_eq!(obfuscated_string, generic_str);
}

#[test]
fn utf16_string_validity() {
    let mut rng = ThreadRandom::new();
    let encoded = encode("你好迷惑！, but it includes utf-16!".as_bytes(), &mut rng);
    let obfuscated_string = decode_to_string(&encoded).unwrap();
    let generic_string = String::from("你好迷惑！, but it includes utf-16!");
    let generic_str = "你好迷惑！, but it includes utf-16!";

    assert_eq!(obfuscated_string, generic_string);
    assert_eq!(obfuscated_string, generic_str);
}
