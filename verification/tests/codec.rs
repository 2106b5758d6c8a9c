use kv_cab::{decode, encode, DecodeFailure, Mapping, Value};

fn key(s: &str) -> String {
    s.to_string()
}

fn sample() -> Mapping {
    let mut inner = Mapping::new();
    inner.insert(key("x"), Value::Int(-2));
    inner.insert(key("y"), Value::String(key("nested")));
    let mut deeper = Mapping::new();
    deeper.insert(key("z"), Value::Float(2.5f32.to_bits()));
    inner.insert(key("deep"), Value::Mapping(deeper));
    let mut m = Mapping::new();
    m.insert(key("a"), Value::Int(1));
    m.insert(key("b"), Value::String(key("x")));
    m.insert(key("c"), Value::Float(1.5f32.to_bits()));
    m.insert(key("d"), Value::Mapping(inner));
    m.insert(key("empty"), Value::Mapping(Mapping::new()));
    m
}

#[test]
fn empty_mapping_is_eight_zero_bytes() {
    assert_eq!(encode(&Mapping::new()), vec![0u8; 8]);
}

#[test]
fn one_int_entry_has_the_documented_bytes() {
    let mut m = Mapping::new();
    m.insert(key("a"), Value::Int(1));
    let expected: Vec<u8> = vec![
        0, 0, 0, 0, 0, 0, 0, 1, // one entry
        0, 0, 0, 0, 0, 0, 0, 1, 0x61, // key "a"
        0, 0, 0, 1, // tag of an integer
        0, 0, 0, 1, // the integer
    ];
    assert_eq!(encode(&m), expected);
}

#[test]
fn negative_int_is_twos_complement() {
    let mut m = Mapping::new();
    m.insert(key("n"), Value::Int(-2));
    let bytes = encode(&m);
    assert_eq!(&bytes[bytes.len() - 4..], &[0xff, 0xff, 0xff, 0xfe]);
    let mut low = Mapping::new();
    low.insert(key("n"), Value::Int(i32::MIN));
    let bytes = encode(&low);
    assert_eq!(&bytes[bytes.len() - 4..], &[0x80, 0, 0, 0]);
    assert_eq!(decode(&bytes), Ok(low));
}

#[test]
fn string_value_has_the_documented_bytes() {
    let mut m = Mapping::new();
    m.insert(key("b"), Value::String(key("xy")));
    let expected: Vec<u8> = vec![
        0, 0, 0, 0, 0, 0, 0, 1, // one entry
        0, 0, 0, 0, 0, 0, 0, 1, 0x62, // key "b"
        0, 0, 0, 0, // tag of a string
        0, 0, 0, 0, 0, 0, 0, 2, 0x78, 0x79, // "xy"
    ];
    assert_eq!(encode(&m), expected);
}

#[test]
fn float_value_is_its_bit_pattern() {
    let mut m = Mapping::new();
    m.insert(key("f"), Value::Float(1.5f32.to_bits()));
    let bytes = encode(&m);
    assert_eq!(&bytes[bytes.len() - 8..], &[0, 0, 0, 2, 0x3f, 0xc0, 0, 0]);
}

#[test]
fn nested_mapping_has_the_documented_bytes() {
    let mut inner = Mapping::new();
    inner.insert(key("i"), Value::Int(258));
    let mut m = Mapping::new();
    m.insert(key("m"), Value::Mapping(inner));
    let expected: Vec<u8> = vec![
        0, 0, 0, 0, 0, 0, 0, 1, // one entry
        0, 0, 0, 0, 0, 0, 0, 1, 0x6d, // key "m"
        0, 0, 0, 3, // tag of a dictionary
        0, 0, 0, 0, 0, 0, 0, 1, // one entry
        0, 0, 0, 0, 0, 0, 0, 1, 0x69, // key "i"
        0, 0, 0, 1, // tag of an integer
        0, 0, 1, 2, // 258
    ];
    assert_eq!(encode(&m), expected);
}

#[test]
fn round_trip_of_a_nested_mapping() {
    let m = sample();
    let bytes = encode(&m);
    assert_eq!(decode(&bytes), Ok(m));
}

#[test]
fn round_trip_of_the_empty_mapping() {
    assert_eq!(decode(&encode(&Mapping::new())), Ok(Mapping::new()));
}

#[test]
fn round_trip_keeps_entry_order() {
    let m = sample();
    let back = decode(&encode(&m)).unwrap();
    assert_eq!(back.keys(), vec![key("a"), key("b"), key("c"), key("d"), key("empty")]);
}

#[test]
fn round_trip_of_text_beyond_ascii() {
    let mut m = Mapping::new();
    m.insert(key("clé"), Value::String(key("日本語 ✓")));
    let bytes = encode(&m);
    // "clé" is four bytes in UTF-8
    assert_eq!(&bytes[8..16], &[0, 0, 0, 0, 0, 0, 0, 4]);
    let back = decode(&bytes).unwrap();
    assert_eq!(back.get(&key("clé")), Some(&Value::String(key("日本語 ✓"))));
    assert_eq!(back, m);
}

#[test]
fn encode_is_deterministic() {
    assert_eq!(encode(&sample()), encode(&sample()));
}

#[test]
fn decode_rejects_no_bytes() {
    assert_eq!(decode(&[]), Err(DecodeFailure::Malformed));
    assert_eq!(DecodeFailure::Malformed.message(), "Couldn't decode cab");
}

#[test]
fn decode_rejects_every_truncation() {
    let bytes = encode(&sample());
    for cut in 0..bytes.len() {
        assert_eq!(decode(&bytes[..cut]), Err(DecodeFailure::Malformed), "cut at {}", cut);
    }
}

#[test]
fn decode_rejects_stray_bytes_after_the_snapshot() {
    let mut bytes = encode(&sample());
    bytes.push(0);
    assert_eq!(decode(&bytes), Err(DecodeFailure::Malformed));
}

#[test]
fn decode_rejects_an_unknown_tag() {
    let bytes: Vec<u8> = vec![
        0, 0, 0, 0, 0, 0, 0, 1, 0, 0, 0, 0, 0, 0, 0, 1, 0x61, 0, 0, 0, 4, 0, 0, 0, 1,
    ];
    assert_eq!(decode(&bytes), Err(DecodeFailure::Malformed));
}

#[test]
fn decode_rejects_a_key_that_is_not_utf8() {
    let bytes: Vec<u8> = vec![
        0, 0, 0, 0, 0, 0, 0, 1, 0, 0, 0, 0, 0, 0, 0, 1, 0xff, 0, 0, 0, 1, 0, 0, 0, 1,
    ];
    assert_eq!(decode(&bytes), Err(DecodeFailure::Malformed));
}

#[test]
fn decode_rejects_a_string_value_that_is_not_utf8() {
    let bytes: Vec<u8> = vec![
        0, 0, 0, 0, 0, 0, 0, 1, 0, 0, 0, 0, 0, 0, 0, 1, 0x61, 0, 0, 0, 0, 0, 0, 0, 0, 0, 0, 0,
        2, 0xc3, 0x28,
    ];
    assert_eq!(decode(&bytes), Err(DecodeFailure::Malformed));
}

#[test]
fn decode_rejects_a_repeated_key() {
    let bytes: Vec<u8> = vec![
        0, 0, 0, 0, 0, 0, 0, 2, // two entries
        0, 0, 0, 0, 0, 0, 0, 1, 0x61, 0, 0, 0, 1, 0, 0, 0, 1, // a = 1
        0, 0, 0, 0, 0, 0, 0, 1, 0x61, 0, 0, 0, 1, 0, 0, 0, 2, // a = 2
    ];
    assert_eq!(decode(&bytes), Err(DecodeFailure::Malformed));
}

#[test]
fn decode_rejects_a_count_larger_than_the_content() {
    let mut bytes = encode(&sample());
    bytes[7] = 6;
    assert_eq!(decode(&bytes), Err(DecodeFailure::Malformed));
    let huge: Vec<u8> = vec![0xff; 8];
    assert_eq!(decode(&huge), Err(DecodeFailure::Malformed));
}

#[test]
fn decode_rejects_a_string_length_larger_than_the_content() {
    let bytes: Vec<u8> = vec![
        0, 0, 0, 0, 0, 0, 0, 1, 0xff, 0xff, 0xff, 0xff, 0xff, 0xff, 0xff, 0xff, 0x61,
    ];
    assert_eq!(decode(&bytes), Err(DecodeFailure::Malformed));
}

#[test]
fn decoded_bytes_encode_to_the_same_bytes() {
    let bytes = encode(&sample());
    let back = decode(&bytes).unwrap();
    assert_eq!(encode(&back), bytes);
}
