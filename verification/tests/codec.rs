use jni::JavaChars;
use jni::j_chars::decode_buffer;

fn round_trip(s: &str) -> String {
    let chars = JavaChars::new(s);
    chars.to_string().expect("a buffer made by the encoder must decode")
}

#[test]
fn test_encode_empty() {
    let chars = JavaChars::new("");
    assert_eq!(chars.as_vec().as_slice(), &[0u8]);
    assert_eq!(chars.to_string(), Some(String::new()));
}

#[test]
fn test_decode_terminator_only() {
    assert_eq!(decode_buffer(&vec![0u8]), Some(Vec::new()));
}

#[test]
fn test_encode_ascii() {
    let chars = JavaChars::new("Hello, world!");
    let mut expected: Vec<u8> = b"Hello, world!".to_vec();
    expected.push(0);
    assert_eq!(chars.as_vec(), &expected);
    assert_eq!(round_trip("Hello, world!"), "Hello, world!");
}

#[test]
fn test_encode_is_pure() {
    let a = JavaChars::new("déjà vu \u{10348}");
    let b = JavaChars::new("déjà vu \u{10348}");
    assert_eq!(a.as_vec(), b.as_vec());
}

#[test]
fn test_nul_is_overlong_and_round_trips() {
    let chars = JavaChars::new("\u{0}a");
    assert_eq!(chars.as_vec().as_slice(), &[0xC0, 0x80, 0x61, 0x00]);
    // the embedded NUL comes back as a character, not as end-of-string
    assert_eq!(round_trip("\u{0}a"), "\u{0}a");
}

#[test]
fn test_two_and_three_byte_groups() {
    assert_eq!(JavaChars::new("é").as_vec().as_slice(), &[0xC3, 0xA9, 0x00]);
    assert_eq!(JavaChars::new("€").as_vec().as_slice(), &[0xE2, 0x82, 0xAC, 0x00]);
    assert_eq!(JavaChars::new("\u{D7FF}").as_vec().as_slice(), &[0xED, 0x9F, 0xBF, 0x00]);
    assert_eq!(JavaChars::new("\u{E000}").as_vec().as_slice(), &[0xEE, 0x80, 0x80, 0x00]);
    assert_eq!(JavaChars::new("\u{FFFF}").as_vec().as_slice(), &[0xEF, 0xBF, 0xBF, 0x00]);
    for s in &["é", "€", "\u{D7FF}", "\u{E000}", "\u{FFFF}"] {
        assert_eq!(&round_trip(s), s);
    }
}

#[test]
fn test_supplementary_groups() {
    // six bytes: two three-byte groups led by ED, as a surrogate pair
    assert_eq!(
        JavaChars::new("\u{10000}").as_vec().as_slice(),
        &[0xED, 0xA0, 0x80, 0xED, 0xB0, 0x80, 0x00],
    );
    assert_eq!(
        JavaChars::new("\u{10FFFF}").as_vec().as_slice(),
        &[0xED, 0xAF, 0xBF, 0xED, 0xBF, 0xBF, 0x00],
    );
    assert_eq!(round_trip("\u{10000}"), "\u{10000}");
    assert_eq!(round_trip("\u{1D11E}"), "\u{1D11E}");
    assert_eq!(round_trip("\u{10FFFF}"), "\u{10FFFF}");
}

#[test]
fn test_round_trip_basic_plane_exhaustive() {
    let mut batch = String::new();
    for v in 1u32..0x10000 {
        if let Some(c) = char::from_u32(v) {
            batch.push(c);
            if batch.len() > 4096 {
                assert_eq!(round_trip(&batch), batch);
                batch.clear();
            }
        }
    }
    assert_eq!(round_trip(&batch), batch);
}

#[test]
fn test_round_trip_supplementary_exhaustive() {
    let mut batch = String::new();
    for v in 0x10000u32..=0x10FFFF {
        let c = char::from_u32(v).unwrap();
        batch.push(c);
        if batch.len() > 8192 {
            assert_eq!(round_trip(&batch), batch);
            batch.clear();
        }
    }
    assert_eq!(round_trip(&batch), batch);
}

#[test]
fn test_invalid_high_surrogate_marker() {
    // lead ED, second byte with top bits 101 but the 0x10 bit set: the
    // low-surrogate marker cannot open a pair
    assert_eq!(decode_buffer(&vec![0xED, 0xB0, 0x80, 0xED, 0xB0, 0x80, 0x00]), None);
    assert_eq!(decode_buffer(&vec![0xED, 0xBF, 0xBF, 0x00]), None);
}

#[test]
fn test_broken_surrogate_pairs() {
    // high group not followed by a second ED lead
    assert_eq!(decode_buffer(&vec![0xED, 0xA0, 0x80, 0x41, 0x00]), None);
    // low group with a bad marker nibble
    assert_eq!(decode_buffer(&vec![0xED, 0xA0, 0x80, 0xED, 0xA0, 0x80, 0x00]), None);
    // bad continuation inside the high group
    assert_eq!(decode_buffer(&vec![0xED, 0xA5, 0x41, 0xED, 0xB0, 0x80, 0x00]), None);
    // truncated before the pair completes
    assert_eq!(decode_buffer(&vec![0xED, 0xA0, 0x80, 0x00]), None);
}

#[test]
fn test_malformed_leads_and_overlong_forms() {
    // a bare continuation byte in lead position
    assert_eq!(decode_buffer(&vec![0x80, 0x00]), None);
    // leads above the three-byte range: never produced by the encoder
    assert_eq!(decode_buffer(&vec![0xF0, 0x90, 0x80, 0x80, 0x00]), None);
    assert_eq!(decode_buffer(&vec![0xFF, 0x00]), None);
    // C0 before anything but 80 is an overlong form
    assert_eq!(decode_buffer(&vec![0xC0, 0x81, 0x00]), None);
    // C1 can only open overlong forms
    assert_eq!(decode_buffer(&vec![0xC1, 0x80, 0x00]), None);
    // overlong three-byte form
    assert_eq!(decode_buffer(&vec![0xE0, 0x80, 0x80, 0x00]), None);
    // two-byte group missing its continuation marker
    assert_eq!(decode_buffer(&vec![0xC3, 0x29, 0x00]), None);
}

#[test]
fn test_missing_terminator() {
    assert_eq!(decode_buffer(&vec![]), None);
    assert_eq!(decode_buffer(&vec![0x41]), None);
    assert_eq!(decode_buffer(&vec![0xC3, 0xA9]), None);
}

#[test]
fn test_bytes_after_terminator_are_ignored() {
    let decoded = decode_buffer(&vec![0x41, 0x00, 0xFF, 0xFF]);
    assert_eq!(decoded, Some(vec!['A']));
}
