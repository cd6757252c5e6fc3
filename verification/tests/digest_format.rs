use const_sha1::{process_state, sha1, Digest};

#[test]
fn as_bytes_is_big_endian() {
    let bytes = sha1(b"abc").as_bytes();
    assert_eq!(
        bytes,
        [
            169, 153, 62, 54, 71, 6, 129, 106, 186, 62, 37, 113, 120, 80, 194, 108, 156, 208,
            216, 157
        ]
    );
}

#[test]
fn as_bytes_has_twenty_bytes() {
    for input in [&b""[..], &b"abc"[..], &[0u8; 200][..]] {
        assert_eq!(sha1(input).as_bytes().len(), 20);
    }
}

#[test]
fn hex_has_forty_lowercase_digits() {
    for len in 0..130usize {
        let text = sha1(&vec![len as u8; len]).to_string();
        assert_eq!(text.len(), 40);
        assert!(text.bytes().all(|c| matches!(c, b'0'..=b'9' | b'a'..=b'f')));
    }
}

#[test]
fn hex_spells_the_bytes() {
    let digest = sha1(b"hello world");
    let text = digest.to_string();
    assert_eq!(text, "2aae6c35c94fcfb415dbe95f408b9ce91ee846ed");
    let bytes = digest.as_bytes();
    for i in 0..20 {
        assert_eq!(u8::from_str_radix(&text[2 * i..2 * i + 2], 16).unwrap(), bytes[i]);
    }
}

#[test]
fn hex_keeps_leading_zeros() {
    // The digest of this input starts with a zero digit.
    let text = sha1(&[b'x'; 57]).to_string();
    assert_eq!(text, "025ecbd5d70f8fb3c5457cd96bab13fda305dc59");
}

#[test]
fn digests_compare_by_value() {
    let first: Digest = sha1(b"abc");
    let again: Digest = sha1(b"abc");
    let other: Digest = sha1(b"abd");
    assert_eq!(first, again);
    assert_ne!(first, other);
}

#[test]
fn compression_of_the_padded_empty_message() {
    let start = [0x67452301, 0xefcdab89, 0x98badcfe, 0x10325476, 0xc3d2e1f0];
    let mut block = [0u32; 16];
    block[0] = 0x8000_0000;
    assert_eq!(
        process_state(start, block),
        [0xda39a3ee, 0x5e6b4b0d, 0x3255bfef, 0x95601890, 0xafd80709]
    );
}

#[test]
fn compression_of_the_padded_three_letters() {
    let start = [0x67452301, 0xefcdab89, 0x98badcfe, 0x10325476, 0xc3d2e1f0];
    let mut block = [0u32; 16];
    block[0] = 0x6162_6380;
    block[15] = 24;
    assert_eq!(
        process_state(start, block),
        [0xa9993e36, 0x4706816a, 0xba3e2571, 0x7850c26c, 0x9cd0d89d]
    );
}
