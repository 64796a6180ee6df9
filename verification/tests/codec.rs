use session_links::codec::{decode, encode, DecodeError};

fn container(block: &[u8]) -> Vec<u8> {
    let mut v = b"mozLz40\x00".to_vec();
    v.extend_from_slice(block);
    v
}

#[test]
fn round_trip_short() {
    let p = b"hello".to_vec();
    let enc = encode(&p);
    assert_eq!(decode(&enc), Ok(p));
}

#[test]
fn round_trip_empty() {
    let p = Vec::new();
    let enc = encode(&p);
    assert_eq!(decode(&enc), Ok(p));
}

#[test]
fn round_trip_fifteen_bytes() {
    let p = b"exactly 15 byte".to_vec();
    assert_eq!(p.len(), 15);
    let enc = encode(&p);
    assert_eq!(decode(&enc), Ok(p));
}

#[test]
fn round_trip_long() {
    let mut p = Vec::new();
    for i in 0..5000usize {
        p.push((i % 251) as u8);
    }
    let enc = encode(&p);
    assert_eq!(decode(&enc), Ok(p));
}

#[test]
fn round_trip_length_needing_multiple_extension_bytes() {
    let p = vec![7u8; 15 + 255 + 255 + 3];
    let enc = encode(&p);
    assert_eq!(decode(&enc), Ok(p));
}

#[test]
fn decode_match_copy() {
    // Token 0x40: four literals, minimal match; offset 4 repeats "abcd".
    let raw = container(&[&[0x40u8][..], &b"abcd"[..], &[0x04, 0x00][..]].concat());
    assert_eq!(decode(&raw), Ok(b"abcdabcd".to_vec()));
}

#[test]
fn decode_overlapping_match() {
    // One literal "a", then a match of four with offset 1: "a" repeated.
    let raw = container(&[&[0x10u8][..], &b"a"[..], &[0x01, 0x00][..]].concat());
    assert_eq!(decode(&raw), Ok(b"aaaaa".to_vec()));
}

#[test]
fn decode_match_with_extended_length() {
    // Match nibble 15 plus an extension byte of 2: 15 + 2 + 4 = 21 copies.
    let raw = container(&[&[0x1Fu8][..], &b"x"[..], &[0x01, 0x00][..], &[0x02][..]].concat());
    assert_eq!(decode(&raw), Ok(vec![b'x'; 22]));
}

#[test]
fn decode_bad_magic() {
    assert_eq!(decode(&b"junk data".to_vec()), Err(DecodeError::BadMagic));
    assert_eq!(decode(&b"mozLz4".to_vec()), Err(DecodeError::BadMagic));
    assert_eq!(decode(&Vec::new()), Err(DecodeError::BadMagic));
}

#[test]
fn decode_zero_offset_is_corrupt() {
    let raw = container(&[&[0x10u8][..], &b"a"[..], &[0x00, 0x00][..]].concat());
    assert_eq!(decode(&raw), Err(DecodeError::Corrupt));
}

#[test]
fn decode_offset_past_output_start_is_corrupt() {
    let raw = container(&[&[0x10u8][..], &b"a"[..], &[0x05, 0x00][..]].concat());
    assert_eq!(decode(&raw), Err(DecodeError::Corrupt));
}

#[test]
fn decode_truncated_offset_is_corrupt() {
    let raw = container(&[&[0x10u8][..], &b"a"[..], &[0x01][..]].concat());
    assert_eq!(decode(&raw), Err(DecodeError::Corrupt));
}

#[test]
fn decode_truncated_literals_are_corrupt() {
    let raw = container(&[&[0x30u8][..], &b"ab"[..]].concat());
    assert_eq!(decode(&raw), Err(DecodeError::Corrupt));
}

#[test]
fn decode_truncated_length_extension_is_corrupt() {
    // Literal nibble 15 and then the input ends inside the extension run.
    let raw = container(&[0xF0u8, 0xFF, 0xFF]);
    assert_eq!(decode(&raw), Err(DecodeError::Corrupt));
}

#[test]
fn decode_oversized_input_hits_size_limit() {
    let mut raw = b"mozLz40\x00".to_vec();
    raw.resize(17_000_000, 0);
    assert_eq!(decode(&raw), Err(DecodeError::SizeLimitExceeded));
}
