use actionkv::error::StoreError;
use actionkv::record::{accept, decode, encode, frame, split_frame, HEADER_LEN};

#[test]
fn encode_lays_out_checksum_lengths_and_payload() {
    assert_eq!(
        encode(b"a", b"1"),
        vec![35, 72, 225, 108, 1, 0, 0, 0, 1, 0, 0, 0, b'a', b'1']
    );
    assert_eq!(
        encode(b"key", b"value"),
        vec![
            230, 243, 85, 198, 3, 0, 0, 0, 5, 0, 0, 0, b'k', b'e', b'y', b'v', b'a', b'l', b'u',
            b'e'
        ]
    );
}

#[test]
fn encode_of_an_empty_record_is_a_header_of_zeros() {
    assert_eq!(encode(b"", b""), vec![0u8; HEADER_LEN]);
}

#[test]
fn encode_writes_lengths_least_significant_byte_first() {
    let key = vec![7u8; 0x0102];
    let value = vec![9u8; 0x01_0003];
    let bytes = encode(&key, &value);
    assert_eq!(&bytes[4..8], &[0x02, 0x01, 0x00, 0x00]);
    assert_eq!(&bytes[8..12], &[0x03, 0x00, 0x01, 0x00]);
    assert_eq!(bytes.len(), HEADER_LEN + 0x0102 + 0x01_0003);
}

#[test]
fn decode_gives_back_what_encode_took() {
    let cases: [(&[u8], &[u8]); 5] = [
        (b"a", b"1"),
        (b"", b""),
        (b"key", b""),
        (b"", b"value"),
        (&[0, 255, 1, 254], &[0xde, 0xad, 0xbe, 0xef, 0]),
    ];
    for (key, value) in cases {
        let pair = decode(&encode(key, value)).unwrap().unwrap();
        assert_eq!(pair.key, key);
        assert_eq!(pair.value, value);
    }
}

#[test]
fn decode_reads_long_lengths() {
    let key = vec![7u8; 0x0102];
    let value = vec![9u8; 0x01_0003];
    let pair = decode(&encode(&key, &value)).unwrap().unwrap();
    assert_eq!(pair.key, key);
    assert_eq!(pair.value, value);
}

#[test]
fn decode_reads_only_the_first_record() {
    let mut bytes = encode(b"a", b"1");
    bytes.extend_from_slice(&encode(b"b", b"2"));
    let pair = decode(&bytes).unwrap().unwrap();
    assert_eq!(pair.key, b"a");
    assert_eq!(pair.value, b"1");
}

#[test]
fn decode_of_no_bytes_is_the_end_of_the_log() {
    assert!(matches!(decode(&[]), Ok(None)));
}

#[test]
fn decode_of_a_partial_header_is_truncated() {
    let bytes = encode(b"a", b"1");
    for cut in 1..HEADER_LEN {
        assert!(matches!(decode(&bytes[..cut]), Err(StoreError::Truncated)));
    }
}

#[test]
fn decode_of_a_partial_payload_is_truncated() {
    let bytes = encode(b"key", b"value");
    for cut in HEADER_LEN..bytes.len() {
        assert!(matches!(decode(&bytes[..cut]), Err(StoreError::Truncated)));
    }
}

#[test]
fn decode_of_lengths_past_the_end_is_truncated() {
    let mut bytes = encode(b"a", b"1");
    bytes[4..8].copy_from_slice(&[0xff, 0xff, 0xff, 0xff]);
    bytes[8..12].copy_from_slice(&[0xff, 0xff, 0xff, 0xff]);
    assert!(matches!(decode(&bytes), Err(StoreError::Truncated)));
}

#[test]
fn decode_detects_every_flipped_payload_bit() {
    let bytes = encode(b"key", b"value");
    for at in HEADER_LEN..bytes.len() {
        for bit in 0..8 {
            let mut damaged = bytes.clone();
            damaged[at] ^= 1 << bit;
            assert!(matches!(decode(&damaged), Err(StoreError::Corruption)));
        }
    }
}

#[test]
fn decode_detects_a_damaged_checksum() {
    let mut bytes = encode(b"key", b"value");
    bytes[0] ^= 0x80;
    assert!(matches!(decode(&bytes), Err(StoreError::Corruption)));
}

#[test]
fn frame_lays_out_the_checksum_it_is_given() {
    assert_eq!(
        frame(0x0403_0201, b"k", b"vw"),
        vec![1, 2, 3, 4, 1, 0, 0, 0, 2, 0, 0, 0, b'k', b'v', b'w']
    );
    assert_eq!(frame(0, b"", b""), vec![0u8; 12]);
    assert_eq!(frame(u32::MAX, b"", b"x"), vec![255, 255, 255, 255, 0, 0, 0, 0, 1, 0, 0, 0, b'x']);
}

#[test]
fn split_frame_finds_checksum_key_length_and_payload() {
    let bytes = [1, 2, 3, 4, 1, 0, 0, 0, 2, 0, 0, 0, b'k', b'v', b'w', 99, 98];
    assert_eq!(split_frame(&bytes), Ok(Some((0x0403_0201, 1, &b"kvw"[..]))));
    assert_eq!(split_frame(&bytes[..15]), Ok(Some((0x0403_0201, 1, &b"kvw"[..]))));
    let empty = [0u8; 12];
    assert_eq!(split_frame(&empty), Ok(Some((0, 0, &b""[..]))));
}

#[test]
fn split_frame_tells_the_end_from_a_truncated_record() {
    let bytes = [1, 2, 3, 4, 1, 0, 0, 0, 2, 0, 0, 0, b'k', b'v', b'w'];
    assert_eq!(split_frame(&[]), Ok(None));
    for cut in 1..bytes.len() {
        assert_eq!(split_frame(&bytes[..cut]), Err(StoreError::Truncated));
    }
}

#[test]
fn accept_splits_a_payload_whose_checksum_matches() {
    let pair = accept(7, 7, 1, b"kvw").unwrap();
    assert_eq!(pair.key, b"k");
    assert_eq!(pair.value, b"vw");
    let pair = accept(0, 0, 0, b"vw").unwrap();
    assert_eq!(pair.key, b"");
    assert_eq!(pair.value, b"vw");
    let pair = accept(u32::MAX, u32::MAX, 3, b"kvw").unwrap();
    assert_eq!(pair.key, b"kvw");
    assert_eq!(pair.value, b"");
}

#[test]
fn accept_refuses_a_payload_whose_checksum_differs() {
    assert_eq!(accept(7, 8, 1, b"kvw"), Err(StoreError::Corruption));
    assert_eq!(accept(0, u32::MAX, 0, b""), Err(StoreError::Corruption));
}
