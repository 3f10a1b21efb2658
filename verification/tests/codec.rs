//! Tests of the record codec: round trips and robustness of decoding.

use blazekv::encoder::WalCodec;
use blazekv::entry::WalEntry;
use blazekv::error::DecodeError;
use blazekv::error::WalError;

#[test]
fn test_encode_wal_entry() {
    let entry = WalEntry::Put { key: "key1".into(), data: vec![1, 2, 3] };

    let bytes = WalCodec::new().encode(&entry).expect("encoding failed");

    assert!(!bytes.is_empty());
}

#[test]
fn test_decode_wal_entry() {
    let entry = WalEntry::Put { key: "key1".into(), data: vec![1, 2, 3] };

    let bytes = WalCodec::new().encode(&entry).expect("encoding failed");

    let decoded_entry: WalEntry = WalCodec::new().decode(&bytes).expect("decoding failed");

    assert_eq!(entry, decoded_entry);
}

#[test]
fn test_decode_error_handling() {
    let invalid_bytes: Vec<u8> = vec![0, 1, 2, 3];

    let result = WalCodec::new().decode(&invalid_bytes);

    assert!(matches!(result, Err(WalError::Decode(_))));
}

#[test]
fn round_trip_put_with_unicode_key() {
    let codec = WalCodec::new();
    let entry = WalEntry::Put { key: "clé→值".to_string(), data: b"payload".to_vec() };
    let bytes = codec.encode(&entry).expect("encoding failed");
    let (decoded, consumed) = codec.decode_record(&bytes).expect("decoding failed");
    assert_eq!(decoded, entry);
    assert_eq!(consumed, bytes.len());
}

#[test]
fn round_trip_delete() {
    let codec = WalCodec::new();
    let entry = WalEntry::Delete { key: "key1".to_string() };
    let bytes = codec.encode(&entry).expect("encoding failed");
    let decoded = codec.decode(&bytes).expect("decoding failed");
    assert_eq!(decoded, entry);
}

#[test]
fn round_trip_empty_key_and_data() {
    let codec = WalCodec::new();
    let entry = WalEntry::Put { key: String::new(), data: Vec::new() };
    let bytes = codec.encode(&entry).expect("encoding failed");
    // Tag, key length header, payload length header: nothing else.
    assert_eq!(bytes.len(), 17);
    let (decoded, consumed) = codec.decode_record(&bytes).expect("decoding failed");
    assert_eq!(decoded, entry);
    assert_eq!(consumed, 17);
}

#[test]
fn decode_rejects_empty_input() {
    let result = WalCodec::new().decode(&[]);
    assert!(matches!(result, Err(WalError::Decode(DecodeError::Truncated))));
}

#[test]
fn decode_rejects_unknown_tag() {
    let result = WalCodec::new().decode(&[7, 0, 0, 0, 0, 0, 0, 0, 0]);
    assert!(matches!(result, Err(WalError::Decode(DecodeError::UnknownTag))));
}

#[test]
fn decode_rejects_truncated_record() {
    let codec = WalCodec::new();
    let entry = WalEntry::Put { key: "key1".to_string(), data: vec![9, 9, 9] };
    let bytes = codec.encode(&entry).expect("encoding failed");
    for cut in 0..bytes.len() {
        let result = codec.decode(&bytes[..cut]);
        assert!(matches!(result, Err(WalError::Decode(_))), "prefix of {} bytes", cut);
    }
}

#[test]
fn decode_rejects_surrogate_character_code() {
    // A delete record claiming one key character whose code, 0xD800, is
    // a surrogate and so never a char.
    let mut bytes: Vec<u8> = vec![1];
    bytes.extend_from_slice(&1u64.to_le_bytes());
    bytes.extend_from_slice(&0xD800u32.to_le_bytes());
    let result = WalCodec::new().decode(&bytes);
    assert!(matches!(result, Err(WalError::Decode(DecodeError::InvalidChar))));
}

#[test]
fn decode_never_panics_on_garbage() {
    let codec = WalCodec::new();
    // A deterministic spray of byte soup, including length headers that
    // claim far more than the buffer holds.
    let mut seed: u64 = 0x9E3779B97F4A7C15;
    for len in 0..64usize {
        let mut bytes = Vec::with_capacity(len);
        for _ in 0..len {
            seed = seed.wrapping_mul(6364136223846793005).wrapping_add(1442695040888963407);
            bytes.push((seed >> 33) as u8);
        }
        let _ = codec.decode(&bytes);
    }
    let huge_claim: Vec<u8> = {
        let mut b = vec![0u8];
        b.extend_from_slice(&u64::MAX.to_le_bytes());
        b
    };
    assert!(matches!(codec.decode(&huge_claim), Err(WalError::Decode(DecodeError::Truncated))));
}

#[test]
fn decode_ignores_trailing_bytes() {
    let codec = WalCodec::new();
    let entry = WalEntry::Put { key: "k".to_string(), data: vec![1] };
    let mut bytes = codec.encode(&entry).expect("encoding failed");
    let record_len = bytes.len();
    bytes.extend_from_slice(&[0xFF, 0xEE, 0xDD]);
    let (decoded, consumed) = codec.decode_record(&bytes).expect("decoding failed");
    assert_eq!(decoded, entry);
    assert_eq!(consumed, record_len);
}
