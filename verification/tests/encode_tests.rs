use financoor::encode::{decode_public_values, encode_public_values};
use financoor::types::UserType;

#[test]
fn test_encoded_record_is_66_bytes() {
    let commitment = [0xaau8; 32];
    let record = encode_public_values(&commitment, 24_900_000, 0, false);
    assert_eq!(record.len(), 66);
}

#[test]
fn test_encoded_record_layout() {
    let commitment: Vec<u8> = (0u8..32).collect();
    let tax: u64 = 0x0102030405060708;
    let record = encode_public_values(&commitment, tax, 2, true);
    // Bytes 0..32: the commitment, verbatim.
    assert_eq!(&record[0..32], &commitment[..]);
    // Bytes 32..56: zero padding of the 256-bit amount word.
    assert!(record[32..56].iter().all(|b| *b == 0));
    // Bytes 56..64: the amount, big endian.
    assert_eq!(&record[56..64], &[1, 2, 3, 4, 5, 6, 7, 8]);
    // Byte 64: the user-type code; byte 65: the flag.
    assert_eq!(record[64], 2);
    assert_eq!(record[65], 1);
}

#[test]
fn test_tax_word_reads_back_as_paisa_amount() {
    let commitment = [0x11u8; 32];
    let tax: u64 = 24_900_000;
    let record = encode_public_values(&commitment, tax, 0, false);
    let mut read_back: u64 = 0;
    for i in 32..64 {
        read_back = read_back.wrapping_shl(8) | record[i] as u64;
    }
    // The top 24 bytes are zero, so the whole 256-bit word fits the u64.
    assert_eq!(read_back, tax);
}

#[test]
fn test_encode_decode_roundtrip() {
    let commitment = [0x42u8; 32];
    let record = encode_public_values(&commitment, 2_589_600, 1, true);
    let decoded = decode_public_values(&record).expect("well-formed record");
    assert_eq!(decoded.ledger_commitment, commitment.to_vec());
    assert_eq!(decoded.total_tax_paisa, 2_589_600);
    assert_eq!(decoded.user_type, UserType::Huf);
    assert!(decoded.used_44ada);
}

#[test]
fn test_decode_rejects_wrong_length() {
    let record = encode_public_values(&[0u8; 32], 1, 0, false);
    let mut short = record.clone();
    short.pop();
    assert!(decode_public_values(&short).is_none());
    let mut long = record.clone();
    long.push(0);
    assert!(decode_public_values(&long).is_none());
}

#[test]
fn test_decode_rejects_dirty_padding() {
    let mut record = encode_public_values(&[0u8; 32], 1, 0, false);
    record[40] = 7;
    assert!(decode_public_values(&record).is_none());
}

#[test]
fn test_decode_rejects_unknown_user_code() {
    let mut record = encode_public_values(&[0u8; 32], 1, 0, false);
    record[64] = 3;
    assert!(decode_public_values(&record).is_none());
}

#[test]
fn test_decode_rejects_bad_flag_byte() {
    let mut record = encode_public_values(&[0u8; 32], 1, 0, false);
    record[65] = 2;
    assert!(decode_public_values(&record).is_none());
}
