use financoor::artifacts::build_proof_artifacts;
use financoor::encode::encode_public_values;

#[test]
fn test_build_artifacts_from_full_record() {
    let commitment = [0xabu8; 32];
    let public_values = encode_public_values(&commitment, 2_589_600, 0, false);
    let proof_bytes = b"proof".to_vec();
    let artifacts = build_proof_artifacts(&proof_bytes, &public_values, "0xvk".to_string());
    assert_eq!(artifacts.ledger_commitment, "ab".repeat(32));
    assert_eq!(artifacts.total_tax_paisa, 2_589_600);
    assert_eq!(artifacts.vk_hash, "0xvk");
    assert_eq!(artifacts.proof, "cHJvb2Y=");
    assert_eq!(artifacts.public_values.len(), 4 * ((66 + 2) / 3));
}

#[test]
fn test_hex_commitment_uses_lowercase_pairs() {
    let mut commitment = [0u8; 32];
    commitment[0] = 0x0f;
    commitment[1] = 0xf0;
    commitment[31] = 0x1a;
    let public_values = encode_public_values(&commitment, 0, 0, false);
    let artifacts = build_proof_artifacts(&[], &public_values, String::new());
    assert!(artifacts.ledger_commitment.starts_with("0ff0"));
    assert!(artifacts.ledger_commitment.ends_with("1a"));
    assert_eq!(artifacts.ledger_commitment.len(), 64);
}

#[test]
fn test_base64_of_known_input() {
    let artifacts = build_proof_artifacts(b"hello", &[], String::new());
    assert_eq!(artifacts.proof, "aGVsbG8=");
}

#[test]
fn test_short_public_values_degrade() {
    let artifacts = build_proof_artifacts(&[], &[1, 2, 3], "vk".to_string());
    assert_eq!(artifacts.ledger_commitment, "");
    assert_eq!(artifacts.total_tax_paisa, 0);
    // 40 bytes carry a commitment but no complete amount word.
    let partial = build_proof_artifacts(&[], &[0u8; 40], "vk".to_string());
    assert_eq!(partial.ledger_commitment, "00".repeat(32));
    assert_eq!(partial.total_tax_paisa, 0);
}
