use financoor::commit::{commit_ledger, serialize_ledger};
use financoor::sha256::sha256_hash;
use financoor::types::{Category, Direction, LedgerRow};
use sha2::{Digest, Sha256};

fn row(tx_hash: &str, block_time: u64) -> LedgerRow {
    LedgerRow {
        chain_id: 11155111,
        owner_wallet: "0xabc".to_string(),
        tx_hash: tx_hash.to_string(),
        block_time,
        asset: "ETH".to_string(),
        amount: "1.5".to_string(),
        decimals: 18,
        direction: Direction::In,
        counterparty: Some("0xdef".to_string()),
        category: Category::Income,
        confidence: 95,
        user_override: false,
    }
}

#[test]
fn test_sha256_matches_reference_implementation() {
    // Cover every padding branch: empty input, a short tail, tails of
    // 55 and 56 bytes around the one-block/two-block boundary, exactly
    // one block, and a multi-block message.
    for len in [0usize, 3, 55, 56, 63, 64, 65, 120, 128, 200] {
        let data: Vec<u8> = (0..len).map(|i| (i * 7 % 256) as u8).collect();
        let ours = sha256_hash(&data);
        let reference = Sha256::digest(&data).to_vec();
        assert_eq!(ours, reference);
    }
}

#[test]
fn test_sha256_known_vector() {
    // SHA-256 of "abc", the classic published vector.
    let digest = sha256_hash(b"abc");
    let expected = [
        0xbau8, 0x78, 0x16, 0xbf, 0x8f, 0x01, 0xcf, 0xea, 0x41, 0x41, 0x40, 0xde, 0x5d, 0xae,
        0x22, 0x23, 0xb0, 0x03, 0x61, 0xa3, 0x96, 0x17, 0x7a, 0x9c, 0xb4, 0x10, 0xff, 0x61,
        0xf2, 0x00, 0x15, 0xad,
    ];
    assert_eq!(digest, expected.to_vec());
}

#[test]
fn test_empty_ledger_serialization() {
    let bytes = serialize_ledger(&vec![]);
    assert_eq!(bytes, vec![0u8; 8]);
}

#[test]
fn test_commit_is_deterministic() {
    let ledger = vec![row("0x1", 100), row("0x2", 200)];
    let first = commit_ledger(&ledger);
    let second = commit_ledger(&ledger);
    assert_eq!(first, second);
    assert_eq!(first.len(), 32);
}

#[test]
fn test_commit_is_order_sensitive() {
    let forward = vec![row("0x1", 100), row("0x2", 200)];
    let swapped = vec![row("0x2", 200), row("0x1", 100)];
    assert_ne!(commit_ledger(&forward), commit_ledger(&swapped));
}

#[test]
fn test_commit_sees_every_field() {
    let base = vec![row("0x1", 100)];
    let mut changed_amount = base.clone();
    changed_amount[0].amount = "1.6".to_string();
    assert_ne!(commit_ledger(&base), commit_ledger(&changed_amount));
    let mut changed_category = base.clone();
    changed_category[0].category = Category::Gains;
    assert_ne!(commit_ledger(&base), commit_ledger(&changed_category));
    let mut changed_counterparty = base.clone();
    changed_counterparty[0].counterparty = None;
    assert_ne!(commit_ledger(&base), commit_ledger(&changed_counterparty));
}
