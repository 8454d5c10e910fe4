use financoor::normalize::{normalize_transfer, sort_ledger_by_block_time};
use financoor::types::{Category, Direction, LedgerRow};

fn normalize(
    direction: Direction,
    to_addr: Option<&str>,
    amount: &str,
    asset: Option<&str>,
    kind: &str,
) -> Option<LedgerRow> {
    normalize_transfer(
        "0xOwner",
        direction,
        "0xhash".to_string(),
        "0xfrom".to_string(),
        to_addr.map(|s| s.to_string()),
        amount.to_string(),
        asset.map(|s| s.to_string()),
        kind.to_string(),
        1700000000,
    )
}

#[test]
fn test_normalize_external_inflow() {
    let row = normalize(Direction::In, Some("0xto"), "1.5", None, "external").unwrap();
    assert_eq!(row.chain_id, 11155111);
    assert_eq!(row.owner_wallet, "0xowner");
    assert_eq!(row.tx_hash, "0xhash");
    assert_eq!(row.block_time, 1700000000);
    assert_eq!(row.asset, "ETH");
    assert_eq!(row.amount, "1.5");
    assert_eq!(row.decimals, 18);
    assert_eq!(row.direction, Direction::In);
    assert_eq!(row.counterparty.as_deref(), Some("0xfrom"));
    assert_eq!(row.category, Category::Unknown);
    assert_eq!(row.confidence, 0);
    assert!(!row.user_override);
}

#[test]
fn test_normalize_outflow_counterparty_is_recipient() {
    let row = normalize(Direction::Out, Some("0xto"), "2", Some("DAI"), "erc20").unwrap();
    assert_eq!(row.counterparty.as_deref(), Some("0xto"));
    assert_eq!(row.asset, "DAI");
}

#[test]
fn test_normalize_missing_symbol_becomes_unknown() {
    let row = normalize(Direction::In, None, "2", None, "erc20").unwrap();
    assert_eq!(row.asset, "UNKNOWN");
}

#[test]
fn test_normalize_drops_zero_and_malformed() {
    assert!(normalize(Direction::In, None, "0", None, "external").is_none());
    assert!(normalize(Direction::In, None, "0.0", None, "external").is_none());
    assert!(normalize(Direction::In, None, "junk", None, "external").is_none());
    // A tiny but nonzero value stays.
    assert!(normalize(Direction::In, None, "0.005", None, "external").is_some());
}

fn timed_row(tx_hash: &str, block_time: u64) -> LedgerRow {
    LedgerRow {
        chain_id: 11155111,
        owner_wallet: "0xabc".to_string(),
        tx_hash: tx_hash.to_string(),
        block_time,
        asset: "ETH".to_string(),
        amount: "1".to_string(),
        decimals: 18,
        direction: Direction::In,
        counterparty: None,
        category: Category::Unknown,
        confidence: 0,
        user_override: false,
    }
}

#[test]
fn test_sort_ledger_orders_by_block_time() {
    let mut ledger = vec![
        timed_row("0xc", 300),
        timed_row("0xa", 100),
        timed_row("0xd", 400),
        timed_row("0xb", 200),
    ];
    sort_ledger_by_block_time(&mut ledger);
    let times: Vec<u64> = ledger.iter().map(|r| r.block_time).collect();
    assert_eq!(times, vec![100, 200, 300, 400]);
    let hashes: Vec<&str> = ledger.iter().map(|r| r.tx_hash.as_str()).collect();
    assert_eq!(hashes, vec!["0xa", "0xb", "0xc", "0xd"]);
}

#[test]
fn test_sort_ledger_keeps_equal_times() {
    let mut ledger = vec![timed_row("0x1", 5), timed_row("0x2", 5), timed_row("0x3", 1)];
    sort_ledger_by_block_time(&mut ledger);
    assert_eq!(ledger.len(), 3);
    assert_eq!(ledger[0].block_time, 1);
    assert_eq!(ledger[1].block_time, 5);
    assert_eq!(ledger[2].block_time, 5);
}
