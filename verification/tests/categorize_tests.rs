use financoor::categorize::{categorize_ledger, categorize_transaction, KnownContracts};
use financoor::types::{Category, Direction, LedgerRow};

fn row(direction: Direction, amount: &str, counterparty: Option<&str>) -> LedgerRow {
    LedgerRow {
        chain_id: 11155111,
        owner_wallet: "0xabc".to_string(),
        tx_hash: "0x123".to_string(),
        block_time: 1234567890,
        asset: "ETH".to_string(),
        amount: amount.to_string(),
        decimals: 18,
        direction,
        counterparty: counterparty.map(|s| s.to_string()),
        category: Category::Unknown,
        confidence: 0,
        user_override: false,
    }
}

fn contracts(profit: &str, loss: &str, yield_farm: &str) -> KnownContracts {
    KnownContracts {
        profit_machine: profit.to_string(),
        loss_machine: loss.to_string(),
        yield_farm: yield_farm.to_string(),
    }
}

#[test]
fn test_internal_categorization() {
    let row = row(Direction::In, "1.0", Some("0xdef"));
    let wallets = vec!["0xabc".to_string(), "0xdef".to_string()];
    let result = categorize_transaction(&row, &wallets, &KnownContracts::none());
    assert_eq!(result.category, Category::Internal);
    assert_eq!(result.confidence, 100);
}

#[test]
fn test_small_eth_outflow_is_fee() {
    let row = row(Direction::Out, "0.005", Some("0xcontract"));
    let wallets = vec!["0xabc".to_string()];
    let result = categorize_transaction(&row, &wallets, &KnownContracts::none());
    assert_eq!(result.category, Category::Fees);
}

#[test]
fn test_internal_beats_every_other_rule() {
    // Own-address match wins even for a small outbound native transfer.
    let row = row(Direction::Out, "0.001", Some("0xDEF"));
    let wallets = vec!["0xdef".to_string()];
    let result = categorize_transaction(&row, &wallets, &KnownContracts::none());
    assert_eq!(result.category, Category::Internal);
    assert_eq!(result.confidence, 100);
}

#[test]
fn test_case_insensitive_wallet_match() {
    let row = row(Direction::In, "1.0", Some("0xAbCdEf"));
    let wallets = vec!["0xABCDEF".to_string()];
    let result = categorize_transaction(&row, &wallets, &KnownContracts::none());
    assert_eq!(result.category, Category::Internal);
}

#[test]
fn test_inflow_from_profit_machine_is_gains() {
    let row = row(Direction::In, "2.0", Some("0xPROFIT"));
    let wallets = vec!["0xabc".to_string()];
    let result = categorize_transaction(&row, &wallets, &contracts("0xprofit", "", ""));
    assert_eq!(result.category, Category::Gains);
    assert_eq!(result.confidence, 95);
}

#[test]
fn test_inflow_from_loss_machine_is_losses() {
    let row = row(Direction::In, "0.4", Some("0xloss"));
    let wallets = vec!["0xabc".to_string()];
    let result = categorize_transaction(&row, &wallets, &contracts("", "0xloss", ""));
    assert_eq!(result.category, Category::Losses);
    assert_eq!(result.confidence, 95);
}

#[test]
fn test_outflow_to_known_contract_is_deposit_leg() {
    let wallets = vec!["0xabc".to_string()];
    let cfg = contracts("0xprofit", "0xloss", "0xyield");
    let to_profit = categorize_transaction(&row(Direction::Out, "1.0", Some("0xprofit")), &wallets, &cfg);
    assert_eq!(to_profit.category, Category::Gains);
    assert_eq!(to_profit.confidence, 90);
    let to_loss = categorize_transaction(&row(Direction::Out, "1.0", Some("0xloss")), &wallets, &cfg);
    assert_eq!(to_loss.category, Category::Losses);
    assert_eq!(to_loss.confidence, 90);
    let to_yield = categorize_transaction(&row(Direction::Out, "1.0", Some("0xyield")), &wallets, &cfg);
    assert_eq!(to_yield.category, Category::Gains);
    assert_eq!(to_yield.confidence, 90);
}

#[test]
fn test_empty_configured_contract_never_matches() {
    // An empty counterparty must not ride an unset (empty) contract entry.
    let row = row(Direction::In, "1.0", Some(""));
    let wallets = vec!["0xabc".to_string()];
    let result = categorize_transaction(&row, &wallets, &KnownContracts::none());
    assert_eq!(result.category, Category::Income);
    assert_eq!(result.confidence, 60);
}

#[test]
fn test_plain_inflow_is_income() {
    let row = row(Direction::In, "3.0", Some("0xsomeone"));
    let wallets = vec!["0xabc".to_string()];
    let result = categorize_transaction(&row, &wallets, &KnownContracts::none());
    assert_eq!(result.category, Category::Income);
    assert_eq!(result.confidence, 60);
}

#[test]
fn test_large_outflow_is_unknown() {
    let row = row(Direction::Out, "5.0", Some("0xsomeone"));
    let wallets = vec!["0xabc".to_string()];
    let result = categorize_transaction(&row, &wallets, &KnownContracts::none());
    assert_eq!(result.category, Category::Unknown);
    assert_eq!(result.confidence, 0);
}

#[test]
fn test_categorize_ledger_respects_user_override() {
    let mut overridden = row(Direction::In, "1.0", Some("0xdef"));
    overridden.category = Category::Fees;
    overridden.confidence = 100;
    overridden.user_override = true;
    let plain = row(Direction::In, "1.0", Some("0xdef"));
    let mut ledger = vec![overridden, plain];
    let wallets = vec!["0xabc".to_string(), "0xdef".to_string()];
    categorize_ledger(&mut ledger, &wallets, &KnownContracts::none());
    assert_eq!(ledger[0].category, Category::Fees);
    assert_eq!(ledger[0].confidence, 100);
    assert_eq!(ledger[1].category, Category::Internal);
    assert_eq!(ledger[1].confidence, 100);
}
