use financoor::amounts::{format_inr_paisa, parse_amount};
use financoor::tax::{amount_to_inr_paisa, calculate_slab_tax, calculate_tax, calculate_tax_paisa};
use financoor::types::{Category, Direction, LedgerRow, PriceEntry, TaxInput, UserType};

fn income_row(amount: &str, asset: &str) -> LedgerRow {
    LedgerRow {
        chain_id: 11155111,
        owner_wallet: "0x1234".to_string(),
        tx_hash: "0xabc123".to_string(),
        block_time: 1700000000,
        asset: asset.to_string(),
        amount: amount.to_string(),
        decimals: 18,
        direction: Direction::In,
        counterparty: Some("0x5678".to_string()),
        category: Category::Income,
        confidence: 95,
        user_override: false,
    }
}

fn with_category(mut row: LedgerRow, category: Category) -> LedgerRow {
    row.category = category;
    row
}

fn eth_input(user_type: UserType, use_44ada: bool, ledger: Vec<LedgerRow>) -> TaxInput {
    TaxInput {
        user_type,
        wallets: vec![],
        ledger,
        prices: vec![PriceEntry { asset: "ETH".to_string(), usd_price: "2000.00".to_string() }],
        usd_inr_rate: "83.00".to_string(),
        use_44ada,
    }
}

#[test]
fn test_parse_amount_values() {
    assert_eq!(parse_amount("1.5"), 150);
    assert_eq!(parse_amount("0.005"), 0);
    assert_eq!(parse_amount("0.01"), 1);
    assert_eq!(parse_amount("2000.00"), 200000);
    assert_eq!(parse_amount("12.3456"), 1234);
    assert_eq!(parse_amount("0.999"), 99);
    assert_eq!(parse_amount("5."), 500);
    assert_eq!(parse_amount(".5"), 50);
    assert_eq!(parse_amount("0"), 0);
    assert_eq!(parse_amount(""), 0);
    assert_eq!(parse_amount("."), 0);
    assert_eq!(parse_amount("abc"), 0);
    assert_eq!(parse_amount("1e5"), 0);
    assert_eq!(parse_amount("-1"), 0);
}

#[test]
fn test_format_inr_paisa_values() {
    assert_eq!(format_inr_paisa(0), "0.00");
    assert_eq!(format_inr_paisa(5), "0.05");
    assert_eq!(format_inr_paisa(100), "1.00");
    assert_eq!(format_inr_paisa(24900000), "249000.00");
    assert_eq!(format_inr_paisa(2589601), "25896.01");
}

#[test]
fn test_amount_to_inr_paisa_example() {
    let prices = vec![PriceEntry { asset: "ETH".to_string(), usd_price: "2000.00".to_string() }];
    // 1.5 ETH at $2000 and 83.00 INR/USD is 249,000 INR.
    assert_eq!(amount_to_inr_paisa("1.5", "ETH", &prices, 8300), 24_900_000);
}

#[test]
fn test_missing_price_defaults_to_one_dollar() {
    let prices: Vec<PriceEntry> = vec![];
    // 2 FOO at the $1.00 fallback and 83.00 INR/USD is 166 INR.
    assert_eq!(amount_to_inr_paisa("2", "FOO", &prices, 8300), 16600);
}

#[test]
fn test_malformed_price_degrades_to_zero() {
    let prices = vec![PriceEntry { asset: "FOO".to_string(), usd_price: "soon".to_string() }];
    assert_eq!(amount_to_inr_paisa("2", "FOO", &prices, 8300), 0);
}

#[test]
fn test_slab_tax_values() {
    assert_eq!(calculate_slab_tax(0), 0);
    assert_eq!(calculate_slab_tax(400_000), 0);
    assert_eq!(calculate_slab_tax(400_001), 0);
    assert_eq!(calculate_slab_tax(800_000), 19_999);
    assert_eq!(calculate_slab_tax(1_000_000), 39_998);
    assert_eq!(calculate_slab_tax(2_500_000), 329_994);
}

#[test]
fn test_single_income_row_end_to_end() {
    // One inbound native-asset row of 1.5 at $2000 and rate 83.00:
    // gross income 1.5 x 2000 x 83 = 249,000 INR, below the first
    // taxed bracket, so every tax component is zero.
    let input = eth_input(UserType::Individual, false, vec![income_row("1.5", "ETH")]);
    let breakdown = calculate_tax(&input);
    assert_eq!(breakdown.professional_income_inr, "249000.00");
    assert_eq!(breakdown.taxable_professional_income_inr, "249000.00");
    assert_eq!(breakdown.vda_gains_inr, "0.00");
    assert_eq!(breakdown.vda_losses_inr, "0.00");
    assert_eq!(breakdown.professional_tax_inr, "0.00");
    assert_eq!(breakdown.vda_tax_inr, "0.00");
    assert_eq!(breakdown.cess_inr, "0.00");
    assert_eq!(breakdown.total_tax_inr, "0.00");
    assert_eq!(calculate_tax_paisa(&input), 0);
}

#[test]
fn test_income_and_gains_rows() {
    let ledger = vec![
        income_row("1.5", "ETH"),
        with_category(income_row("0.5", "ETH"), Category::Gains),
    ];
    let input = eth_input(UserType::Individual, false, ledger);
    let breakdown = calculate_tax(&input);
    assert_eq!(breakdown.professional_income_inr, "249000.00");
    // 0.5 x 2000 x 83 = 83,000 INR of gains, taxed flat at 30%.
    assert_eq!(breakdown.vda_gains_inr, "83000.00");
    assert_eq!(breakdown.vda_tax_inr, "24900.00");
    // Cess is 4% of the 24,900 INR of tax.
    assert_eq!(breakdown.cess_inr, "996.00");
    assert_eq!(breakdown.total_tax_inr, "25896.00");
    assert_eq!(calculate_tax_paisa(&input), 2_589_600);
}

#[test]
fn test_44ada_halves_taxable_income() {
    let input = eth_input(UserType::Individual, true, vec![income_row("1.5", "ETH")]);
    let breakdown = calculate_tax(&input);
    assert_eq!(breakdown.professional_income_inr, "249000.00");
    assert_eq!(breakdown.taxable_professional_income_inr, "124500.00");
}

#[test]
fn test_44ada_ignored_for_corporate() {
    let input = eth_input(UserType::Corporate, true, vec![income_row("1.5", "ETH")]);
    let breakdown = calculate_tax(&input);
    assert_eq!(breakdown.taxable_professional_income_inr, "249000.00");
}

#[test]
fn test_corporate_flat_rate_with_surcharge() {
    // 1,000,000 units at the $1.00 fallback and rate 1.00 gives a
    // round 1,000,000 INR of income; 22% plus a 10% surcharge on the
    // tax is 24.2%, and cess brings it to 25.168%.
    let input = TaxInput {
        user_type: UserType::Corporate,
        wallets: vec![],
        ledger: vec![income_row("1000000", "FOO")],
        prices: vec![],
        usd_inr_rate: "1.00".to_string(),
        use_44ada: false,
    };
    let breakdown = calculate_tax(&input);
    assert_eq!(breakdown.professional_income_inr, "1000000.00");
    assert_eq!(breakdown.professional_tax_inr, "242000.00");
    assert_eq!(breakdown.cess_inr, "9680.00");
    assert_eq!(breakdown.total_tax_inr, "251680.00");
}

#[test]
fn test_slab_tax_applies_through_breakdown() {
    // 1,000,000 INR of individual income: 5% of the second bracket and
    // 10% of the part of the third below the income.
    let input = TaxInput {
        user_type: UserType::Individual,
        wallets: vec![],
        ledger: vec![income_row("1000000", "FOO")],
        prices: vec![],
        usd_inr_rate: "1.00".to_string(),
        use_44ada: false,
    };
    let breakdown = calculate_tax(&input);
    assert_eq!(breakdown.professional_tax_inr, "39998.00");
    assert_eq!(breakdown.cess_inr, "1599.92");
    assert_eq!(breakdown.total_tax_inr, "41597.92");
}

#[test]
fn test_losses_tracked_but_never_offset() {
    let ledger = vec![
        with_category(income_row("0.5", "ETH"), Category::Gains),
        with_category(income_row("10.0", "ETH"), Category::Losses),
    ];
    let input = eth_input(UserType::Individual, false, ledger);
    let breakdown = calculate_tax(&input);
    assert_eq!(breakdown.vda_gains_inr, "83000.00");
    assert_eq!(breakdown.vda_losses_inr, "1660000.00");
    // The VDA tax is still 30% of the gains alone.
    assert_eq!(breakdown.vda_tax_inr, "24900.00");
}

#[test]
fn test_internal_fees_unknown_contribute_nothing() {
    let ledger = vec![
        with_category(income_row("1.0", "ETH"), Category::Internal),
        with_category(income_row("1.0", "ETH"), Category::Fees),
        with_category(income_row("1.0", "ETH"), Category::Unknown),
    ];
    let input = eth_input(UserType::Individual, false, ledger);
    let breakdown = calculate_tax(&input);
    assert_eq!(breakdown.professional_income_inr, "0.00");
    assert_eq!(breakdown.total_tax_inr, "0.00");
}

#[test]
fn test_outbound_income_rows_do_not_count() {
    let mut row = income_row("1.5", "ETH");
    row.direction = Direction::Out;
    let input = eth_input(UserType::Individual, false, vec![row]);
    let breakdown = calculate_tax(&input);
    assert_eq!(breakdown.professional_income_inr, "0.00");
}

#[test]
fn test_raising_one_row_never_lowers_tax() {
    let smaller = eth_input(UserType::Individual, false, vec![income_row("50", "ETH")]);
    let larger = eth_input(UserType::Individual, false, vec![income_row("60", "ETH")]);
    assert!(calculate_tax_paisa(&larger) >= calculate_tax_paisa(&smaller));
}

#[test]
fn test_malformed_rate_degrades_to_zero() {
    let mut input = eth_input(UserType::Individual, false, vec![income_row("1.5", "ETH")]);
    input.usd_inr_rate = "not-a-rate".to_string();
    let breakdown = calculate_tax(&input);
    assert_eq!(breakdown.professional_income_inr, "0.00");
    assert_eq!(breakdown.total_tax_inr, "0.00");
}
