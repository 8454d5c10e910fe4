//! Categorization engine.
//!
//! Classifies each ledger row into a tax bucket by an ordered cascade of
//! heuristic rules — first match wins, and that order is part of the
//! contract.  Address comparison is case-insensitive.  The known contract
//! addresses are injected configuration: an empty entry is unset and can
//! never match, so an empty counterparty string cannot ride a wildcard.

use vstd::prelude::*;
use crate::amounts::{amount_centi, is_amount, parse_amount_opt};
use crate::text::{lower_of, lowercase, str_eq};
use crate::types::{CategorizationResult, Category, Direction, LedgerRow};

verus! {

/// The contract addresses that the heuristic recognizes.  Configuration,
/// not code: fill them per deployment, leave them empty to disable.
#[derive(Clone, Debug)]
pub struct KnownContracts {
    /// Gain-generating contract address.
    pub profit_machine: String,
    /// Loss-generating contract address.
    pub loss_machine: String,
    /// Yield-generating contract address (treated as gains).
    pub yield_farm: String,
}

impl KnownContracts {
    /// A configuration with every contract unset; nothing matches it.
    pub fn none() -> (r: KnownContracts)
        ensures
            r.profit_machine@.len() == 0,
            r.loss_machine@.len() == 0,
            r.yield_farm@.len() == 0,
    {
        KnownContracts {
            profit_machine: String::new(),
            loss_machine: String::new(),
            yield_farm: String::new(),
        }
    }
}

/// Whether a lowered counterparty address matches a configured contract:
/// the entry must be set (non-empty) and equal, case-insensitively.
pub open spec fn matches_contract(cp_lower: Seq<char>, contract: Seq<char>) -> bool {
    contract.len() > 0 && cp_lower == lower_of(contract)
}

/// Whether the lowered counterparty is one of the user's own addresses,
/// case-insensitively.
pub open spec fn in_wallets(cp_lower: Seq<char>, wallets: Seq<String>) -> bool {
    exists|i: int| 0 <= i < wallets.len() && lower_of(wallets[i]@) == cp_lower
}

/// Whether a row looks like a gas payment: native asset, well-formed
/// amount strictly below 0.01 units (that is, zero hundredths).
pub open spec fn is_gas_like(row: LedgerRow) -> bool {
    row.asset@ == "ETH"@ && is_amount(row.amount@) && amount_centi(row.amount@) == 0
}

/// The rule cascade once the counterparty's lowered form is known.
pub open spec fn spec_categorize_with_cp(
    row: LedgerRow,
    cp_lower: Seq<char>,
    wallets: Seq<String>,
    contracts: KnownContracts,
) -> CategorizationResult {
    if in_wallets(cp_lower, wallets) {
        CategorizationResult { category: Category::Internal, confidence: 100 }
    } else if row.direction == Direction::In && matches_contract(
        cp_lower,
        contracts.profit_machine@,
    ) {
        CategorizationResult { category: Category::Gains, confidence: 95 }
    } else if row.direction == Direction::In && matches_contract(cp_lower, contracts.yield_farm@) {
        CategorizationResult { category: Category::Gains, confidence: 95 }
    } else if row.direction == Direction::In && matches_contract(
        cp_lower,
        contracts.loss_machine@,
    ) {
        CategorizationResult { category: Category::Losses, confidence: 95 }
    } else if row.direction == Direction::Out && matches_contract(
        cp_lower,
        contracts.profit_machine@,
    ) {
        CategorizationResult { category: Category::Gains, confidence: 90 }
    } else if row.direction == Direction::Out && matches_contract(
        cp_lower,
        contracts.loss_machine@,
    ) {
        CategorizationResult { category: Category::Losses, confidence: 90 }
    } else if row.direction == Direction::Out && matches_contract(
        cp_lower,
        contracts.yield_farm@,
    ) {
        CategorizationResult { category: Category::Gains, confidence: 90 }
    } else if row.direction == Direction::Out && is_gas_like(row) {
        CategorizationResult { category: Category::Fees, confidence: 80 }
    } else if row.direction == Direction::In {
        CategorizationResult { category: Category::Income, confidence: 60 }
    } else {
        CategorizationResult { category: Category::Unknown, confidence: 0 }
    }
}

/// The full ordered heuristic for one row: own wallets first, then known
/// contracts by direction, then the gas heuristic, then plain inflows as
/// income, and unknown last.
pub open spec fn spec_categorize(
    row: LedgerRow,
    wallets: Seq<String>,
    contracts: KnownContracts,
) -> CategorizationResult {
    match row.counterparty {
        Some(cp) => spec_categorize_with_cp(row, lower_of(cp@), wallets, contracts),
        None => if row.direction == Direction::Out && is_gas_like(row) {
            CategorizationResult { category: Category::Fees, confidence: 80 }
        } else if row.direction == Direction::In {
            CategorizationResult { category: Category::Income, confidence: 60 }
        } else {
            CategorizationResult { category: Category::Unknown, confidence: 0 }
        },
    }
}

/// Scan the user's wallets for the lowered counterparty.
fn wallets_contain(wallets: &[String], cp_lower: &String) -> (r: bool)
    ensures
        r == in_wallets(cp_lower@, wallets@),
{
    let n = wallets.len();
    let mut i: usize = 0;
    while i < n
        invariant
            0 <= i <= n,
            n == wallets@.len(),
            forall|j: int| 0 <= j < i ==> lower_of(wallets@[j]@) != cp_lower@,
        decreases n - i,
    {
        let w = lowercase(wallets[i].as_str());
        if str_eq(w.as_str(), cp_lower.as_str()) {
            return true;
        }
        i = i + 1;
    }
    false
}

/// Test one configured contract entry against the lowered counterparty.
fn contract_matches(cp_lower: &String, contract: &String) -> (r: bool)
    ensures
        r == matches_contract(cp_lower@, contract@),
{
    if contract.as_str().is_empty() {
        return false;
    }
    let lc = lowercase(contract.as_str());
    str_eq(cp_lower.as_str(), lc.as_str())
}

/// Whether this row falls under the gas-payment heuristic.
fn gas_like(row: &LedgerRow) -> (r: bool)
    ensures
        r == is_gas_like(*row),
{
    if !str_eq(row.asset.as_str(), "ETH") {
        return false;
    }
    match parse_amount_opt(row.amount.as_str()) {
        Some(c) => c == 0,
        None => false,
    }
}

/// Categorize one ledger row against the user's wallets and the known
/// contracts.  Pure: the result depends only on the arguments, and the
/// rule order is exactly the cascade of `spec_categorize`.
pub fn categorize_transaction(
    row: &LedgerRow,
    user_wallets: &[String],
    contracts: &KnownContracts,
) -> (r: CategorizationResult)
    ensures
        r == spec_categorize(*row, user_wallets@, *contracts),
{
    let is_in = matches!(row.direction, Direction::In);
    match &row.counterparty {
        Some(cp) => {
            let cp_lower = lowercase(cp.as_str());
            if wallets_contain(user_wallets, &cp_lower) {
                return CategorizationResult { category: Category::Internal, confidence: 100 };
            }
            if is_in {
                if contract_matches(&cp_lower, &contracts.profit_machine) {
                    return CategorizationResult { category: Category::Gains, confidence: 95 };
                }
                if contract_matches(&cp_lower, &contracts.yield_farm) {
                    return CategorizationResult { category: Category::Gains, confidence: 95 };
                }
                if contract_matches(&cp_lower, &contracts.loss_machine) {
                    return CategorizationResult { category: Category::Losses, confidence: 95 };
                }
            } else {
                if contract_matches(&cp_lower, &contracts.profit_machine) {
                    return CategorizationResult { category: Category::Gains, confidence: 90 };
                }
                if contract_matches(&cp_lower, &contracts.loss_machine) {
                    return CategorizationResult { category: Category::Losses, confidence: 90 };
                }
                if contract_matches(&cp_lower, &contracts.yield_farm) {
                    return CategorizationResult { category: Category::Gains, confidence: 90 };
                }
            }
        },
        None => {},
    }
    if !is_in && gas_like(row) {
        return CategorizationResult { category: Category::Fees, confidence: 80 };
    }
    if is_in {
        return CategorizationResult { category: Category::Income, confidence: 60 };
    }
    CategorizationResult { category: Category::Unknown, confidence: 0 }
}

/// What one row looks like after automatic categorization: untouched when
/// a human has overridden it, otherwise the same row with the category and
/// confidence that the heuristic assigns.
pub open spec fn spec_recategorized(
    row: LedgerRow,
    wallets: Seq<String>,
    contracts: KnownContracts,
) -> LedgerRow {
    if row.user_override {
        row
    } else {
        LedgerRow {
            category: spec_categorize(row, wallets, contracts).category,
            confidence: spec_categorize(row, wallets, contracts).confidence,
            ..row
        }
    }
}

/// Categorize every row of a ledger in place, leaving rows with a human
/// override untouched.
pub fn categorize_ledger(
    ledger: &mut Vec<LedgerRow>,
    user_wallets: &[String],
    contracts: &KnownContracts,
)
    ensures
        final(ledger)@.len() == old(ledger)@.len(),
        forall|i: int|
            0 <= i < old(ledger)@.len() ==> final(ledger)@[i] == spec_recategorized(
                old(ledger)@[i],
                user_wallets@,
                *contracts,
            ),
{
    let n = ledger.len();
    let mut i: usize = 0;
    while i < n
        invariant
            0 <= i <= n,
            ledger@.len() == n,
            n == old(ledger)@.len(),
            forall|j: int|
                0 <= j < i ==> ledger@[j] == spec_recategorized(
                    old(ledger)@[j],
                    user_wallets@,
                    *contracts,
                ),
            forall|j: int| i <= j < n ==> ledger@[j] == old(ledger)@[j],
        decreases n - i,
    {
        let row = ledger.remove(i);
        let updated = if row.user_override {
            row
        } else {
            let result = categorize_transaction(&row, user_wallets, contracts);
            LedgerRow { category: result.category, confidence: result.confidence, ..row }
        };
        ledger.insert(i, updated);
        i = i + 1;
    }
}

/// Own-address law: whenever the counterparty is one of the user's own
/// addresses, the row is internal with full confidence, whatever its
/// direction or amount.
pub proof fn lemma_internal_wins(row: LedgerRow, wallets: Seq<String>, contracts: KnownContracts)
    requires
        row.counterparty matches Some(cp) && in_wallets(lower_of(cp@), wallets),
    ensures
        spec_categorize(row, wallets, contracts) == (CategorizationResult {
            category: Category::Internal,
            confidence: 100u8,
        }),
{
}

/// Gas heuristic law: an outbound native-asset transfer below the
/// 0.01-unit threshold whose counterparty is recognized neither as an own
/// wallet nor as a configured contract is a fee.
pub proof fn lemma_small_native_outflow_is_fee(
    row: LedgerRow,
    wallets: Seq<String>,
    contracts: KnownContracts,
)
    requires
        row.direction == Direction::Out,
        is_gas_like(row),
        match row.counterparty {
            Some(cp) => !in_wallets(lower_of(cp@), wallets) && !matches_contract(
                lower_of(cp@),
                contracts.profit_machine@,
            ) && !matches_contract(lower_of(cp@), contracts.loss_machine@) && !matches_contract(
                lower_of(cp@),
                contracts.yield_farm@,
            ),
            None => true,
        },
    ensures
        spec_categorize(row, wallets, contracts).category == Category::Fees,
{
}

} // verus!
