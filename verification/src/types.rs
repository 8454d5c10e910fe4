//! The canonical ledger model: the shared data shapes that every other
//! module reads or writes.

use vstd::prelude::*;
use crate::text::str_eq;

verus! {

/// User entity type for tax calculation.
#[derive(Clone, Copy, Debug, PartialEq, Eq, Structural)]
pub enum UserType {
    Individual,
    /// Hindu Undivided Family.
    Huf,
    Corporate,
}

/// Transaction category for tax purposes.
#[derive(Clone, Copy, Debug, PartialEq, Eq, Structural)]
pub enum Category {
    /// Professional income (external inflows).
    Income,
    /// Virtual-digital-asset gains from known contracts.
    Gains,
    /// Virtual-digital-asset losses from known contracts.
    Losses,
    /// Gas or transaction fees paid.
    Fees,
    /// Transfers between the user's own wallets.
    Internal,
    /// Unclassified; needs review.
    Unknown,
}

/// Direction of a transaction relative to the owning wallet.
#[derive(Clone, Copy, Debug, PartialEq, Eq, Structural)]
pub enum Direction {
    In,
    Out,
}

/// Source of wallet discovery.
#[derive(Clone, Copy, Debug, PartialEq, Eq, Structural)]
pub enum WalletSource {
    Manual,
    EnsTextRecord,
    EnsSubdomain,
}

/// One normalized ledger row (chain-agnostic).
///
/// Amounts are decimal strings, never floating point, to preserve precision.
/// The confidence score is held in integer hundredths (100 means certain),
/// so the row carries only exact data.
#[derive(Clone, Debug)]
pub struct LedgerRow {
    pub chain_id: u64,
    pub owner_wallet: String,
    pub tx_hash: String,
    /// Seconds since the Unix epoch.
    pub block_time: u64,
    pub asset: String,
    /// Decimal string, e.g. "1.5".
    pub amount: String,
    pub decimals: u8,
    pub direction: Direction,
    pub counterparty: Option<String>,
    pub category: Category,
    /// Confidence in hundredths, 0 ..= 100.
    pub confidence: u8,
    /// Once set, automatic categorization must not touch this row.
    pub user_override: bool,
}

/// Price entry for an asset, in USD, as a decimal string.
#[derive(Clone, Debug)]
pub struct PriceEntry {
    pub asset: String,
    pub usd_price: String,
}

/// A wallet belonging to the user.
#[derive(Clone, Debug)]
pub struct Wallet {
    pub id: String,
    pub address: String,
    pub label: Option<String>,
    pub group_id: Option<String>,
    pub source: WalletSource,
}

/// A group of wallets (e.g. a family member or a business unit).
#[derive(Clone, Debug)]
pub struct WalletGroup {
    pub id: String,
    pub name: String,
    pub description: Option<String>,
}

/// Complete input for tax calculation and attestation.
#[derive(Clone, Debug)]
pub struct TaxInput {
    pub user_type: UserType,
    pub wallets: Vec<Wallet>,
    pub ledger: Vec<LedgerRow>,
    pub prices: Vec<PriceEntry>,
    /// Paisa per USD once parsed; carried as a decimal string.
    pub usd_inr_rate: String,
    /// Whether to apply the presumptive-income regime (individuals only).
    pub use_44ada: bool,
}

/// Human-readable tax calculation breakdown.  Every field is an INR amount
/// formatted with two decimal places.
#[derive(Clone, Debug)]
pub struct TaxBreakdown {
    pub professional_income_inr: String,
    pub taxable_professional_income_inr: String,
    pub vda_gains_inr: String,
    /// Displayed but never offset against gains.
    pub vda_losses_inr: String,
    pub professional_tax_inr: String,
    pub vda_tax_inr: String,
    pub cess_inr: String,
    pub total_tax_inr: String,
}

/// Result of categorizing one row, with a confidence score in hundredths.
#[derive(Clone, Copy, Debug, PartialEq, Eq, Structural)]
pub struct CategorizationResult {
    pub category: Category,
    /// Confidence in hundredths, 0 ..= 100.
    pub confidence: u8,
}

impl UserType {
    /// The one-byte wire code for this user type.
    pub open spec fn spec_code(self) -> u8 {
        match self {
            UserType::Individual => 0,
            UserType::Huf => 1,
            UserType::Corporate => 2,
        }
    }

    /// Encode the user type as its one-byte wire code.
    pub fn code(&self) -> (c: u8)
        ensures
            c == self.spec_code(),
    {
        match self {
            UserType::Individual => 0,
            UserType::Huf => 1,
            UserType::Corporate => 2,
        }
    }

    /// The user type denoted by a one-byte wire code, if any.
    pub open spec fn spec_from_code(c: u8) -> Option<UserType> {
        if c == 0 {
            Some(UserType::Individual)
        } else if c == 1 {
            Some(UserType::Huf)
        } else if c == 2 {
            Some(UserType::Corporate)
        } else {
            None
        }
    }

    /// Decode a one-byte wire code back into a user type.
    pub fn from_code(c: u8) -> (r: Option<UserType>)
        ensures
            r == UserType::spec_from_code(c),
    {
        if c == 0 {
            Some(UserType::Individual)
        } else if c == 1 {
            Some(UserType::Huf)
        } else if c == 2 {
            Some(UserType::Corporate)
        } else {
            None
        }
    }
}

/// The user type that a request tag denotes, if it is one of the three
/// accepted tags.
pub open spec fn spec_parse_user_type(s: Seq<char>) -> Option<UserType> {
    if s == "individual"@ {
        Some(UserType::Individual)
    } else if s == "huf"@ {
        Some(UserType::Huf)
    } else if s == "corporate"@ {
        Some(UserType::Corporate)
    } else {
        None
    }
}

/// Parse a request's user-type tag.  An invalid tag is rejected here, at the
/// boundary, before any computation starts.
pub fn parse_user_type(s: &str) -> (r: Option<UserType>)
    ensures
        r == spec_parse_user_type(s@),
{
    if str_eq(s, "individual") {
        Some(UserType::Individual)
    } else if str_eq(s, "huf") {
        Some(UserType::Huf)
    } else if str_eq(s, "corporate") {
        Some(UserType::Corporate)
    } else {
        None
    }
}

} // verus!
