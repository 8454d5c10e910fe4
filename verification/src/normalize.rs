//! Transfer normalization.
//!
//! Raw transfer records arrive with optional fields and provider-specific
//! kind tags.  Normalization turns one record into a canonical ledger
//! row — native-asset transfers become "ETH" with 18 decimals, a missing
//! token symbol becomes "UNKNOWN", the counterparty is the sender of an
//! inflow and the recipient of an outflow — and drops zero-amount or
//! malformed entries before they reach the core.  A merged ledger is then
//! ordered by block time.

use vstd::prelude::*;
use vstd::seq_lib::group_to_multiset_ensures;
use vstd::seq_lib::lemma_multiset_commutative;
use crate::amounts::{is_amount, is_zero_amount, parse_amount_opt};
use crate::text::{lower_of, lowercase, str_eq};
use crate::types::{Category, Direction, LedgerRow};

verus! {

broadcast use group_to_multiset_ensures;

/// Whether every character of `s` is a zero digit or the decimal point.
fn all_zero_chars(s: &str) -> (r: bool)
    ensures
        r == forall|i: int| 0 <= i < s@.len() ==> (s@[i] == '0' || s@[i] == '.'),
{
    let n = s.unicode_len();
    let mut i: usize = 0;
    while i < n
        invariant
            0 <= i <= n,
            n == s@.len(),
            forall|j: int| 0 <= j < i ==> (s@[j] == '0' || s@[j] == '.'),
        decreases n - i,
    {
        let c = s.get_char(i);
        if c != '0' && c != '.' {
            return false;
        }
        i = i + 1;
    }
    true
}

/// The asset symbol a normalized row carries: the native symbol for an
/// external transfer, else the reported symbol, else a placeholder.
pub open spec fn normalized_asset(transfer_kind: Seq<char>, asset: Option<String>) -> Seq<char> {
    if transfer_kind == "external"@ {
        "ETH"@
    } else {
        match asset {
            Some(a) => a@,
            None => "UNKNOWN"@,
        }
    }
}

/// Normalize one raw transfer into a ledger row on the Sepolia chain.
/// Malformed and zero-amount records are dropped: they carry no value
/// the core could account for.
pub fn normalize_transfer(
    owner_wallet: &str,
    direction: Direction,
    tx_hash: String,
    from_addr: String,
    to_addr: Option<String>,
    amount: String,
    asset: Option<String>,
    transfer_kind: String,
    block_time: u64,
) -> (r: Option<LedgerRow>)
    ensures
        (r is Some) == (is_amount(amount@) && !is_zero_amount(amount@)),
        match r {
            Some(row) => {
                &&& row.chain_id == 11155111
                &&& row.owner_wallet@ == lower_of(owner_wallet@)
                &&& row.tx_hash == tx_hash
                &&& row.block_time == block_time
                &&& row.asset@ == normalized_asset(transfer_kind@, asset)
                &&& row.amount == amount
                &&& row.decimals == 18
                &&& row.direction == direction
                &&& row.counterparty == (match direction {
                    Direction::In => Some(from_addr),
                    Direction::Out => to_addr,
                })
                &&& row.category == Category::Unknown
                &&& row.confidence == 0
                &&& !row.user_override
            },
            None => true,
        },
{
    match parse_amount_opt(amount.as_str()) {
        Some(_) => {},
        None => {
            return None;
        },
    }
    if all_zero_chars(amount.as_str()) {
        return None;
    }
    let asset_symbol = if str_eq(transfer_kind.as_str(), "external") {
        String::from_str("ETH")
    } else {
        match asset {
            Some(a) => a,
            None => String::from_str("UNKNOWN"),
        }
    };
    let counterparty = match direction {
        Direction::In => Some(from_addr),
        Direction::Out => to_addr,
    };
    Some(
        LedgerRow {
            chain_id: 11155111,
            owner_wallet: lowercase(owner_wallet),
            tx_hash,
            block_time,
            asset: asset_symbol,
            amount,
            decimals: 18,
            direction,
            counterparty,
            category: Category::Unknown,
            confidence: 0,
            user_override: false,
        },
    )
}

/// Whether a ledger is ordered by block time, earliest first.
pub open spec fn sorted_by_time(rows: Seq<LedgerRow>) -> bool {
    forall|i: int, j: int| 0 <= i < j < rows.len() ==> rows[i].block_time <= rows[j].block_time
}

/// Order a merged ledger by block time.  The rows themselves are kept:
/// the result is a permutation of the input.
pub fn sort_ledger_by_block_time(ledger: &mut Vec<LedgerRow>)
    ensures
        final(ledger)@.len() == old(ledger)@.len(),
        sorted_by_time(final(ledger)@),
        final(ledger)@.to_multiset() == old(ledger)@.to_multiset(),
{
    let n = ledger.len();
    if n <= 1 {
        return;
    }
    let mut i: usize = 1;
    while i < n
        invariant
            1 <= i <= n,
            ledger@.len() == n,
            n == old(ledger)@.len(),
            sorted_by_time(ledger@.take(i as int)),
            ledger@.to_multiset() == old(ledger)@.to_multiset(),
        decreases n - i,
    {
        let key_time = ledger[i].block_time;
        let mut j: usize = i;
        while j > 0 && ledger[j - 1].block_time > key_time
            invariant
                0 <= j <= i,
                i < n,
                ledger@.len() == n,
                forall|t: int| j <= t < i ==> ledger@[t].block_time > key_time,
            decreases j,
        {
            j = j - 1;
        }
        let ghost s0 = ledger@;
        let row = ledger.remove(i);
        let ghost mid = ledger@;
        ledger.insert(j, row);
        proof {
            let s1 = ledger@;
            // Element mapping around the removal and reinsertion.
            assert(forall|t: int| 0 <= t < j ==> s1[t] == s0[t]);
            assert(s1[j as int] == s0[i as int]);
            assert(forall|t: int| j < t <= i ==> s1[t] == s0[t - 1]);
            assert(forall|t: int| i < t < n ==> s1[t] == s0[t]);
            // The freshly placed prefix is sorted.
            assert(sorted_by_time(s1.take(i + 1))) by {
                assert(forall|t: int| 0 <= t < i + 1 ==> s1.take(i + 1)[t] == s1[t]);
                assert(forall|t: int| 0 <= t < i ==> s0.take(i as int)[t] == s0[t]);
                assert(s0[i as int].block_time == key_time);
            }
            // The multiset is unchanged: removing an element and putting
            // it back elsewhere moves it, nothing more.
            assert(mid.to_multiset() == s0.to_multiset().remove(s0[i as int]));
            assert(s1 =~= mid.take(j as int).push(row) + mid.skip(j as int));
            lemma_multiset_commutative(mid.take(j as int).push(row), mid.skip(j as int));
            assert(mid =~= mid.take(j as int) + mid.skip(j as int));
            lemma_multiset_commutative(mid.take(j as int), mid.skip(j as int));
            assert(s1.to_multiset() =~= mid.to_multiset().insert(row));
            assert(s0.to_multiset().contains(s0[i as int]));
            assert(s1.to_multiset() =~= s0.to_multiset());
        }
        i = i + 1;
    }
    proof {
        assert(ledger@.take(n as int) =~= ledger@);
    }
}

} // verus!
