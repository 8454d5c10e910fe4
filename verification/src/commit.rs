//! Ledger commitment.
//!
//! The row set is serialized to a canonical byte sequence — fixed field
//! order, big-endian integers, length-prefixed UTF-8 strings — and hashed
//! with SHA-256.  The encoding is part of the contract: both execution
//! environments must produce these exact bytes, or the commitment no
//! longer binds the output to the input set.

use vstd::prelude::*;
use vstd::slice::slice_index_get;
use vstd::utf8::encode_utf8;
use crate::sha256::{be8_bytes, sha256_hash, sha256_of};
use crate::types::{Category, Direction, LedgerRow};

verus! {

/// One-byte code of a transaction direction in the canonical encoding.
pub open spec fn spec_direction_code(d: Direction) -> u8 {
    match d {
        Direction::In => 0,
        Direction::Out => 1,
    }
}

/// One-byte code of a category in the canonical encoding.
pub open spec fn spec_category_code(c: Category) -> u8 {
    match c {
        Category::Income => 0,
        Category::Gains => 1,
        Category::Losses => 2,
        Category::Fees => 3,
        Category::Internal => 4,
        Category::Unknown => 5,
    }
}

/// A string field in the canonical encoding: the byte length of its UTF-8
/// form in eight big-endian bytes, then those bytes.
pub open spec fn str_field(s: Seq<char>) -> Seq<u8> {
    be8_bytes(encode_utf8(s).len() as u64) + encode_utf8(s)
}

/// The leading fields of a row's canonical bytes: chain, owner, hash,
/// time, asset and amount.
pub open spec fn row_head_bytes(r: LedgerRow) -> Seq<u8> {
    be8_bytes(r.chain_id) + str_field(r.owner_wallet@) + str_field(r.tx_hash@) + be8_bytes(
        r.block_time,
    ) + str_field(r.asset@) + str_field(r.amount@)
}

/// The trailing fields of a row's canonical bytes: decimals, direction,
/// the optional counterparty behind a presence byte, category, confidence
/// and the override flag.
pub open spec fn row_tail_bytes(r: LedgerRow) -> Seq<u8> {
    seq![r.decimals, spec_direction_code(r.direction)] + (match r.counterparty {
        Some(cp) => seq![1u8] + str_field(cp@),
        None => seq![0u8],
    }) + seq![
        spec_category_code(r.category),
        r.confidence,
        if r.user_override {
            1u8
        } else {
            0u8
        },
    ]
}

/// The canonical bytes of one ledger row, field by field in declaration
/// order.
pub open spec fn row_bytes(r: LedgerRow) -> Seq<u8> {
    row_head_bytes(r) + row_tail_bytes(r)
}

/// The concatenated canonical bytes of a row sequence.
pub open spec fn rows_bytes(rows: Seq<LedgerRow>) -> Seq<u8>
    decreases rows.len(),
{
    if rows.len() == 0 {
        Seq::<u8>::empty()
    } else {
        rows_bytes(rows.drop_last()) + row_bytes(rows.last())
    }
}

/// The canonical bytes of a whole ledger: the row count in eight
/// big-endian bytes, then each row in order.
pub open spec fn ledger_bytes(rows: Seq<LedgerRow>) -> Seq<u8> {
    be8_bytes(rows.len() as u64) + rows_bytes(rows)
}

/// Append the eight big-endian bytes of a 64-bit value.
fn push_u64_be(out: &mut Vec<u8>, v: u64)
    ensures
        final(out)@ == old(out)@ + be8_bytes(v),
{
    out.push((v >> 56) as u8);
    out.push((v >> 48) as u8);
    out.push((v >> 40) as u8);
    out.push((v >> 32) as u8);
    out.push((v >> 24) as u8);
    out.push((v >> 16) as u8);
    out.push((v >> 8) as u8);
    out.push(v as u8);
    assert(out@ =~= old(out)@ + be8_bytes(v));
}

/// Append a length-prefixed string field.
fn push_str_field(out: &mut Vec<u8>, s: &str)
    ensures
        final(out)@ == old(out)@ + str_field(s@),
{
    let bytes = s.as_bytes();
    let len = bytes.len();
    push_u64_be(out, len as u64);
    let ghost mid = out@;
    let mut i: usize = 0;
    while i < len
        invariant
            0 <= i <= len,
            len == bytes@.len(),
            out@ == mid + bytes@.take(i as int),
        decreases len - i,
    {
        proof {
            assert(bytes@.take(i + 1) =~= bytes@.take(i as int).push(bytes@[i as int]));
        }
        out.push(*slice_index_get(bytes, i));
        i = i + 1;
    }
    proof {
        assert(bytes@.take(len as int) =~= bytes@);
        assert(out@ =~= old(out)@ + str_field(s@));
    }
}

/// Append the canonical bytes of one row.
#[verifier::rlimit(50)]
fn push_row(out: &mut Vec<u8>, row: &LedgerRow)
    ensures
        final(out)@ == old(out)@ + row_bytes(*row),
{
    push_u64_be(out, row.chain_id);
    push_str_field(out, row.owner_wallet.as_str());
    push_str_field(out, row.tx_hash.as_str());
    push_u64_be(out, row.block_time);
    push_str_field(out, row.asset.as_str());
    push_str_field(out, row.amount.as_str());
    proof {
        assert(out@ =~= old(out)@ + row_head_bytes(*row));
    }
    let ghost after_head = out@;
    out.push(row.decimals);
    match row.direction {
        Direction::In => out.push(0),
        Direction::Out => out.push(1),
    }
    match &row.counterparty {
        Some(cp) => {
            out.push(1);
            push_str_field(out, cp.as_str());
        },
        None => {
            out.push(0);
        },
    }
    match row.category {
        Category::Income => out.push(0),
        Category::Gains => out.push(1),
        Category::Losses => out.push(2),
        Category::Fees => out.push(3),
        Category::Internal => out.push(4),
        Category::Unknown => out.push(5),
    }
    out.push(row.confidence);
    if row.user_override {
        out.push(1);
    } else {
        out.push(0);
    }
    proof {
        assert(out@ =~= after_head + row_tail_bytes(*row));
        assert(out@ =~= old(out)@ + row_bytes(*row));
    }
}

/// Serialize a ledger to its canonical byte sequence.
pub fn serialize_ledger(rows: &Vec<LedgerRow>) -> (r: Vec<u8>)
    ensures
        r@ == ledger_bytes(rows@),
{
    let n = rows.len();
    let mut out: Vec<u8> = Vec::new();
    push_u64_be(&mut out, n as u64);
    let mut i: usize = 0;
    while i < n
        invariant
            0 <= i <= n,
            n == rows@.len(),
            out@ == be8_bytes(n as u64) + rows_bytes(rows@.take(i as int)),
        decreases n - i,
    {
        proof {
            assert(rows@.take(i + 1).drop_last() =~= rows@.take(i as int));
            assert(rows@.take(i + 1).last() == rows@[i as int]);
        }
        push_row(&mut out, &rows[i]);
        proof {
            assert(out@ =~= be8_bytes(n as u64) + rows_bytes(rows@.take(i + 1)));
        }
        i = i + 1;
    }
    proof {
        assert(rows@.take(n as int) =~= rows@);
    }
    out
}

/// Commit to a ledger: the SHA-256 digest of its canonical bytes.
pub fn commit_ledger(rows: &Vec<LedgerRow>) -> (r: Vec<u8>)
    requires
        ledger_bytes(rows@).len() < 0x2000000000000000,
    ensures
        r@ == sha256_of(ledger_bytes(rows@)),
        r@.len() == 32,
{
    let bytes = serialize_ledger(rows);
    sha256_hash(bytes.as_slice())
}

/// Commitment determinism: the commitment is a pure function of the row
/// sequence, so re-running it over an identical ledger — same rows, same
/// order, same fields — always yields the same 32 bytes.
pub proof fn lemma_commit_deterministic(a: Seq<LedgerRow>, b: Seq<LedgerRow>)
    requires
        a == b,
    ensures
        sha256_of(ledger_bytes(a)) == sha256_of(ledger_bytes(b)),
{
}

} // verus!
