//! Proof artifact packaging.
//!
//! The raw prover output — a proof blob, the encoded public values and a
//! verification-key identifier — is packaged for transport: blobs as
//! base64 text, the ledger commitment pulled out of the public values as
//! lowercase hex, and the 64-bit tax amount read from its big-endian
//! word.  Short public-value records degrade to an empty commitment and
//! a zero amount rather than failing, mirroring how callers tolerate a
//! backend that returned less than expected.

use vstd::prelude::*;
use vstd::slice::slice_subrange;
use base64::Engine;
use crate::encode::{read_be8, read_u64_be};
use crate::jobs::hex_digit_byte;

verus! {

/// Proof artifacts returned after proving.
#[derive(Clone, Debug)]
pub struct ProofArtifacts {
    /// The proof bytes, base64 encoded.
    pub proof: String,
    /// The public values committed by the attested program, base64 encoded.
    pub public_values: String,
    /// Verification-key identifier, as the backend renders it.
    pub vk_hash: String,
    /// Total tax in paisa, read from the public values.
    pub total_tax_paisa: u64,
    /// Ledger commitment, hex encoded.
    pub ledger_commitment: String,
}

/// The two lowercase hex characters of one byte.
pub open spec fn hex_pair(b: u8) -> Seq<char> {
    seq![hex_digit_byte((b >> 4) as int) as char, hex_digit_byte((b & 0x0f) as int) as char]
}

/// The lowercase hex rendering of a byte sequence, two characters per
/// byte, in order.
pub open spec fn hex_lower_of(bytes: Seq<u8>) -> Seq<char>
    decreases bytes.len(),
{
    if bytes.len() == 0 {
        Seq::<char>::empty()
    } else {
        hex_pair(bytes.first()) + hex_lower_of(bytes.drop_first())
    }
}

/// Relies on hex::encode: two lowercase hex digits for each input byte,
/// in input order.
#[verifier::external_body]
pub fn hex_encode(bytes: &[u8]) -> (r: String)
    ensures
        r@ == hex_lower_of(bytes@),
{
    hex::encode(bytes)
}

/// The standard base64 rendering, with padding, of a byte sequence; a
/// pure function of the bytes.
pub uninterp spec fn base64_of(bytes: Seq<u8>) -> Seq<char>;

/// Relies on base64's STANDARD engine: the RFC 4648 alphabet with
/// padding, four output characters for every started group of three
/// input bytes, a function of the bytes alone.
#[verifier::external_body]
pub fn base64_encode(bytes: &[u8]) -> (r: String)
    ensures
        r@ == base64_of(bytes@),
        r@.len() == 4 * ((bytes@.len() + 2) / 3),
{
    base64::engine::general_purpose::STANDARD.encode(bytes)
}

/// Package raw prover output into transportable artifacts.
pub fn build_proof_artifacts(proof_bytes: &[u8], public_values: &[u8], vk_hash: String) -> (r:
    ProofArtifacts)
    ensures
        r.proof@ == base64_of(proof_bytes@),
        r.public_values@ == base64_of(public_values@),
        r.vk_hash == vk_hash,
        public_values@.len() >= 32 ==> r.ledger_commitment@ == hex_lower_of(
            public_values@.subrange(0, 32),
        ),
        public_values@.len() < 32 ==> r.ledger_commitment@.len() == 0,
        public_values@.len() >= 64 ==> r.total_tax_paisa == read_be8(
            public_values@.subrange(56, 64),
        ),
        public_values@.len() < 64 ==> r.total_tax_paisa == 0,
{
    let ledger_commitment = if public_values.len() >= 32 {
        hex_encode(slice_subrange(public_values, 0, 32))
    } else {
        String::new()
    };
    let total_tax_paisa = if public_values.len() >= 64 {
        read_u64_be(slice_subrange(public_values, 56, 64))
    } else {
        0
    };
    ProofArtifacts {
        proof: base64_encode(proof_bytes),
        public_values: base64_encode(public_values),
        vk_hash,
        total_tax_paisa,
        ledger_commitment,
    }
}

} // verus!
