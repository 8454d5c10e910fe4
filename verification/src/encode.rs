//! Public output encoding.
//!
//! The fixed-layout record that an external verifier decodes: 32 bytes of
//! ledger commitment, a 32-byte big-endian tax amount whose top 24 bytes
//! are zero, one byte of user-type code, one byte of boolean flag — 66
//! bytes in all.  The layout is the on-the-wire contract; field order and
//! widths must never change silently.

use vstd::prelude::*;
use vstd::slice::{slice_index_get, slice_subrange};
use crate::sha256::{be8_bytes, zero_bytes};
use crate::types::UserType;

verus! {

/// The 64-bit value that eight big-endian bytes denote.
pub open spec fn read_be8(s: Seq<u8>) -> u64 {
    ((s[0] as u64) << 56) | ((s[1] as u64) << 48) | ((s[2] as u64) << 40) | ((s[3] as u64) << 32)
        | ((s[4] as u64) << 24) | ((s[5] as u64) << 16) | ((s[6] as u64) << 8) | (s[7] as u64)
}

/// Writing a 64-bit value big-endian and reading it back is the identity.
pub proof fn lemma_read_be8_roundtrip(v: u64)
    ensures
        read_be8(be8_bytes(v)) == v,
{
    let s = be8_bytes(v);
    assert((((v >> 56) as u8 as u64) << 56) | (((v >> 48) as u8 as u64) << 48) | (((v >> 40) as u8
        as u64) << 40) | (((v >> 32) as u8 as u64) << 32) | (((v >> 24) as u8 as u64) << 24) | (((v
        >> 16) as u8 as u64) << 16) | (((v >> 8) as u8 as u64) << 8) | (v as u8 as u64) == v)
        by (bit_vector);
}

/// The fixed public-value record: commitment, zero-padded big-endian tax
/// amount, user-type code, presumptive-regime flag.
pub open spec fn public_values_bytes(
    commitment: Seq<u8>,
    tax_paisa: u64,
    user_code: u8,
    used_44ada: bool,
) -> Seq<u8> {
    commitment + zero_bytes(24) + be8_bytes(tax_paisa) + seq![
        user_code,
        if used_44ada {
            1u8
        } else {
            0u8
        },
    ]
}

/// Layout law: the encoded record is always exactly 66 bytes; bytes 32
/// through 63 read as a big-endian integer are exactly the paisa amount,
/// with the 24 high-order bytes zero; the commitment and the two trailing
/// bytes sit where the contract says.
pub proof fn lemma_public_values_layout(c: Seq<u8>, tax_paisa: u64, code: u8, flag: bool)
    requires
        c.len() == 32,
    ensures
        public_values_bytes(c, tax_paisa, code, flag).len() == 66,
        public_values_bytes(c, tax_paisa, code, flag).subrange(0, 32) == c,
        forall|i: int| 32 <= i < 56 ==> public_values_bytes(c, tax_paisa, code, flag)[i] == 0,
        read_be8(public_values_bytes(c, tax_paisa, code, flag).subrange(56, 64)) == tax_paisa,
        public_values_bytes(c, tax_paisa, code, flag)[64] == code,
        public_values_bytes(c, tax_paisa, code, flag)[65] == (if flag {
            1u8
        } else {
            0u8
        }),
{
    let s = public_values_bytes(c, tax_paisa, code, flag);
    assert(s.subrange(0, 32) =~= c);
    assert(s.subrange(56, 64) =~= be8_bytes(tax_paisa));
    lemma_read_be8_roundtrip(tax_paisa);
}

/// Encode the public-value record.
pub fn encode_public_values(
    commitment: &[u8],
    tax_paisa: u64,
    user_code: u8,
    used_44ada: bool,
) -> (r: Vec<u8>)
    requires
        commitment@.len() == 32,
    ensures
        r@ == public_values_bytes(commitment@, tax_paisa, user_code, used_44ada),
        r@.len() == 66,
{
    let mut out: Vec<u8> = Vec::new();
    let mut i: usize = 0;
    while i < 32
        invariant
            0 <= i <= 32,
            commitment@.len() == 32,
            out@ == commitment@.take(i as int),
        decreases 32 - i,
    {
        proof {
            assert(commitment@.take(i + 1) =~= commitment@.take(i as int).push(
                commitment@[i as int],
            ));
        }
        out.push(*slice_index_get(commitment, i));
        i = i + 1;
    }
    proof {
        assert(commitment@.take(32) =~= commitment@);
    }
    let mut z: usize = 0;
    while z < 24
        invariant
            0 <= z <= 24,
            commitment@.len() == 32,
            out@ == commitment@ + zero_bytes(z as int),
        decreases 24 - z,
    {
        proof {
            assert(zero_bytes(z + 1) =~= zero_bytes(z as int).push(0u8));
            assert((commitment@ + zero_bytes(z as int)).push(0u8) =~= commitment@ + zero_bytes(
                z + 1,
            ));
        }
        out.push(0);
        z = z + 1;
    }
    out.push((tax_paisa >> 56) as u8);
    out.push((tax_paisa >> 48) as u8);
    out.push((tax_paisa >> 40) as u8);
    out.push((tax_paisa >> 32) as u8);
    out.push((tax_paisa >> 24) as u8);
    out.push((tax_paisa >> 16) as u8);
    out.push((tax_paisa >> 8) as u8);
    out.push(tax_paisa as u8);
    out.push(user_code);
    if used_44ada {
        out.push(1);
    } else {
        out.push(0);
    }
    proof {
        assert(out@ =~= public_values_bytes(commitment@, tax_paisa, user_code, used_44ada));
    }
    out
}

/// Whether a byte sequence is a well-formed public-value record: exact
/// length, zero padding where the contract puts it, a known user-type
/// code and a strict 0/1 flag byte.
pub open spec fn is_public_values(s: Seq<u8>) -> bool {
    &&& s.len() == 66
    &&& forall|i: int| 32 <= i < 56 ==> s[i] == 0
    &&& UserType::spec_from_code(s[64]) is Some
    &&& (s[65] == 0 || s[65] == 1)
}

/// A decoded public-value record.
pub struct DecodedPublicValues {
    pub ledger_commitment: Vec<u8>,
    pub total_tax_paisa: u64,
    pub user_type: UserType,
    pub used_44ada: bool,
}

/// Read eight big-endian bytes as a 64-bit value.
pub fn read_u64_be(bytes: &[u8]) -> (r: u64)
    requires
        bytes@.len() == 8,
    ensures
        r == read_be8(bytes@),
{
    ((*slice_index_get(bytes, 0) as u64) << 56) | ((*slice_index_get(bytes, 1) as u64) << 48) | ((
    *slice_index_get(bytes, 2) as u64) << 40) | ((*slice_index_get(bytes, 3) as u64) << 32) | ((
    *slice_index_get(bytes, 4) as u64) << 24) | ((*slice_index_get(bytes, 5) as u64) << 16) | ((
    *slice_index_get(bytes, 6) as u64) << 8) | (*slice_index_get(bytes, 7) as u64)
}

/// Decode a public-value record.  Exactly the well-formed records decode;
/// anything else — wrong length, dirty padding, an unknown user-type
/// code, a flag byte that is neither 0 nor 1 — is rejected.
pub fn decode_public_values(bytes: &[u8]) -> (r: Option<DecodedPublicValues>)
    ensures
        r is Some <==> is_public_values(bytes@),
        match r {
            Some(d) => {
                &&& d.ledger_commitment@ == bytes@.subrange(0, 32)
                &&& d.total_tax_paisa == read_be8(bytes@.subrange(56, 64))
                &&& Some(d.user_type) == UserType::spec_from_code(bytes@[64])
                &&& d.used_44ada == (bytes@[65] == 1)
            },
            None => true,
        },
{
    if bytes.len() != 66 {
        return None;
    }
    let mut i: usize = 32;
    while i < 56
        invariant
            32 <= i <= 56,
            bytes@.len() == 66,
            forall|j: int| 32 <= j < i ==> bytes@[j] == 0,
        decreases 56 - i,
    {
        if *slice_index_get(bytes, i) != 0 {
            return None;
        }
        i = i + 1;
    }
    let user_type = match UserType::from_code(*slice_index_get(bytes, 64)) {
        Some(u) => u,
        None => {
            return None;
        },
    };
    let flag_byte = *slice_index_get(bytes, 65);
    if flag_byte != 0 && flag_byte != 1 {
        return None;
    }
    let commitment_slice = slice_subrange(bytes, 0, 32);
    let mut commitment: Vec<u8> = Vec::new();
    let mut c: usize = 0;
    while c < 32
        invariant
            0 <= c <= 32,
            commitment_slice@.len() == 32,
            commitment@ == commitment_slice@.take(c as int),
        decreases 32 - c,
    {
        proof {
            assert(commitment_slice@.take(c + 1) =~= commitment_slice@.take(c as int).push(
                commitment_slice@[c as int],
            ));
        }
        commitment.push(*slice_index_get(commitment_slice, c));
        c = c + 1;
    }
    proof {
        assert(commitment_slice@.take(32) =~= commitment_slice@);
    }
    let tax = read_u64_be(slice_subrange(bytes, 56, 64));
    Some(
        DecodedPublicValues {
            ledger_commitment: commitment,
            total_tax_paisa: tax,
            user_type,
            used_44ada: flag_byte == 1,
        },
    )
}

/// Round trip law: a record encoded from a known user-type code and any
/// commitment, amount and flag is well formed and decodes back to exactly
/// what was encoded.
pub proof fn lemma_encode_decode_roundtrip(c: Seq<u8>, tax_paisa: u64, ut: UserType, flag: bool)
    requires
        c.len() == 32,
    ensures
        is_public_values(public_values_bytes(c, tax_paisa, ut.spec_code(), flag)),
        read_be8(public_values_bytes(c, tax_paisa, ut.spec_code(), flag).subrange(56, 64))
            == tax_paisa,
        public_values_bytes(c, tax_paisa, ut.spec_code(), flag).subrange(0, 32) == c,
        UserType::spec_from_code(public_values_bytes(c, tax_paisa, ut.spec_code(), flag)[64])
            == Some(ut),
        (public_values_bytes(c, tax_paisa, ut.spec_code(), flag)[65] == 1) == flag,
{
    lemma_public_values_layout(c, tax_paisa, ut.spec_code(), flag);
}

} // verus!
