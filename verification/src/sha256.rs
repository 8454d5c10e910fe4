//! SHA-256 built from the primitive block-compression operation.
//!
//! The constrained execution environment offers no whole-message hash
//! call, only a 64-byte block primitive, so the Merkle–Damgård structure —
//! block splitting, the 0x80 byte, zero padding, the 64-bit big-endian bit
//! length, and the extra all-padding block when the length field does not
//! fit — lives here, verified.  Any deviation in that structure would
//! change the commitment for the same logical ledger, so the padding is
//! stated exactly and the implementation proved against it.

use vstd::prelude::*;
use vstd::slice::{slice_index_get, slice_subrange};

verus! {

/// The eight initial SHA-256 state words.
pub open spec fn sha256_iv() -> Seq<u32> {
    seq![
        0x6a09e667u32,
        0xbb67ae85u32,
        0x3c6ef372u32,
        0xa54ff53au32,
        0x510e527fu32,
        0x9b05688cu32,
        0x1f83d9abu32,
        0x5be0cd19u32,
    ]
}

/// What the SHA-256 compression function produces from an eight-word
/// state and one 64-byte message block.  The function is fixed by the
/// standard; it depends on its arguments alone.
pub uninterp spec fn compress256_of(state: Seq<u32>, block: Seq<u8>) -> Seq<u32>;

/// Relies on sha2::compress256: the raw SHA-256 compression function over
/// one 64-byte block, a pure function of the state and the block.
#[verifier::external_body]
fn compress_block(state: &mut [u32; 8], block: &[u8])
    requires
        block@.len() == 64,
    ensures
        final(state)@ == compress256_of(old(state)@, block@),
{
    let ga = sha2::digest::generic_array::GenericArray::<u8, sha2::digest::consts::U64>::clone_from_slice(
        block,
    );
    sha2::compress256(state, core::slice::from_ref(&ga));
}

/// A run of zero bytes.
pub open spec fn zero_bytes(n: int) -> Seq<u8> {
    Seq::new(n as nat, |i: int| 0u8)
}

/// The eight big-endian bytes of a 64-bit value.
pub open spec fn be8_bytes(v: u64) -> Seq<u8> {
    seq![
        (v >> 56) as u8,
        (v >> 48) as u8,
        (v >> 40) as u8,
        (v >> 32) as u8,
        (v >> 24) as u8,
        (v >> 16) as u8,
        (v >> 8) as u8,
        v as u8,
    ]
}

/// How many zero bytes the padding of a `len`-byte message carries, so
/// that message + 0x80 + zeros + length is a whole number of blocks.
pub open spec fn pad_zero_count(len: int) -> int {
    (119 - (len % 64)) % 64
}

/// The standard Merkle–Damgård padding of a `len`-byte message: a single
/// 0x80 byte (a 1 bit), zeros, then the bit length in eight big-endian
/// bytes.  When fewer than eight bytes besides the 0x80 remain in the
/// final block, the zeros spill into one extra all-padding block.
pub open spec fn sha_padding(len: int) -> Seq<u8> {
    seq![0x80u8] + zero_bytes(pad_zero_count(len)) + be8_bytes((len * 8) as u64)
}

/// A message with its padding appended.
pub open spec fn sha_padded(data: Seq<u8>) -> Seq<u8> {
    data + sha_padding(data.len() as int)
}

/// Chained compression over whole 64-byte blocks, taken front to back.
pub open spec fn compress_chain(state: Seq<u32>, bytes: Seq<u8>) -> Seq<u32>
    decreases bytes.len(),
{
    if bytes.len() < 64 {
        state
    } else {
        compress_chain(compress256_of(state, bytes.take(64)), bytes.skip(64))
    }
}

/// The four big-endian bytes of one state word.
pub open spec fn be4_bytes(w: u32) -> Seq<u8> {
    seq![(w >> 24) as u8, (w >> 16) as u8, (w >> 8) as u8, w as u8]
}

/// The big-endian bytes of a word sequence.
pub open spec fn words_be_bytes(ws: Seq<u32>) -> Seq<u8>
    decreases ws.len(),
{
    if ws.len() == 0 {
        Seq::<u8>::empty()
    } else {
        be4_bytes(ws[0]) + words_be_bytes(ws.skip(1))
    }
}

/// The SHA-256 digest of a byte sequence: the chained compression of the
/// padded message, rendered as 32 big-endian bytes.
pub open spec fn sha256_of(data: Seq<u8>) -> Seq<u8> {
    words_be_bytes(compress_chain(sha256_iv(), sha_padded(data)))
}

/// Compressing a whole-block prefix and then the rest chains together.
proof fn lemma_chain_append_block(s: Seq<u32>, a: Seq<u8>, b: Seq<u8>)
    requires
        a.len() % 64 == 0,
        b.len() == 64,
    ensures
        compress_chain(s, a + b) == compress256_of(compress_chain(s, a), b),
    decreases a.len(),
{
    if a.len() == 0 {
        assert(a + b =~= b);
        assert(b.take(64) =~= b);
        assert(b.skip(64) =~= Seq::<u8>::empty());
        assert(compress_chain(s, a) == s);
        assert(compress_chain(s, a + b) == compress_chain(
            compress256_of(s, b),
            Seq::<u8>::empty(),
        ));
        assert(compress_chain(compress256_of(s, b), Seq::<u8>::empty()) == compress256_of(s, b));
    } else {
        assert(a.len() >= 64);
        assert((a + b).take(64) =~= a.take(64));
        assert((a + b).skip(64) =~= a.skip(64) + b);
        assert(a.skip(64).len() % 64 == 0);
        lemma_chain_append_block(compress256_of(s, a.take(64)), a.skip(64), b);
    }
}

/// Compute the SHA-256 digest of a byte slice.
pub fn sha256_hash(data: &[u8]) -> (r: Vec<u8>)
    requires
        data@.len() < 0x2000000000000000,
    ensures
        r@ == sha256_of(data@),
        r@.len() == 32,
{
    let mut state: [u32; 8] = [
        0x6a09e667,
        0xbb67ae85,
        0x3c6ef372,
        0xa54ff53a,
        0x510e527f,
        0x9b05688c,
        0x1f83d9ab,
        0x5be0cd19,
    ];
    proof {
        assert(state@ =~= sha256_iv());
    }
    let len = data.len();
    let mut i: usize = 0;
    // Whole 64-byte blocks of the message itself.
    while len - i >= 64
        invariant
            0 <= i <= len,
            i % 64 == 0,
            len == data@.len(),
            state@ == compress_chain(sha256_iv(), data@.take(i as int)),
        decreases len - i,
    {
        let block = slice_subrange(data, i, i + 64);
        proof {
            assert(data@.take(i + 64) =~= data@.take(i as int) + data@.subrange(
                i as int,
                i + 64,
            ));
            lemma_chain_append_block(
                sha256_iv(),
                data@.take(i as int),
                data@.subrange(i as int, i + 64),
            );
        }
        compress_block(&mut state, block);
        i = i + 64;
    }
    let remaining = len - i;
    // The message tail plus the 0x80 marker, zero padding and bit length.
    let bitlen: u64 = (len as u64) * 8;
    let mut tail: Vec<u8> = Vec::new();
    let mut j: usize = i;
    while j < len
        invariant
            i <= j <= len,
            len == data@.len(),
            tail@ == data@.subrange(i as int, j as int),
        decreases len - j,
    {
        proof {
            assert(data@.subrange(i as int, j + 1) =~= data@.subrange(i as int, j as int).push(
                data@[j as int],
            ));
        }
        tail.push(*slice_index_get(data, j));
        j = j + 1;
    }
    tail.push(0x80);
    let zeros: usize = if remaining < 56 {
        55 - remaining
    } else {
        119 - remaining
    };
    let mut z: usize = 0;
    while z < zeros
        invariant
            0 <= z <= zeros,
            tail@ == data@.subrange(i as int, len as int) + seq![0x80u8] + zero_bytes(z as int),
        decreases zeros - z,
    {
        proof {
            assert(zero_bytes(z + 1) =~= zero_bytes(z as int).push(0u8));
            assert((data@.subrange(i as int, len as int) + seq![0x80u8] + zero_bytes(z as int)).push(
                0u8,
            ) =~= data@.subrange(i as int, len as int) + seq![0x80u8] + zero_bytes(z + 1));
        }
        tail.push(0);
        z = z + 1;
    }
    tail.push((bitlen >> 56) as u8);
    tail.push((bitlen >> 48) as u8);
    tail.push((bitlen >> 40) as u8);
    tail.push((bitlen >> 32) as u8);
    tail.push((bitlen >> 24) as u8);
    tail.push((bitlen >> 16) as u8);
    tail.push((bitlen >> 8) as u8);
    tail.push(bitlen as u8);
    proof {
        assert(len % 64 == remaining as int % 64);
        assert(pad_zero_count(len as int) == zeros as int);
        assert(tail@ =~= data@.subrange(i as int, len as int) + sha_padding(len as int));
        assert(sha_padded(data@) =~= data@.take(i as int) + tail@);
    }
    if remaining < 56 {
        proof {
            assert(tail@.len() == 64);
            lemma_chain_append_block(sha256_iv(), data@.take(i as int), tail@);
            assert(compress_chain(sha256_iv(), sha_padded(data@)) == compress256_of(
                compress_chain(sha256_iv(), data@.take(i as int)),
                tail@,
            ));
        }
        compress_block(&mut state, tail.as_slice());
    } else {
        proof {
            assert(tail@.len() == 128);
        }
        let first = slice_subrange(tail.as_slice(), 0, 64);
        proof {
            let a = data@.take(i as int);
            let b1 = tail@.subrange(0, 64);
            let b2 = tail@.subrange(64, 128);
            assert(a + tail@ =~= (a + b1) + b2);
            assert((a + b1).len() % 64 == 0);
            lemma_chain_append_block(sha256_iv(), a, b1);
            assert(a + b1 =~= (a + tail@).take(a.len() as int + 64));
            lemma_chain_append_block(sha256_iv(), a + b1, b2);
        }
        compress_block(&mut state, first);
        let second = slice_subrange(tail.as_slice(), 64, 128);
        compress_block(&mut state, second);
    }
    // Render the state as 32 big-endian bytes.
    let mut out: Vec<u8> = Vec::new();
    let mut w: usize = 0;
    proof {
        assert(state@.skip(0) =~= state@);
        assert(out@ + words_be_bytes(state@) =~= words_be_bytes(state@));
    }
    while w < 8
        invariant
            0 <= w <= 8,
            state@.len() == 8,
            words_be_bytes(state@) == out@ + words_be_bytes(state@.skip(w as int)),
            out@.len() == 4 * w,
        decreases 8 - w,
    {
        let word = state[w];
        let before = Ghost(out@);
        proof {
            let rest = state@.skip(w as int);
            assert(rest[0] == state@[w as int]);
            assert(rest.skip(1) =~= state@.skip(w + 1));
            assert(before@ + words_be_bytes(rest) =~= (before@ + be4_bytes(word))
                + words_be_bytes(state@.skip(w + 1)));
        }
        out.push((word >> 24) as u8);
        out.push((word >> 16) as u8);
        out.push((word >> 8) as u8);
        out.push(word as u8);
        proof {
            assert(out@ =~= before@ + be4_bytes(word));
        }
        w = w + 1;
    }
    proof {
        assert(state@.skip(8) =~= Seq::<u32>::empty());
        assert(out@ =~= words_be_bytes(state@));
    }
    out
}

} // verus!
