//! Content digests and key derivation.
//!
//! The engine fixes one canonical digest for content-addressed keys: a 61-bit
//! rolling digest over bytes. Equal content always yields an equal digest, so
//! two registered currencies with identical metadata collide by design. A
//! payment key additionally carries the payment's unique id in its upper 64
//! bits, which makes payment keys injective in the id.

use vstd::prelude::*;

verus! {

/// The digest modulus: digests live in `[0, 2^61)`.
pub const DIGEST_MOD: u64 = 0x2000000000000000;

/// The digest's initial state.
pub const DIGEST_SEED: u64 = 5381;

/// One step of the rolling digest.
pub open spec fn digest_step(h: int, b: int) -> int {
    (h * 131 + b) % (DIGEST_MOD as int)
}

/// The digest state after folding `s` into state `h`.
pub open spec fn digest_from(h: int, s: Seq<u8>) -> int
    decreases s.len(),
{
    if s.len() == 0 {
        h
    } else {
        digest_step(digest_from(h, s.drop_last()), s.last() as int)
    }
}

/// The digest of a byte string.
pub open spec fn digest_of(s: Seq<u8>) -> int {
    digest_from(DIGEST_SEED as int, s)
}

/// The little-endian bytes of a 64-bit value.
pub open spec fn u64_le_bytes(x: u64) -> Seq<u8> {
    Seq::new(8, |i: int| ((x >> (8 * i as u64)) & 0xff) as u8)
}

/// Folding a 64-bit value into the digest state.
pub open spec fn digest_u64(h: int, x: u64) -> int {
    digest_from(h, u64_le_bytes(x))
}

proof fn lemma_digest_step_bounded(h: int, b: int)
    requires
        0 <= h,
        0 <= b,
    ensures
        0 <= digest_step(h, b) < DIGEST_MOD,
{
}

/// The digest state stays inside `[0, 2^61)`.
pub proof fn lemma_digest_from_bounded(h: int, s: Seq<u8>)
    requires
        0 <= h < DIGEST_MOD,
    ensures
        0 <= digest_from(h, s) < DIGEST_MOD,
    decreases s.len(),
{
    if s.len() > 0 {
        lemma_digest_from_bounded(h, s.drop_last());
        lemma_digest_step_bounded(digest_from(h, s.drop_last()), s.last() as int);
    }
}

/// One exec step of the rolling digest.
pub fn digest_push_byte(h: u64, b: u8) -> (r: u64)
    requires
        h < DIGEST_MOD,
    ensures
        r == digest_step(h as int, b as int),
        r < DIGEST_MOD,
{
    (((h as u128) * 131 + (b as u128)) % (DIGEST_MOD as u128)) as u64
}

/// Folds a byte string into the digest state.
pub fn digest_chain(h0: u64, bytes: &Vec<u8>) -> (r: u64)
    requires
        h0 < DIGEST_MOD,
    ensures
        r == digest_from(h0 as int, bytes@),
        r < DIGEST_MOD,
{
    let mut h: u64 = h0;
    let mut i: usize = 0;
    proof {
        assert(bytes@.subrange(0, 0) =~= Seq::<u8>::empty());
    }
    while i < bytes.len()
        invariant
            i <= bytes.len(),
            h == digest_from(h0 as int, bytes@.subrange(0, i as int)),
            h < DIGEST_MOD,
        decreases bytes.len() - i,
    {
        let b = bytes[i];
        proof {
            assert(bytes@.subrange(0, i + 1).drop_last() =~= bytes@.subrange(0, i as int));
            assert(bytes@.subrange(0, i + 1).last() == bytes@[i as int]);
        }
        h = digest_push_byte(h, b);
        i = i + 1;
    }
    proof {
        assert(bytes@.subrange(0, bytes@.len() as int) =~= bytes@);
    }
    h
}

/// Folds a 64-bit value into the digest state.
pub fn digest_chain_u64(h0: u64, x: u64) -> (r: u64)
    requires
        h0 < DIGEST_MOD,
    ensures
        r == digest_u64(h0 as int, x),
        r < DIGEST_MOD,
{
    let mut h: u64 = h0;
    let mut k: u64 = 0;
    proof {
        assert(u64_le_bytes(x).subrange(0, 0) =~= Seq::<u8>::empty());
    }
    while k < 8
        invariant
            k <= 8,
            h == digest_from(h0 as int, u64_le_bytes(x).subrange(0, k as int)),
            h < DIGEST_MOD,
        decreases 8 - k,
    {
        let b: u8 = ((x >> (8 * k)) & 0xff) as u8;
        proof {
            assert(u64_le_bytes(x).subrange(0, k + 1).drop_last() =~= u64_le_bytes(x).subrange(
                0,
                k as int,
            ));
            assert(u64_le_bytes(x).subrange(0, k + 1).last() == u64_le_bytes(x)[k as int]);
        }
        h = digest_push_byte(h, b);
        k = k + 1;
    }
    proof {
        assert(u64_le_bytes(x).subrange(0, 8) =~= u64_le_bytes(x));
    }
    h
}

/// The digest of a byte string.
pub fn digest_bytes(bytes: &Vec<u8>) -> (r: u64)
    ensures
        r == digest_of(bytes@),
        r < DIGEST_MOD,
{
    digest_chain(DIGEST_SEED, bytes)
}

} // verus!
