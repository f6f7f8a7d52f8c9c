//! Stable hashing for goldens: FNV-1a over bytes, bit-identical on every
//! platform, so pinned values compare across machines.

use vstd::prelude::*;

verus! {

/// FNV-1a 64-bit offset basis: the hash of no bytes.
pub const FNV_OFFSET: u64 = 0xcbf2_9ce4_8422_2325;
/// FNV-1a 64-bit prime.
pub const FNV_PRIME: u64 = 0x0000_0100_0000_01b3;

/// One FNV-1a round: mix a byte into the state, then multiply (wrapping).
pub open spec fn fnv_step(h: u64, b: u8) -> u64 {
    (h ^ (b as u64)).wrapping_mul(FNV_PRIME)
}

/// The state after absorbing `bytes`, in order, starting from `h`.
pub open spec fn fnv_fold(h: u64, bytes: Seq<u8>) -> u64
    decreases bytes.len(),
{
    if bytes.len() == 0 {
        h
    } else {
        fnv_step(fnv_fold(h, bytes.drop_last()), bytes.last())
    }
}

/// The little-endian bytes of `v`'s two's-complement bit pattern.
pub open spec fn i32_le_bytes(v: i32) -> Seq<u8> {
    let u = v as u32;
    seq![u as u8, (u >> 8) as u8, (u >> 16) as u8, (u >> 24) as u8]
}

/// Absorbing two byte strings one after the other is absorbing their
/// concatenation: the digest does not depend on how input is split
/// across writes.
pub proof fn lemma_fold_concat(h: u64, a: Seq<u8>, b: Seq<u8>)
    ensures
        fnv_fold(fnv_fold(h, a), b) == fnv_fold(h, a + b),
    decreases b.len(),
{
    if b.len() == 0 {
        assert(a + b =~= a);
    } else {
        lemma_fold_concat(h, a, b.drop_last());
        assert((a + b).drop_last() =~= a + b.drop_last());
        assert((a + b).last() == b.last());
    }
}

/// Incremental FNV-1a 64-bit hasher.
#[derive(Clone, Copy, Debug)]
pub struct Fnv1a(u64);

impl View for Fnv1a {
    type V = u64;

    closed spec fn view(&self) -> u64 {
        self.0
    }
}

impl Default for Fnv1a {
    fn default() -> (r: Self)
        ensures
            r@ == FNV_OFFSET,
    {
        Self::new()
    }
}

impl Fnv1a {
    /// The empty hash.
    pub fn new() -> (r: Self)
        ensures
            r@ == FNV_OFFSET,
    {
        Fnv1a(FNV_OFFSET)
    }

    /// Absorbs raw bytes.
    pub fn write(&mut self, bytes: &[u8])
        ensures
            final(self)@ == fnv_fold(old(self)@, bytes@),
    {
        let mut i: usize = 0;
        while i < bytes.len()
            invariant
                i <= bytes@.len(),
                self@ == fnv_fold(old(self)@, bytes@.take(i as int)),
            decreases bytes@.len() - i,
        {
            assert(bytes@.take(i + 1).drop_last() =~= bytes@.take(i as int));
            self.0 = (self.0 ^ bytes[i] as u64).wrapping_mul(FNV_PRIME);
            i = i + 1;
        }
        assert(bytes@.take(i as int) =~= bytes@);
    }

    /// Absorbs an `i32`, little-endian.
    pub fn write_i32(&mut self, value: i32)
        ensures
            final(self)@ == fnv_fold(old(self)@, i32_le_bytes(value)),
    {
        let u = value as u32;
        let bytes: [u8; 4] = [u as u8, (u >> 8) as u8, (u >> 16) as u8, (u >> 24) as u8];
        assert(bytes@ =~= i32_le_bytes(value));
        self.write(&bytes);
    }

    /// The hash of everything absorbed so far.
    pub fn finish(self) -> (r: u64)
        ensures
            r == self@,
    {
        self.0
    }
}

} // verus!
