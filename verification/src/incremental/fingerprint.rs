//! 64-bit FNV-1a fingerprints of compiler inputs.

use vstd::prelude::*;
use vstd::string::StringSliceAdditionalSpecFns;
use crate::bytes::{le_bytes, push_le};

verus! {

pub const FNV_OFFSET_BASIS: u64 = 0xcbf29ce484222325;

pub const FNV_PRIME: u64 = 0x00000100000001b3;

/// One FNV-1a step: mix in a byte, then multiply by the prime modulo `2^64`.
pub open spec fn fnv_step(h: u64, b: u8) -> u64 {
    vstd::wrapping::u64_specs::wrapping_mul(h ^ (b as u64), FNV_PRIME)
}

/// The FNV-1a state after mixing `bytes` into `h`, in order.
pub open spec fn fnv(h: u64, bytes: Seq<u8>) -> u64
    decreases bytes.len(),
{
    if bytes.len() == 0 {
        h
    } else {
        fnv_step(fnv(h, bytes.drop_last()), bytes.last())
    }
}

/// Mixing two byte strings in turn is mixing their concatenation.
pub proof fn lemma_fnv_concat(h: u64, a: Seq<u8>, b: Seq<u8>)
    ensures
        fnv(fnv(h, a), b) == fnv(h, a + b),
    decreases b.len(),
{
    if b.len() > 0 {
        lemma_fnv_concat(h, a, b.drop_last());
        assert((a + b).drop_last() =~= a + b.drop_last());
    } else {
        assert(a + b =~= a);
    }
}

#[derive(Debug, Clone, Copy, PartialEq, Eq, Hash, Default, Structural)]
pub struct Fingerprint(pub u64);

/// The FNV hasher state.
#[derive(Clone)]
struct FnvHasher(u64);

impl FnvHasher {
    fn new() -> (h: Self)
        ensures
            h.0 == FNV_OFFSET_BASIS,
    {
        FnvHasher(FNV_OFFSET_BASIS)
    }

    fn finish(&self) -> (r: u64)
        ensures
            r == self.0,
    {
        self.0
    }

    fn write(&mut self, bytes: &[u8])
        ensures
            final(self).0 == fnv(old(self).0, bytes@),
    {
        let mut i: usize = 0;
        while i < bytes.len()
            invariant
                i <= bytes@.len(),
                self.0 == fnv(old(self).0, bytes@.take(i as int)),
            decreases bytes@.len() - i,
        {
            assert(bytes@.take(i + 1).drop_last() =~= bytes@.take(i as int));
            self.0 = (self.0 ^ (bytes[i] as u64)).wrapping_mul(FNV_PRIME);
            i += 1;
        }
        assert(bytes@.take(bytes@.len() as int) =~= bytes@);
    }
}

/// The fingerprint of a byte string.
pub open spec fn fingerprint_of_bytes(bytes: Seq<u8>) -> u64 {
    fnv(FNV_OFFSET_BASIS, bytes)
}

impl Fingerprint {
    /// The fingerprint of a string: FNV-1a over its UTF-8 bytes.
    pub fn of(value: &str) -> (f: Self)
        ensures
            f.0 == fingerprint_of_bytes(value.spec_bytes()),
    {
        let mut hasher = FnvHasher::new();
        hasher.write(value.as_bytes());
        Fingerprint(hasher.finish())
    }

    /// The fingerprint of the two fingerprints, each as eight little-endian bytes.
    pub fn combine(self, other: Fingerprint) -> (f: Self)
        ensures
            f.0 == fingerprint_of_bytes(le_bytes(self.0 as nat, 8) + le_bytes(other.0 as nat, 8)),
    {
        let mut builder = FingerprintBuilder::new();
        builder.update_u64(self.0);
        builder.update_u64(other.0);
        proof {
            lemma_fnv_concat(FNV_OFFSET_BASIS, le_bytes(self.0 as nat, 8), le_bytes(other.0 as nat, 8));
        }
        builder.finish()
    }

    pub fn as_u64(self) -> (v: u64)
        ensures
            v == self.0,
    {
        self.0
    }
}

/// Accumulates data into a fingerprint.
pub struct FingerprintBuilder {
    hasher: FnvHasher,
}

impl FingerprintBuilder {
    /// The hash state so far.
    pub closed spec fn state(&self) -> u64 {
        self.hasher.0
    }

    pub fn new() -> (b: Self)
        ensures
            b.state() == FNV_OFFSET_BASIS,
    {
        FingerprintBuilder { hasher: FnvHasher::new() }
    }

    pub fn update_bytes(&mut self, bytes: &[u8])
        ensures
            final(self).state() == fnv(old(self).state(), bytes@),
    {
        self.hasher.write(bytes);
    }

    pub fn update_u64(&mut self, value: u64)
        ensures
            final(self).state() == fnv(old(self).state(), le_bytes(value as nat, 8)),
    {
        let mut bytes: Vec<u8> = Vec::new();
        push_le(&mut bytes, value, 8);
        assert(Seq::<u8>::empty() + le_bytes(value as nat, 8) =~= le_bytes(value as nat, 8));
        self.hasher.write(bytes.as_slice());
    }

    /// Mixes in the eight little-endian bytes of the two's-complement form of `value`.
    pub fn update_i64(&mut self, value: i64)
        ensures
            final(self).state() == fnv(old(self).state(), le_bytes(value as u64 as nat, 8)),
    {
        self.update_u64(value as u64);
    }

    /// Mixes in the eight little-endian bytes of `value`.
    pub fn update_usize(&mut self, value: usize)
        ensures
            final(self).state() == fnv(old(self).state(), le_bytes(value as nat, 8)),
    {
        self.update_u64(value as u64);
    }

    pub fn update_bool(&mut self, value: bool)
        ensures
            final(self).state() == fnv(old(self).state(), seq![if value { 1u8 } else { 0u8 }]),
    {
        let byte: u8 = if value { 1 } else { 0 };
        let bytes = [byte];
        assert(bytes@ =~= seq![byte]);
        self.hasher.write(bytes.as_slice());
    }

    /// Mixes in the UTF-8 bytes of `value`.
    pub fn update_str(&mut self, value: &str)
        ensures
            final(self).state() == fnv(old(self).state(), value.spec_bytes()),
    {
        self.hasher.write(value.as_bytes());
    }

    pub fn update_fingerprint(&mut self, value: Fingerprint)
        ensures
            final(self).state() == fnv(old(self).state(), le_bytes(value.0 as nat, 8)),
    {
        self.update_u64(value.0);
    }

    pub fn finish(self) -> (f: Fingerprint)
        ensures
            f.0 == self.state(),
    {
        Fingerprint(self.hasher.finish())
    }
}

impl Default for FingerprintBuilder {
    fn default() -> (b: Self)
        ensures
            b.state() == FNV_OFFSET_BASIS,
    {
        Self::new()
    }
}

/// The fingerprint of a string is what a fresh builder gives after mixing in the string.
pub proof fn lemma_of_matches_builder(value: &str, b: FingerprintBuilder)
    requires
        b.state() == FNV_OFFSET_BASIS,
    ensures
        fnv(b.state(), value.spec_bytes()) == fingerprint_of_bytes(value.spec_bytes()),
{
}

/// Feeding data in pieces gives the same fingerprint as feeding it at once.
pub proof fn lemma_builder_pieces(h: u64, a: Seq<u8>, b: Seq<u8>)
    ensures
        fnv(fnv(h, a), b) == fnv(h, a + b),
{
    lemma_fnv_concat(h, a, b);
}

} // verus!
