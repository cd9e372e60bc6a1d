//! The 64-bit FNV-1a hash.

use vstd::prelude::*;

verus! {

/// The hash of the empty sequence.
pub const OFFSET_BASIS: u64 = 0xcbf2_9ce4_8422_2325;

/// What each step multiplies by.
pub const PRIME: u64 = 0x100_0000_01b3;

/// The hash of a sequence whose hash so far is `h`, one byte later.
pub open spec fn fnv_step(h: u64, b: u8) -> u64 {
    (((h ^ (b as u64)) * PRIME) % 0x1_0000_0000_0000_0000) as u64
}

/// The hash `h` taken on over the bytes `s`.
pub open spec fn fnv_from(h: u64, s: Seq<u8>) -> u64
    decreases s.len(),
{
    if s.len() == 0 {
        h
    } else {
        fnv_step(fnv_from(h, s.drop_last()), s.last())
    }
}

/// The FNV-1a hash of `s`.
pub open spec fn fnv1a(s: Seq<u8>) -> u64 {
    fnv_from(OFFSET_BASIS, s)
}

/// Hashing in two parts is hashing the whole.
pub proof fn lemma_fnv_concat(h: u64, a: Seq<u8>, b: Seq<u8>)
    ensures
        fnv_from(fnv_from(h, a), b) == fnv_from(h, a + b),
    decreases b.len(),
{
    if b.len() == 0 {
        assert(a + b =~= a);
    } else {
        lemma_fnv_concat(h, a, b.drop_last());
        assert((a + b).drop_last() =~= a + b.drop_last());
        assert((a + b).last() == b.last());
    }
}

/// A running FNV-1a hash.
pub struct Fnv {
    state: u64,
}

impl Fnv {
    /// The hash so far.
    pub closed spec fn value(self) -> u64 {
        self.state
    }

    /// The hash of nothing.
    pub fn new() -> (r: Fnv)
        ensures
            r.value() == fnv1a(Seq::empty()),
    {
        Fnv { state: OFFSET_BASIS }
    }

    /// Takes the hash on over `bytes`.
    pub fn write(&mut self, bytes: &[u8])
        ensures
            final(self).value() == fnv_from(old(self).value(), bytes@),
    {
        let ghost start = self.state;
        let mut i: usize = 0;
        assert(bytes@.take(0) =~= Seq::<u8>::empty());
        while i < bytes.len()
            invariant
                i <= bytes.len(),
                self.state == fnv_from(start, bytes@.take(i as int)),
            decreases bytes.len() - i,
        {
            self.state = (self.state ^ (bytes[i] as u64)).wrapping_mul(PRIME);
            assert(bytes@.take(i + 1).drop_last() =~= bytes@.take(i as int));
            i = i + 1;
        }
        assert(bytes@.take(bytes@.len() as int) =~= bytes@);
    }

    /// The hash.
    pub fn finish(&self) -> (r: u64)
        ensures
            r == self.value(),
    {
        self.state
    }
}

/// The hash is FNV-1a in 64 bits: it begins with the offset basis, and each byte
/// is mixed in before the hash is multiplied by the prime.
pub proof fn law_hash_mixes_before_it_multiplies(h: u64, b: u8)
    ensures
        fnv1a(Seq::empty()) == 0xcbf2_9ce4_8422_2325,
        fnv_from(h, seq![b]) == ((h ^ (b as u64)) * 0x100_0000_01b3) % 0x1_0000_0000_0000_0000,
{
    let s = seq![b];
    assert(s.drop_last() =~= Seq::<u8>::empty());
    assert(fnv_from(h, s.drop_last()) == h);
}

} // verus!
