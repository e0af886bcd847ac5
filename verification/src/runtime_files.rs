//! The check of a runtime file written out of the program's embedded resources: its length
//! and its 64-bit FNV-1a hash must be the ones recorded when the resource was embedded.
use vstd::prelude::*;

verus! {

/// The FNV-1a offset basis.
pub const FNV_OFFSET_BASIS: u64 = 0xcbf29ce484222325;
/// The FNV-1a prime.
pub const FNV_PRIME: u64 = 0x100000001b3;

/// One FNV-1a step: the byte is xor-ed in, then the hash is multiplied by the prime, wrapping.
pub open spec fn fnv1a_step(hash: u64, b: u8) -> u64 {
    (((hash ^ (b as u64)) as nat * FNV_PRIME as nat) % 0x1_0000_0000_0000_0000) as u64
}

/// The hash after feeding `bytes`, in order, to a hash that stood at `hash`.
pub open spec fn fnv1a_spec(hash: u64, bytes: Seq<u8>) -> u64
    decreases bytes.len(),
{
    if bytes.len() == 0 {
        hash
    } else {
        fnv1a_step(fnv1a_spec(hash, bytes.drop_last()), bytes.last())
    }
}

/// Feeds `bytes` to a hash that stood at `hash`; starting from [`FNV_OFFSET_BASIS`] and feeding
/// a file chunk by chunk gives the file's hash.
pub fn fnv1a_update(hash: u64, bytes: &[u8]) -> (r: u64)
    ensures
        r == fnv1a_spec(hash, bytes@),
{
    let mut h = hash;
    let mut i: usize = 0;
    while i < bytes.len()
        invariant
            i <= bytes@.len(),
            h == fnv1a_spec(hash, bytes@.subrange(0, i as int)),
        decreases bytes@.len() - i,
    {
        assert(bytes@.subrange(0, i + 1).drop_last() =~= bytes@.subrange(0, i as int));
        h = h ^ (bytes[i] as u64);
        h = h.wrapping_mul(FNV_PRIME);
        i = i + 1;
    }
    assert(bytes@.subrange(0, bytes@.len() as int) =~= bytes@);
    h
}

/// Hashing in two pieces gives the hash of the whole: what a chunked read relies on.
pub proof fn lemma_fnv1a_chunks(hash: u64, a: Seq<u8>, b: Seq<u8>)
    ensures
        fnv1a_spec(fnv1a_spec(hash, a), b) == fnv1a_spec(hash, a + b),
    decreases b.len(),
{
    if b.len() > 0 {
        lemma_fnv1a_chunks(hash, a, b.drop_last());
        assert((a + b).drop_last() =~= a + b.drop_last());
        assert((a + b).last() == b.last());
    } else {
        assert(a + b =~= a);
    }
}

} // verus!
