use vstd::prelude::*;

verus! {

pub assume_specification<T>[ rand::random::<T> ]() -> (r: T)
    where
        rand::distributions::Standard: rand::distributions::Distribution<T>,
;

/// Relies on ahash 0.7's `AHasher::new_with_keys`, `Hasher::write` and
/// `Hasher::finish`: a keyed 64-bit hash of `data`. ahash picks its algorithm
/// by the target's CPU features, so nothing is stated of the value.
#[verifier::external_body]
fn ahash_with_keys(key1: u64, key2: u64, data: &[u8]) -> (r: u64) {
    let mut hasher = ahash::AHasher::new_with_keys(key1 as u128, key2 as u128);
    std::hash::Hasher::write(&mut hasher, data);
    std::hash::Hasher::finish(&hasher)
}

/// Keyed hash over a shred's wire bytes. Its two seeds are drawn at random,
/// and drawn again by `reset`, after which earlier hashes no longer match.
#[derive(Clone, Debug)]
pub struct PacketHasher {
    seed1: u64,
    seed2: u64,
}

impl PacketHasher {
    pub closed spec fn seeds(&self) -> (u64, u64) {
        (self.seed1, self.seed2)
    }

    /// A hasher with fresh random seeds.
    pub fn new() -> (r: PacketHasher) {
        PacketHasher { seed1: rand::random::<u64>(), seed2: rand::random::<u64>() }
    }

    /// A hasher with the given seeds.
    pub fn with_seeds(seed1: u64, seed2: u64) -> (r: PacketHasher)
        ensures
            r.seeds() == (seed1, seed2),
    {
        PacketHasher { seed1, seed2 }
    }

    /// The keyed hash of `payload` under the current seeds.
    pub fn hash_payload(&self, payload: &[u8]) -> (r: u64) {
        ahash_with_keys(self.seed1, self.seed2, payload)
    }

    /// Replaces both seeds with fresh random values.
    pub fn reset(&mut self) {
        self.seed1 = rand::random::<u64>();
        self.seed2 = rand::random::<u64>();
    }
}

} // verus!
