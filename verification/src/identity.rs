//! Fixed-size identities: signatures, account addresses and freshness tokens.

use vstd::prelude::*;

verus! {

/// A transaction signature, the key under which the cluster reports finality.
#[derive(Clone, Copy, Debug, PartialEq, Eq)]
pub struct Signature {
    pub bytes: [u8; 64],
}

impl Signature {
    /// Byte-wise comparison.
    pub fn same(&self, other: &Signature) -> (equal: bool)
        ensures
            equal == (*self == *other),
    {
        let mut i: usize = 0;
        while i < 64
            invariant
                i <= 64,
                forall|k: int| 0 <= k < i ==> self.bytes[k] == other.bytes[k],
            decreases 64 - i,
        {
            if self.bytes[i] != other.bytes[i] {
                return false;
            }
            i += 1;
        }
        assert(self.bytes =~= other.bytes);
        true
    }
}

/// The public identity of an account.
#[derive(Clone, Copy, Debug, PartialEq, Eq)]
pub struct Address {
    pub bytes: [u8; 32],
}

/// A short-lived anchor that every payload is signed against. It stays valid
/// up to and including the block height `last_valid_height`.
#[derive(Clone, Copy, Debug, PartialEq, Eq)]
pub struct FreshnessToken {
    pub anchor: [u8; 32],
    pub last_valid_height: u64,
}

impl FreshnessToken {
    /// Whether the validity window has elapsed once the cluster is at `height`.
    pub open spec fn expired_at(self, height: u64) -> bool {
        height > self.last_valid_height
    }

    pub fn is_expired_at(&self, height: u64) -> (expired: bool)
        ensures
            expired == self.expired_at(height),
    {
        height > self.last_valid_height
    }
}

} // verus!
