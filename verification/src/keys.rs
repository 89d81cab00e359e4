//! Fixed-size keys: voters' public keys and transaction hashes.
use vstd::prelude::*;

verus! {

/// A voter's public signing key.
#[derive(Clone, Copy, Debug)]
pub struct PublicKey(pub [u8; 32]);

/// The hash of a transaction.
#[derive(Clone, Copy, Debug)]
pub struct TxHash(pub [u8; 32]);

/// Whether two 32-byte arrays hold the same bytes.
fn same_bytes(a: &[u8; 32], b: &[u8; 32]) -> (r: bool)
    ensures
        r == (*a == *b),
{
    let mut i: usize = 0;
    while i < 32
        invariant
            i <= 32,
            forall|j: int| 0 <= j < i ==> a@[j] == b@[j],
        decreases 32 - i,
    {
        if a[i] != b[i] {
            return false;
        }
        i = i + 1;
    }
    assert(*a =~= *b);
    true
}

impl PartialEq for PublicKey {
    fn eq(&self, other: &Self) -> (r: bool) {
        same_bytes(&self.0, &other.0)
    }
}

impl Eq for PublicKey {}

impl vstd::std_specs::cmp::PartialEqSpecImpl for PublicKey {
    open spec fn obeys_eq_spec() -> bool {
        true
    }

    open spec fn eq_spec(&self, other: &Self) -> bool {
        *self == *other
    }
}

impl PartialEq for TxHash {
    fn eq(&self, other: &Self) -> (r: bool) {
        same_bytes(&self.0, &other.0)
    }
}

impl Eq for TxHash {}

impl vstd::std_specs::cmp::PartialEqSpecImpl for TxHash {
    open spec fn obeys_eq_spec() -> bool {
        true
    }

    open spec fn eq_spec(&self, other: &Self) -> bool {
        *self == *other
    }
}

/// The hash whose 32 bytes are all zero; it stands for "no hash".
pub open spec fn zero_hash() -> TxHash {
    TxHash(vstd::array::spec_array_fill_for_copy_type::<u8, 32>(0u8))
}

impl TxHash {
    /// The hash whose bytes are all zero.
    pub fn zero() -> (h: TxHash)
        ensures
            h == zero_hash(),
    {
        TxHash([0u8; 32])
    }

    /// Whether this is the all-zero hash.
    pub fn is_zero(&self) -> (r: bool)
        ensures
            r == (*self == zero_hash()),
    {
        *self == TxHash::zero()
    }
}

} // verus!
