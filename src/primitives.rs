//! Fixed-width values of the state: addresses, 256-bit words and hashes.

use vstd::prelude::*;

verus! {

/// A 20-byte account address.
#[derive(Clone, Copy, Debug, Hash)]
pub struct Address(pub [u8; 20]);

/// A 256-bit unsigned word, as four 64-bit limbs, least significant first.
#[derive(Clone, Copy, Debug, Hash)]
pub struct U256(pub [u64; 4]);

/// A 32-byte hash.
#[derive(Clone, Copy, Debug, Hash)]
pub struct B256(pub [u8; 32]);

/// Compares two byte arrays element by element.
pub fn bytes_equal<const N: usize>(a: &[u8; N], b: &[u8; N]) -> (r: bool)
    ensures
        r == (*a == *b),
{
    let mut i: usize = 0;
    while i < N
        invariant
            i <= N,
            forall|j: int| 0 <= j < i ==> a[j] == b[j],
        decreases N - i,
    {
        if a[i] != b[i] {
            return false;
        }
        i = i + 1;
    }
    assert(*a =~= *b);
    true
}

impl PartialEq for Address {
    fn eq(&self, o: &Address) -> (r: bool) {
        bytes_equal(&self.0, &o.0)
    }
}

impl vstd::std_specs::cmp::PartialEqSpecImpl for Address {
    open spec fn obeys_eq_spec() -> bool {
        true
    }

    open spec fn eq_spec(&self, o: &Address) -> bool {
        self.0 == o.0
    }
}

impl Eq for Address {}

impl PartialEq for B256 {
    fn eq(&self, o: &B256) -> (r: bool) {
        bytes_equal(&self.0, &o.0)
    }
}

impl vstd::std_specs::cmp::PartialEqSpecImpl for B256 {
    open spec fn obeys_eq_spec() -> bool {
        true
    }

    open spec fn eq_spec(&self, o: &B256) -> bool {
        self.0 == o.0
    }
}

impl Eq for B256 {}

impl PartialEq for U256 {
    fn eq(&self, o: &U256) -> (r: bool) {
        let r = self.0[0] == o.0[0] && self.0[1] == o.0[1] && self.0[2] == o.0[2] && self.0[3]
            == o.0[3];
        proof {
            if r {
                assert(self.0 =~= o.0);
            }
        }
        r
    }
}

impl vstd::std_specs::cmp::PartialEqSpecImpl for U256 {
    open spec fn obeys_eq_spec() -> bool {
        true
    }

    open spec fn eq_spec(&self, o: &U256) -> bool {
        self.0 == o.0
    }
}

impl Eq for U256 {}

impl U256 {
    /// The word zero.
    pub open spec fn spec_zero() -> U256 {
        U256([0u64, 0u64, 0u64, 0u64])
    }

    /// The word whose value is `v`.
    pub open spec fn spec_from_u64(v: u64) -> U256 {
        U256([v, 0u64, 0u64, 0u64])
    }

    /// Whether the value fits in 64 bits.
    pub open spec fn fits_u64(self) -> bool {
        self.0[1] == 0 && self.0[2] == 0 && self.0[3] == 0
    }

    /// The word whose value is `v` holds `v` in its lowest limb.
    pub proof fn lemma_from_u64(v: u64)
        ensures
            U256::spec_from_u64(v).fits_u64(),
            U256::spec_from_u64(v).0[0] == v,
    {
    }

    pub fn zero() -> (r: U256)
        ensures
            r == U256::spec_zero(),
    {
        U256([0u64, 0u64, 0u64, 0u64])
    }

    pub fn from_u64(v: u64) -> (r: U256)
        ensures
            r == U256::spec_from_u64(v),
    {
        U256([v, 0u64, 0u64, 0u64])
    }

    /// The value as a `u64`, when it fits.
    pub fn to_u64(&self) -> (r: Option<u64>)
        ensures
            r == (if self.fits_u64() { Some(self.0[0]) } else { None::<u64> }),
    {
        if self.0[1] == 0 && self.0[2] == 0 && self.0[3] == 0 {
            Some(self.0[0])
        } else {
            None
        }
    }
}

/// A copy of `data`.
pub fn copy_bytes(data: &Vec<u8>) -> (r: Vec<u8>)
    ensures
        r@ == data@,
{
    let mut r: Vec<u8> = Vec::new();
    let mut i: usize = 0;
    while i < data.len()
        invariant
            i <= data@.len(),
            r@ == data@.subrange(0, i as int),
        decreases data@.len() - i,
    {
        r.push(data[i]);
        assert(r@ =~= data@.subrange(0, i + 1));
        i = i + 1;
    }
    assert(data@.subrange(0, data@.len() as int) =~= data@);
    r
}

/// The Keccak-256 digest of `data`.
pub uninterp spec fn keccak_of(data: Seq<u8>) -> Seq<u8>;

/// Relies on alloy_primitives::keccak256: the Keccak-256 digest of the bytes.
#[verifier::external_body]
pub(crate) fn keccak(data: &Vec<u8>) -> (r: B256)
    ensures
        r.0@ == keccak_of(data@),
{
    B256(alloy_primitives::keccak256(data).0)
}

/// Relies on alloy_primitives::KECCAK256_EMPTY: the Keccak-256 digest of no bytes.
#[verifier::external_body]
pub(crate) fn empty_code_hash() -> (r: B256)
    ensures
        r.0@ == keccak_of(Seq::empty()),
{
    B256(alloy_primitives::KECCAK256_EMPTY.0)
}

/// Two hashes are equal exactly when their bytes are.
pub proof fn lemma_b256_eq(a: B256, b: B256)
    ensures
        (a == b) <==> (a.0@ == b.0@),
{
    if a.0@ == b.0@ {
        assert forall|i: int| 0 <= i < 32 implies a.0[i] == b.0[i] by {
            assert(a.0@[i] == b.0@[i]);
        }
        assert(a.0 =~= b.0);
    }
}

} // verus!
