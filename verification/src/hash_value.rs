//! 256-bit identifiers and signatures, held as fixed-width integers.

use vstd::prelude::*;

verus! {

/// A 256-bit content hash: `hi` holds the first sixteen bytes, `lo` the last sixteen,
/// both big-endian.
#[derive(Clone, Copy, Debug, PartialEq, Eq, Structural, Hash)]
pub struct HashValue {
    pub hi: u128,
    pub lo: u128,
}

impl HashValue {
    pub fn new(hi: u128, lo: u128) -> (h: HashValue)
        ensures
            h == (HashValue { hi, lo }),
    {
        HashValue { hi, lo }
    }

    /// The hash of thirty-two zero bytes.
    pub fn zero() -> (h: HashValue)
        ensures
            h == (HashValue { hi: 0, lo: 0 }),
    {
        HashValue { hi: 0, lo: 0 }
    }

    /// The hash that marks an empty transaction accumulator: the ASCII bytes of
    /// `ACCUMULATOR_PLACEHOLDER_HASH`, padded with zero bytes to full length.
    pub fn accumulator_placeholder() -> (h: HashValue)
        ensures
            h == Self::spec_accumulator_placeholder(),
    {
        HashValue {
            hi: 0x4143_4355_4d55_4c41_544f_525f_504c_4143u128,
            lo: 0x4548_4f4c_4445_525f_4841_5348_0000_0000u128,
        }
    }

    pub open spec fn spec_accumulator_placeholder() -> HashValue {
        HashValue {
            hi: 0x4143_4355_4d55_4c41_544f_525f_504c_4143u128,
            lo: 0x4548_4f4c_4445_525f_4841_5348_0000_0000u128,
        }
    }

    /// The hash that marks an empty sparse Merkle tree: the ASCII bytes of
    /// `SPARSE_MERKLE_PLACEHOLDER_HASH`, padded with zero bytes to full length.
    pub fn sparse_merkle_placeholder() -> (h: HashValue)
        ensures
            h == Self::spec_sparse_merkle_placeholder(),
    {
        HashValue {
            hi: 0x5350_4152_5345_5f4d_4552_4b4c_455f_504cu128,
            lo: 0x4143_4548_4f4c_4445_525f_4841_5348_0000u128,
        }
    }

    pub open spec fn spec_sparse_merkle_placeholder() -> HashValue {
        HashValue {
            hi: 0x5350_4152_5345_5f4d_4552_4b4c_455f_504cu128,
            lo: 0x4143_4548_4f4c_4445_525f_4841_5348_0000u128,
        }
    }
}

impl Default for HashValue {
    /// The all-zero hash.
    fn default() -> (h: HashValue)
        ensures
            h == (HashValue { hi: 0, lo: 0 }),
    {
        HashValue { hi: 0, lo: 0 }
    }
}

/// The address of an account; a validator is named by its address.
#[derive(Clone, Copy, Debug, PartialEq, Eq, Structural, Hash)]
pub struct AccountAddress {
    pub hi: u128,
    pub lo: u128,
}

impl AccountAddress {
    pub fn new(hi: u128, lo: u128) -> (a: AccountAddress)
        ensures
            a == (AccountAddress { hi, lo }),
    {
        AccountAddress { hi, lo }
    }
}

/// The author of a block or of a vote.
pub type Author = AccountAddress;

/// A 512-bit signature, carried through unopened: its two 256-bit halves.
#[derive(Clone, Copy, Debug, PartialEq, Eq, Structural, Hash)]
pub struct Signature {
    pub r: HashValue,
    pub s: HashValue,
}

impl Signature {
    pub fn new(r: HashValue, s: HashValue) -> (sig: Signature)
        ensures
            sig == (Signature { r, s }),
    {
        Signature { r, s }
    }
}

} // verus!
