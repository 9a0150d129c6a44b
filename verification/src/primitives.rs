//! Fixed-width values of the account model: 160-bit addresses, 32-byte
//! digests and 256-bit unsigned integers with checked and wrapping arithmetic.

use vstd::prelude::*;

verus! {

/// A 160-bit account identifier, held as the top 32 bits and the low 128 bits
/// of the big-endian 20-byte value.
#[derive(Clone, Copy, Debug, PartialEq, Eq, Hash, Structural)]
pub struct Address {
    pub hi: u32,
    pub lo: u128,
}

impl Address {
    /// The address whose twenty bytes are zero but for the low eight, which hold `value`.
    pub open spec fn spec_from_low_u64(value: u64) -> Address {
        Address { hi: 0, lo: value as u128 }
    }

    /// The address of the RIPEMD-160 precompile, `0x00…03`.
    pub open spec fn ripemd_precompile() -> Address {
        Address { hi: 0, lo: 3 }
    }

    #[verifier::when_used_as_spec(spec_from_low_u64)]
    pub fn from_low_u64(value: u64) -> (address: Address)
        ensures
            address == Address::spec_from_low_u64(value),
    {
        Address { hi: 0, lo: value as u128 }
    }

    /// Whether this is the address of the RIPEMD-160 precompile.
    pub fn is_ripemd_precompile(&self) -> (yes: bool)
        ensures
            yes == (*self == Address::ripemd_precompile()),
    {
        self.hi == 0 && self.lo == 3
    }
}

/// A 32-byte digest, held as the two 128-bit halves of the big-endian value.
#[derive(Clone, Copy, Debug, PartialEq, Eq, Hash, Structural)]
pub struct Hash32 {
    pub hi: u128,
    pub lo: u128,
}

impl Hash32 {
    /// The keccak256 digest of the empty byte string: the code hash of every
    /// account without code.
    pub open spec fn spec_keccak_empty() -> Hash32 {
        Hash32 { hi: 0xc5d2460186f7233c927e7db2dcc703c0, lo: 0xe500b653ca82273b7bfad8045d85a470 }
    }

    #[verifier::when_used_as_spec(spec_keccak_empty)]
    pub fn keccak_empty() -> (digest: Hash32)
        ensures
            digest == Hash32::spec_keccak_empty(),
    {
        Hash32 { hi: 0xc5d2460186f7233c927e7db2dcc703c0, lo: 0xe500b653ca82273b7bfad8045d85a470 }
    }
}

/// 2^256: `U256` arithmetic is arithmetic below this bound.
pub open spec fn u256_modulus() -> nat {
    0x1_0000_0000_0000_0000_0000_0000_0000_0000_0000_0000_0000_0000_0000_0000_0000_0000nat
}

/// The sum of two numbers below 2^256, reduced modulo 2^256.
pub open spec fn wrapping_sum(a: nat, b: nat) -> nat {
    if a + b < u256_modulus() {
        a + b
    } else {
        (a + b - u256_modulus()) as nat
    }
}

/// The difference of two numbers below 2^256, reduced modulo 2^256.
pub open spec fn wrapping_difference(a: nat, b: nat) -> nat {
    if a >= b {
        (a - b) as nat
    } else {
        (a + u256_modulus() - b) as nat
    }
}

/// A 256-bit unsigned integer as four 64-bit limbs, the least significant first.
#[derive(Clone, Copy, Debug, PartialEq, Eq, Hash, Structural)]
pub struct U256 {
    pub w0: u64,
    pub w1: u64,
    pub w2: u64,
    pub w3: u64,
}

impl View for U256 {
    type V = nat;

    /// The number that the limbs stand for.
    open spec fn view(&self) -> nat {
        (self.w0 + self.w1 * 0x1_0000_0000_0000_0000int + self.w2
            * 0x1_0000_0000_0000_0000_0000_0000_0000_0000int + self.w3
            * 0x1_0000_0000_0000_0000_0000_0000_0000_0000_0000_0000_0000_0000int) as nat
    }
}

impl U256 {
    pub open spec fn spec_zero() -> U256 {
        U256 { w0: 0, w1: 0, w2: 0, w3: 0 }
    }

    pub open spec fn spec_from_u64(value: u64) -> U256 {
        U256 { w0: value, w1: 0, w2: 0, w3: 0 }
    }

    #[verifier::when_used_as_spec(spec_zero)]
    pub fn zero() -> (z: U256)
        ensures
            z == U256::spec_zero(),
            z@ == 0,
    {
        U256 { w0: 0, w1: 0, w2: 0, w3: 0 }
    }

    #[verifier::when_used_as_spec(spec_from_u64)]
    pub fn from_u64(value: u64) -> (n: U256)
        ensures
            n == U256::spec_from_u64(value),
            n@ == value,
    {
        U256 { w0: value, w1: 0, w2: 0, w3: 0 }
    }

    pub fn is_zero(&self) -> (yes: bool)
        ensures
            yes == (self@ == 0),
            yes == (*self == U256::spec_zero()),
    {
        self.w0 == 0 && self.w1 == 0 && self.w2 == 0 && self.w3 == 0
    }

    /// `checked_add` of primitive_types' `U256`: the sum where it is below
    /// 2^256, nothing where it is not.
    #[verifier::external_body]
    pub(crate) fn checked_add(self, rhs: U256) -> (sum: Option<U256>)
        ensures
            self@ + rhs@ < u256_modulus() ==> sum.is_some() && sum.unwrap()@ == self@ + rhs@,
            self@ + rhs@ >= u256_modulus() ==> sum.is_none(),
    {
        let a = primitive_types::U256([self.w0, self.w1, self.w2, self.w3]);
        let b = primitive_types::U256([rhs.w0, rhs.w1, rhs.w2, rhs.w3]);
        a.checked_add(b).map(|s| U256 { w0: s.0[0], w1: s.0[1], w2: s.0[2], w3: s.0[3] })
    }

    /// `checked_sub` of primitive_types' `U256`: the difference where `rhs`
    /// is at most `self`, nothing where it is larger.
    #[verifier::external_body]
    pub(crate) fn checked_sub(self, rhs: U256) -> (difference: Option<U256>)
        ensures
            self@ >= rhs@ ==> difference.is_some() && difference.unwrap()@ == self@ - rhs@,
            self@ < rhs@ ==> difference.is_none(),
    {
        let a = primitive_types::U256([self.w0, self.w1, self.w2, self.w3]);
        let b = primitive_types::U256([rhs.w0, rhs.w1, rhs.w2, rhs.w3]);
        a.checked_sub(b).map(|d| U256 { w0: d.0[0], w1: d.0[1], w2: d.0[2], w3: d.0[3] })
    }

    /// `overflowing_add` of primitive_types' `U256`, without its overflow
    /// flag: the sum modulo 2^256.
    #[verifier::external_body]
    pub(crate) fn wrapping_add(self, rhs: U256) -> (sum: U256)
        ensures
            sum@ == wrapping_sum(self@, rhs@),
    {
        let a = primitive_types::U256([self.w0, self.w1, self.w2, self.w3]);
        let b = primitive_types::U256([rhs.w0, rhs.w1, rhs.w2, rhs.w3]);
        let s = a.overflowing_add(b).0;
        U256 { w0: s.0[0], w1: s.0[1], w2: s.0[2], w3: s.0[3] }
    }

    /// `overflowing_sub` of primitive_types' `U256`, without its overflow
    /// flag: the difference modulo 2^256.
    #[verifier::external_body]
    pub(crate) fn wrapping_sub(self, rhs: U256) -> (difference: U256)
        ensures
            difference@ == wrapping_difference(self@, rhs@),
    {
        let a = primitive_types::U256([self.w0, self.w1, self.w2, self.w3]);
        let b = primitive_types::U256([rhs.w0, rhs.w1, rhs.w2, rhs.w3]);
        let d = a.overflowing_sub(b).0;
        U256 { w0: d.0[0], w1: d.0[1], w2: d.0[2], w3: d.0[3] }
    }
}

} // verus!
