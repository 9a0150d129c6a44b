//! The hash precompiles: SHA-256, RIPEMD-160 and SHA-512, each with a gas
//! cost that is linear in the number of 32-byte words of its input.

use crate::primitives::Address;
use sha2::Digest;
use vstd::prelude::*;

verus! {

/// Why a precompile did not run.
#[derive(Clone, Copy, Debug, PartialEq, Eq, Structural)]
pub enum PrecompileError {
    /// The cost is above the gas limit.
    OutOfGas,
}

/// The number of 32-byte words that `len` bytes fill, the last one possibly
/// in part.
pub open spec fn words(len: nat) -> nat {
    (len + 31) / 32
}

/// The cost of hashing `len` bytes: `base`, and `word` for every word.
pub open spec fn linear_cost(len: nat, base: nat, word: nat) -> nat {
    base + word * words(len)
}

/// The SHA-256 digest of a byte string.
pub uninterp spec fn sha256_digest(input: Seq<u8>) -> Seq<u8>;

/// The SHA-512 digest of a byte string.
pub uninterp spec fn sha512_digest(input: Seq<u8>) -> Seq<u8>;

/// The RIPEMD-160 digest of a byte string.
pub uninterp spec fn ripemd160_digest(input: Seq<u8>) -> Seq<u8>;

/// `Sha256::digest` of sha2: the SHA-256 digest of the input, 32 bytes.
#[verifier::external_body]
fn sha256(input: &[u8]) -> (digest: Vec<u8>)
    ensures
        digest@ == sha256_digest(input@),
        digest@.len() == 32,
{
    sha2::Sha256::digest(input).to_vec()
}

/// `Sha512::digest` of sha2: the SHA-512 digest of the input, 64 bytes.
#[verifier::external_body]
fn sha512(input: &[u8]) -> (digest: Vec<u8>)
    ensures
        digest@ == sha512_digest(input@),
        digest@.len() == 64,
{
    sha2::Sha512::digest(input).to_vec()
}

/// `Ripemd160::digest` of ripemd: the RIPEMD-160 digest of the input, 20 bytes.
#[verifier::external_body]
fn ripemd160(input: &[u8]) -> (digest: Vec<u8>)
    ensures
        digest@ == ripemd160_digest(input@),
        digest@.len() == 20,
{
    ripemd::Ripemd160::digest(input).to_vec()
}

/// The cost of hashing `len` bytes where it is within `gas_limit`;
/// `OutOfGas` where it is above.
pub fn charge(len: usize, base: u64, word: u64, gas_limit: u64) -> (charged: Result<
    u64,
    PrecompileError,
>)
    ensures
        linear_cost(len as nat, base as nat, word as nat) <= gas_limit ==> charged == Ok::<
            u64,
            PrecompileError,
        >(linear_cost(len as nat, base as nat, word as nat) as u64),
        linear_cost(len as nat, base as nat, word as nat) > gas_limit ==> charged == Err::<
            u64,
            PrecompileError,
        >(PrecompileError::OutOfGas),
{
    let whole: u128 = (len / 32) as u128;
    let count: u128 = if len % 32 == 0 {
        whole
    } else {
        whole + 1
    };
    assert(count == words(len as nat));
    assert(word as u128 * count <= 0xffff_ffff_ffff_ffff * 0x1_0000_0000_0000_0000) by (nonlinear_arith)
        requires
            word <= 0xffff_ffff_ffff_ffff,
            count <= 0x1_0000_0000_0000_0000,
    ;
    let cost: u128 = base as u128 + word as u128 * count;
    if cost > gas_limit as u128 {
        Err(PrecompileError::OutOfGas)
    } else {
        Ok(cost as u64)
    }
}

/// `digest` on the left filled up with zero bytes to 32 bytes.
pub fn left_pad_32(digest: &Vec<u8>) -> (padded: Vec<u8>)
    requires
        digest@.len() <= 32,
    ensures
        padded@ == Seq::new((32 - digest@.len()) as nat, |i: int| 0u8) + digest@,
{
    let mut padded: Vec<u8> = Vec::new();
    let fill = 32 - digest.len();
    while padded.len() < fill
        invariant
            fill == 32 - digest@.len(),
            padded@.len() <= fill,
            padded@ == Seq::new(padded@.len(), |i: int| 0u8),
        decreases fill - padded.len(),
    {
        padded.push(0u8);
    }
    let mut i: usize = 0;
    while i < digest.len()
        invariant
            i <= digest@.len(),
            padded@ == Seq::new((32 - digest@.len()) as nat, |k: int| 0u8) + digest@.take(i as int),
        decreases digest.len() - i,
    {
        padded.push(digest[i]);
        proof {
            assert(digest@.take(i + 1) =~= digest@.take(i as int).push(digest@[i as int]));
        }
        i += 1;
    }
    proof {
        assert(digest@.take(i as int) =~= digest@);
    }
    padded
}

/// The SHA-256 precompile: for 60 gas and 12 for every word of the input,
/// its SHA-256 digest.
pub fn sha256_run(input: &[u8], gas_limit: u64) -> (outcome: Result<(u64, Vec<u8>), PrecompileError>)
    ensures
        match outcome {
            Ok(done) => linear_cost(input@.len(), 60, 12) <= gas_limit && done.0 == linear_cost(
                input@.len(),
                60,
                12,
            ) && done.1@ == sha256_digest(input@),
            Err(error) => linear_cost(input@.len(), 60, 12) > gas_limit && error
                == PrecompileError::OutOfGas,
        },
{
    match charge(input.len(), 60, 12, gas_limit) {
        Ok(cost) => Ok((cost, sha256(input))),
        Err(error) => Err(error),
    }
}

/// The RIPEMD-160 precompile: for 600 gas and 120 for every word of the
/// input, its RIPEMD-160 digest after twelve zero bytes.
pub fn ripemd160_run(input: &[u8], gas_limit: u64) -> (outcome: Result<
    (u64, Vec<u8>),
    PrecompileError,
>)
    ensures
        match outcome {
            Ok(done) => linear_cost(input@.len(), 600, 120) <= gas_limit && done.0 == linear_cost(
                input@.len(),
                600,
                120,
            ) && done.1@ == Seq::new(12, |i: int| 0u8) + ripemd160_digest(input@),
            Err(error) => linear_cost(input@.len(), 600, 120) > gas_limit && error
                == PrecompileError::OutOfGas,
        },
{
    match charge(input.len(), 600, 120, gas_limit) {
        Ok(cost) => {
            let digest = ripemd160(input);
            Ok((cost, left_pad_32(&digest)))
        },
        Err(error) => Err(error),
    }
}

/// The SHA-512 precompile: for 60 gas and 12 for every word of the input,
/// its SHA-512 digest.
pub fn sha512_run(input: &[u8], gas_limit: u64) -> (outcome: Result<(u64, Vec<u8>), PrecompileError>)
    ensures
        match outcome {
            Ok(done) => linear_cost(input@.len(), 60, 12) <= gas_limit && done.0 == linear_cost(
                input@.len(),
                60,
                12,
            ) && done.1@ == sha512_digest(input@),
            Err(error) => linear_cost(input@.len(), 60, 12) > gas_limit && error
                == PrecompileError::OutOfGas,
        },
{
    match charge(input.len(), 60, 12, gas_limit) {
        Ok(cost) => Ok((cost, sha512(input))),
        Err(error) => Err(error),
    }
}

/// The address of the SHA-256 precompile, `0x00…02`.
pub fn sha256_address() -> (address: Address)
    ensures
        address == Address::spec_from_low_u64(2),
{
    Address::from_low_u64(2)
}

/// The address of the RIPEMD-160 precompile, `0x00…03`.
pub fn ripemd160_address() -> (address: Address)
    ensures
        address == Address::ripemd_precompile(),
{
    Address::from_low_u64(3)
}

/// The address of the SHA-512 precompile, `1337`.
pub fn sha512_address() -> (address: Address)
    ensures
        address == Address::spec_from_low_u64(1337),
{
    Address::from_low_u64(1337)
}

} // verus!
