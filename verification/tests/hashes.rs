use evm_journal::precompile::{
    charge, left_pad_32, ripemd160_address, ripemd160_run, sha256_address, sha256_run,
    sha512_address, sha512_run, PrecompileError,
};
use evm_journal::Address;

fn hex(bytes: &[u8]) -> String {
    bytes.iter().map(|b| format!("{:02x}", b)).collect()
}

#[test]
fn sha256_of_known_inputs() {
    let (cost, out) = sha256_run(b"", 60).unwrap();
    assert_eq!(cost, 60);
    assert_eq!(hex(&out), "e3b0c44298fc1c149afbf4c8996fb92427ae41e4649b934ca495991b7852b855");
    let (cost, out) = sha256_run(b"abc", 100).unwrap();
    assert_eq!(cost, 72);
    assert_eq!(hex(&out), "ba7816bf8f01cfea414140de5dae2223b00361a396177a9cb410ff61f20015ad");
}

#[test]
fn ripemd160_is_padded_on_the_left() {
    let (cost, out) = ripemd160_run(b"", 600).unwrap();
    assert_eq!(cost, 600);
    assert_eq!(out.len(), 32);
    assert_eq!(hex(&out), "0000000000000000000000009c1185a5c5e9fc54612808977ee8f548b2258d31");
    let (cost, out) = ripemd160_run(b"abc", 1000).unwrap();
    assert_eq!(cost, 720);
    assert_eq!(hex(&out), "0000000000000000000000008eb208f7e05d987a9b044a8e98c6b087f15a0bfc");
}

#[test]
fn sha512_of_a_known_input() {
    let (cost, out) = sha512_run(b"abc", 72).unwrap();
    assert_eq!(cost, 72);
    assert_eq!(
        hex(&out),
        "ddaf35a193617abacc417349ae20413112e6fa4e89a97ea20a9eeee64b55d39a\
         2192992a274fc1a836ba3c23a3feebbd454d4423643ce80e2a9ac94fa54ca49f"
    );
}

#[test]
fn out_of_gas() {
    assert_eq!(sha256_run(b"", 59), Err(PrecompileError::OutOfGas));
    assert_eq!(sha256_run(b"abc", 71), Err(PrecompileError::OutOfGas));
    assert_eq!(ripemd160_run(b"abc", 719), Err(PrecompileError::OutOfGas));
    assert_eq!(sha512_run(&[0u8; 33], 83), Err(PrecompileError::OutOfGas));
    assert!(sha512_run(&[0u8; 33], 84).is_ok());
}

#[test]
fn cost_counts_started_words() {
    assert_eq!(charge(0, 60, 12, u64::MAX), Ok(60));
    assert_eq!(charge(1, 60, 12, u64::MAX), Ok(72));
    assert_eq!(charge(32, 60, 12, u64::MAX), Ok(72));
    assert_eq!(charge(33, 60, 12, u64::MAX), Ok(84));
    assert_eq!(charge(64, 600, 120, u64::MAX), Ok(840));
    assert_eq!(charge(65, 600, 120, 959), Err(PrecompileError::OutOfGas));
    assert_eq!(charge(usize::MAX, u64::MAX, u64::MAX, u64::MAX), Err(PrecompileError::OutOfGas));
}

#[test]
fn left_pad() {
    assert_eq!(left_pad_32(&vec![]), vec![0u8; 32]);
    let mut expected = vec![0u8; 30];
    expected.extend([7, 8]);
    assert_eq!(left_pad_32(&vec![7, 8]), expected);
    let full: Vec<u8> = (1..=32).collect();
    assert_eq!(left_pad_32(&full), full);
}

#[test]
fn addresses() {
    assert_eq!(sha256_address(), Address::from_low_u64(2));
    assert_eq!(ripemd160_address(), Address::from_low_u64(3));
    assert_eq!(sha512_address(), Address::from_low_u64(1337));
}
