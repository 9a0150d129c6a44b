//! The database behind the engine: a read-only oracle for the basic data of
//! an account, for code by its hash, and for storage values.

use crate::account::{AccountInfo, AccountInfoView, Bytecode, BytecodeView};
use crate::primitives::{Address, Hash32, U256};
use vstd::prelude::*;

verus! {

/// What a database answers, as three functions.
pub struct Oracle {
    /// The basic data of the account at an address; of an unknown account,
    /// `AccountInfoView::blank()`.
    pub basic: spec_fn(Address) -> AccountInfoView,
    /// The code with a given hash.
    pub code_by_hash: spec_fn(Hash32) -> BytecodeView,
    /// The value of a storage cell of an account.
    pub storage: spec_fn(Address, U256) -> U256,
}

/// A database that the engine reads from. Its answers are those of its
/// oracle, and asking does not change the oracle.
pub trait Database {
    /// What this database answers.
    spec fn oracle(&self) -> Oracle;

    /// The basic data of the account at `address`.
    fn basic(&mut self, address: Address) -> (info: AccountInfo)
        ensures
            info@ == (old(self).oracle().basic)(address),
            final(self).oracle() == old(self).oracle(),
    ;

    /// The code whose hash is `code_hash`.
    fn code_by_hash(&mut self, code_hash: Hash32) -> (code: Bytecode)
        ensures
            code@ == (old(self).oracle().code_by_hash)(code_hash),
            final(self).oracle() == old(self).oracle(),
    ;

    /// The value of the storage cell `index` of the account at `address`.
    fn storage(&mut self, address: Address, index: U256) -> (value: U256)
        ensures
            value == (old(self).oracle().storage)(address, index),
            final(self).oracle() == old(self).oracle(),
    ;
}

/// The database that knows no account: every account is blank, every code
/// is empty, every storage cell is zero.
#[derive(Clone, Copy, Debug, Default)]
pub struct EmptyDatabase {}

impl Database for EmptyDatabase {
    open spec fn oracle(&self) -> Oracle {
        Oracle {
            basic: |address: Address| AccountInfoView::blank(),
            code_by_hash: |code_hash: Hash32| BytecodeView::empty(),
            storage: |address: Address, index: U256| U256::zero(),
        }
    }

    fn basic(&mut self, address: Address) -> (info: AccountInfo) {
        AccountInfo::default()
    }

    fn code_by_hash(&mut self, code_hash: Hash32) -> (code: Bytecode) {
        Bytecode::new()
    }

    fn storage(&mut self, address: Address, index: U256) -> (value: U256) {
        U256::zero()
    }
}

} // verus!
