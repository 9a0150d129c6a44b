//! One account and one storage cell as held in memory, and the mathematical
//! view of each that the contracts of the engine speak of.

use crate::primitives::{Hash32, U256};
use vstd::prelude::*;

verus! {

/// An immutable byte sequence together with its 32-byte hash.
#[derive(Debug)]
pub struct Bytecode {
    pub bytes: Vec<u8>,
    pub hash: Hash32,
}

/// What a `Bytecode` stands for.
#[verifier::ext_equal]
pub struct BytecodeView {
    pub bytes: Seq<u8>,
    pub hash: Hash32,
}

impl BytecodeView {
    /// The code of an account without code.
    pub open spec fn empty() -> BytecodeView {
        BytecodeView { bytes: Seq::empty(), hash: Hash32::keccak_empty() }
    }
}

impl View for Bytecode {
    type V = BytecodeView;

    open spec fn view(&self) -> BytecodeView {
        BytecodeView { bytes: self.bytes@, hash: self.hash }
    }
}

impl Clone for Bytecode {
    fn clone(&self) -> (copy: Bytecode)
        ensures
            copy@ == self@,
    {
        Bytecode { bytes: self.bytes.clone(), hash: self.hash }
    }
}

impl Bytecode {
    /// The empty code, with the hash of the empty byte string.
    pub fn new() -> (code: Bytecode)
        ensures
            code@ == BytecodeView::empty(),
    {
        Bytecode { bytes: Vec::new(), hash: Hash32::keccak_empty() }
    }

    /// Code from its bytes and the hash that the caller has for them.
    pub fn new_raw(bytes: Vec<u8>, hash: Hash32) -> (code: Bytecode)
        ensures
            code@ == (BytecodeView { bytes: bytes@, hash }),
    {
        Bytecode { bytes, hash }
    }

    pub fn hash(&self) -> (hash: Hash32)
        ensures
            hash == self@.hash,
    {
        self.hash
    }

    pub fn is_empty(&self) -> (empty: bool)
        ensures
            empty == (self@.bytes.len() == 0),
    {
        self.bytes.len() == 0
    }
}

/// The basic data of an account. `code` is a cache of the code that
/// `code_hash` names and may be absent.
#[derive(Debug)]
pub struct AccountInfo {
    pub balance: U256,
    pub nonce: u64,
    pub code_hash: Hash32,
    pub code: Option<Bytecode>,
}

/// What an `AccountInfo` stands for; the balance is a number below 2^256.
#[verifier::ext_equal]
pub struct AccountInfoView {
    pub balance: nat,
    pub nonce: u64,
    pub code_hash: Hash32,
    pub code: Option<BytecodeView>,
}

impl AccountInfoView {
    /// The data of an account that does not exist yet.
    pub open spec fn blank() -> AccountInfoView {
        AccountInfoView { balance: 0, nonce: 0, code_hash: Hash32::keccak_empty(), code: None }
    }

    /// No balance, no nonce, no code.
    pub open spec fn is_empty(self) -> bool {
        self.balance == 0 && self.nonce == 0 && self.code_hash == Hash32::keccak_empty()
    }
}

impl View for AccountInfo {
    type V = AccountInfoView;

    open spec fn view(&self) -> AccountInfoView {
        AccountInfoView {
            balance: self.balance@,
            nonce: self.nonce,
            code_hash: self.code_hash,
            code: match self.code {
                Some(code) => Some(code@),
                None => None,
            },
        }
    }
}

impl Default for AccountInfo {
    fn default() -> (info: AccountInfo)
        ensures
            info@ == AccountInfoView::blank(),
    {
        AccountInfo {
            balance: U256::zero(),
            nonce: 0,
            code_hash: Hash32::keccak_empty(),
            code: None,
        }
    }
}

impl AccountInfo {
    pub fn is_empty(&self) -> (empty: bool)
        ensures
            empty == self@.is_empty(),
    {
        self.balance.is_zero() && self.nonce == 0 && self.code_hash == Hash32::keccak_empty()
    }
}

/// One storage cell: the value it had when it was first loaded, and the
/// value it has now.
#[derive(Clone, Copy, Debug, PartialEq, Eq, Structural)]
pub struct StorageSlot {
    pub original_value: U256,
    pub present_value: U256,
}

impl StorageSlot {
    pub open spec fn spec_new(original: U256) -> StorageSlot {
        StorageSlot { original_value: original, present_value: original }
    }

    /// A cell as it is after a cold load of `original`.
    #[verifier::when_used_as_spec(spec_new)]
    pub fn new(original: U256) -> (slot: StorageSlot)
        ensures
            slot == StorageSlot::spec_new(original),
    {
        StorageSlot { original_value: original, present_value: original }
    }

    pub fn original_value(&self) -> (value: U256)
        ensures
            value == self.original_value,
    {
        self.original_value
    }

    pub fn present_value(&self) -> (value: U256)
        ensures
            value == self.present_value,
    {
        self.present_value
    }
}

impl Default for StorageSlot {
    fn default() -> (slot: StorageSlot)
        ensures
            slot == StorageSlot::spec_new(U256::zero()),
    {
        StorageSlot { original_value: U256::zero(), present_value: U256::zero() }
    }
}

/// The storage cells of one account that have been accessed, by key, in a
/// hash map of hashbrown.
#[verifier::external_body]
#[derive(Debug)]
pub struct Storage {
    map: hashbrown::HashMap<(u64, u64, u64, u64), StorageSlot>,
}

/// The cells that a `Storage` holds, by key.
pub uninterp spec fn storage_contents(storage: Storage) -> Map<U256, StorageSlot>;

impl View for Storage {
    type V = Map<U256, StorageSlot>;

    open spec fn view(&self) -> Map<U256, StorageSlot> {
        storage_contents(*self)
    }
}

/// `HashMap::new` of hashbrown: a map that holds nothing.
#[verifier::external_body]
fn storage_new() -> (storage: Storage)
    ensures
        storage_contents(storage) == (Map::<U256, StorageSlot>::empty()),
{
    Storage { map: hashbrown::HashMap::new() }
}

/// `HashMap::get` of hashbrown: the cell under `key`, if the map holds one.
#[verifier::external_body]
fn storage_get<'a>(storage: &'a Storage, key: &U256) -> (found: Option<&'a StorageSlot>)
    ensures
        match found {
            Some(slot) => storage_contents(*storage).contains_key(*key) && *slot
                == storage_contents(*storage)[*key],
            None => !storage_contents(*storage).contains_key(*key),
        },
{
    storage.map.get(&(key.w0, key.w1, key.w2, key.w3))
}

/// `HashMap::insert` of hashbrown, without its result: afterwards the map
/// holds `slot` under `key`, and under every other key what it held before.
#[verifier::external_body]
fn storage_insert(storage: &mut Storage, key: U256, slot: StorageSlot)
    ensures
        storage_contents(*final(storage)) == storage_contents(*old(storage)).insert(key, slot),
{
    storage.map.insert((key.w0, key.w1, key.w2, key.w3), slot);
}

/// `HashMap::remove` of hashbrown, without its result: afterwards the map
/// holds nothing under `key`, and under every other key what it held before.
#[verifier::external_body]
fn storage_remove(storage: &mut Storage, key: &U256)
    ensures
        storage_contents(*final(storage)) == storage_contents(*old(storage)).remove(*key),
{
    storage.map.remove(&(key.w0, key.w1, key.w2, key.w3));
}

/// `HashMap::keys` of hashbrown, collected: every key of the map once, in
/// the order in which the map happens to be walked.
#[verifier::external_body]
fn storage_keys(storage: &Storage) -> (keys: Vec<U256>)
    ensures
        keys@.no_duplicates(),
        forall|key: U256| keys@.contains(key) <==> storage_contents(*storage).contains_key(key),
{
    storage.map.keys().map(|k| U256 { w0: k.0, w1: k.1, w2: k.2, w3: k.3 }).collect()
}

impl Storage {
    pub fn new() -> (storage: Storage)
        ensures
            storage@ == (Map::<U256, StorageSlot>::empty()),
    {
        storage_new()
    }

    pub fn get(&self, key: &U256) -> (found: Option<&StorageSlot>)
        ensures
            match found {
                Some(slot) => self@.contains_key(*key) && *slot == self@[*key],
                None => !self@.contains_key(*key),
            },
    {
        storage_get(self, key)
    }

    pub fn contains_key(&self, key: &U256) -> (held: bool)
        ensures
            held == self@.contains_key(*key),
    {
        storage_get(self, key).is_some()
    }

    pub fn insert(&mut self, key: U256, slot: StorageSlot)
        ensures
            final(self)@ == old(self)@.insert(key, slot),
    {
        storage_insert(self, key, slot)
    }

    pub fn remove(&mut self, key: &U256)
        ensures
            final(self)@ == old(self)@.remove(*key),
    {
        storage_remove(self, key)
    }

    /// The keys of the cells held, each once, in no particular order.
    pub fn keys(&self) -> (keys: Vec<U256>)
        ensures
            keys@.no_duplicates(),
            forall|key: U256| keys@.contains(key) <==> self@.contains_key(key),
    {
        storage_keys(self)
    }

    /// Sets every cell held to the zero cell, and keeps the keys.
    pub fn reset_all(&mut self)
        ensures
            final(self)@.dom() == old(self)@.dom(),
            forall|key: U256| #[trigger]
                final(self)@.contains_key(key) ==> final(self)@[key] == StorageSlot::spec_new(
                    U256::zero(),
                ),
    {
        let keys = storage_keys(self);
        let mut i: usize = 0;
        while i < keys.len()
            invariant
                i <= keys.len(),
                self@.dom() == old(self)@.dom(),
                forall|key: U256| keys@.contains(key) <==> self@.contains_key(key),
                forall|j: int|
                    0 <= j < i ==> self@[#[trigger] keys@[j]] == StorageSlot::spec_new(
                        U256::zero(),
                    ),
            decreases keys.len() - i,
        {
            let key = keys[i];
            assert(keys@.contains(key));
            storage_insert(self, key, StorageSlot::default());
            assert(self@.dom() =~= old(self)@.dom());
            i += 1;
        }
        assert forall|key: U256| #[trigger] self@.contains_key(key) implies self@[key]
            == StorageSlot::spec_new(U256::zero()) by {
            assert(keys@.contains(key));
            let j = choose|j: int| 0 <= j < keys@.len() && keys@[j] == key;
            assert(self@[keys@[j]] == StorageSlot::spec_new(U256::zero()));
        }
    }
}

/// One account as held in memory during a transaction.
#[derive(Debug)]
pub struct Account {
    /// Balance, nonce and code.
    pub info: AccountInfo,
    /// The storage cells accessed so far.
    pub storage: Storage,
    /// Set for a newly created account: its storage is not asked of the database.
    pub storage_cleared: bool,
    /// Set for an account that is scheduled for removal.
    pub is_destroyed: bool,
    /// Set for an account that has been the subject of a change.
    pub is_touched: bool,
    /// Set for an account that was preloaded as an existing precompile.
    pub is_existing_precompile: bool,
}

/// What an `Account` stands for.
#[verifier::ext_equal]
pub struct AccountView {
    pub info: AccountInfoView,
    pub storage: Map<U256, StorageSlot>,
    pub storage_cleared: bool,
    pub is_destroyed: bool,
    pub is_touched: bool,
    pub is_existing_precompile: bool,
}

impl AccountView {
    /// The account that a load makes of the data `info`: no cell accessed, no flag set.
    pub open spec fn from_info(info: AccountInfoView) -> AccountView {
        AccountView {
            info,
            storage: Map::empty(),
            storage_cleared: false,
            is_destroyed: false,
            is_touched: false,
            is_existing_precompile: false,
        }
    }

    pub open spec fn is_empty(self) -> bool {
        self.info.is_empty()
    }
}

impl View for Account {
    type V = AccountView;

    open spec fn view(&self) -> AccountView {
        AccountView {
            info: self.info@,
            storage: self.storage@,
            storage_cleared: self.storage_cleared,
            is_destroyed: self.is_destroyed,
            is_touched: self.is_touched,
            is_existing_precompile: self.is_existing_precompile,
        }
    }
}

impl Account {
    pub fn is_empty(&self) -> (empty: bool)
        ensures
            empty == self@.is_empty(),
    {
        self.info.is_empty()
    }
}

impl From<AccountInfo> for Account {
    fn from(info: AccountInfo) -> (account: Account)
        ensures
            account.info == info,
            account@ == AccountView::from_info(info@),
    {
        Account {
            info,
            storage: Storage::new(),
            storage_cleared: false,
            is_destroyed: false,
            is_touched: false,
            is_existing_precompile: false,
        }
    }
}

impl vstd::std_specs::convert::FromSpecImpl<AccountInfo> for Account {
    open spec fn obeys_from_spec() -> bool {
        false
    }

    open spec fn from_spec(info: AccountInfo) -> Account {
        arbitrary()
    }
}

} // verus!
