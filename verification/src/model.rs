//! The journaled state as a mathematical value, and every operation of the
//! engine as a function on it. The contracts of the engine are stated over
//! these functions.

use crate::account::{AccountInfoView, AccountView, BytecodeView, StorageSlot};
use crate::db::Oracle;
use crate::journal::{
    entry_applies, frames_apply, lemma_frames_concat, lemma_shape_frame, lemma_shape_frames,
    same_shape, undo_entry, undo_frame, undo_frames, with_balance, Accounts, EntryView, Frame,
    LogView,
};
use crate::primitives::{u256_modulus, Address, Hash32, U256};
use vstd::prelude::*;

verus! {

/// The journaled state: the loaded accounts, the logs, the call depth and
/// the stack of journal frames, the newest last.
#[verifier::ext_equal]
pub struct Model {
    pub state: Accounts,
    pub logs: Seq<LogView>,
    pub depth: nat,
    pub journal: Seq<Frame>,
}

/// Why a transfer failed.
#[derive(Clone, Copy, Debug, PartialEq, Eq, Structural)]
pub enum TransferError {
    /// The sender's balance is below the amount.
    OutOfFund,
    /// The recipient's balance would reach 2^256.
    OverflowPayment,
}

/// What `selfdestruct` reports.
#[derive(Clone, Copy, Debug, PartialEq, Eq, Structural)]
pub struct SelfDestructResult {
    pub had_value: bool,
    pub is_cold: bool,
    pub exists: bool,
    pub previously_destroyed: bool,
}

/// The account with its code cache filled.
pub open spec fn with_code(account: AccountView, code: BytecodeView) -> AccountView {
    AccountView { info: AccountInfoView { code: Some(code), ..account.info }, ..account }
}

/// The account as `create_account` leaves it: storage marked cleared, every
/// cell held set to zero, no code.
pub open spec fn created(account: AccountView) -> AccountView {
    AccountView {
        info: AccountInfoView { code_hash: Hash32::keccak_empty(), code: None, ..account.info },
        storage: Map::new(
            |key: U256| account.storage.contains_key(key),
            |key: U256| StorageSlot::spec_new(U256::zero()),
        ),
        storage_cleared: true,
        ..account
    }
}

/// Whether an account cannot be created over: it has code, or a nonce.
pub open spec fn occupied(account: AccountView) -> bool {
    (account.info.code matches Some(code) && code.bytes.len() > 0) || account.info.nonce != 0
}

/// The accounts after a preload of `entries`, the later entry winning where
/// two have the same address.
pub open spec fn preloaded(accounts: Accounts, entries: Seq<(Address, AccountInfoView)>) -> Accounts
    decreases entries.len(),
{
    if entries.len() == 0 {
        accounts
    } else {
        preloaded(accounts, entries.drop_last()).insert(
            entries.last().0,
            AccountView::from_info(entries.last().1),
        )
    }
}

/// The blank account of an existing precompile.
pub open spec fn precompile_account() -> AccountView {
    AccountView { is_existing_precompile: true, ..AccountView::from_info(AccountInfoView::blank()) }
}

/// The accounts after a preload of blank precompiles at `addresses`.
pub open spec fn preloaded_default(accounts: Accounts, addresses: Seq<Address>) -> Accounts
    decreases addresses.len(),
{
    if addresses.len() == 0 {
        accounts
    } else {
        preloaded_default(accounts, addresses.drop_last()).insert(
            addresses.last(),
            precompile_account(),
        )
    }
}

impl Model {
    /// The state of a new engine: nothing loaded, one empty journal frame.
    pub open spec fn fresh() -> Model {
        Model {
            state: Map::empty(),
            logs: Seq::empty(),
            depth: 0,
            journal: seq![Seq::<EntryView>::empty()],
        }
    }

    /// Well-formedness: there is a frame to write to, the depth is below the
    /// number of frames, and every journal entry can be undone in its turn.
    pub open spec fn wf(self) -> bool {
        &&& self.journal.len() >= 1
        &&& self.depth < self.journal.len()
        &&& frames_apply(self.state, self.journal)
    }

    /// No journal frame holds an entry.
    pub open spec fn journal_is_blank(self) -> bool {
        forall|i: int| 0 <= i < self.journal.len() ==> (#[trigger] self.journal[i]).len() == 0
    }

    pub open spec fn is_warm(self, address: Address) -> bool {
        self.state.contains_key(address)
    }

    /// The state with `entry` appended to the newest frame.
    pub open spec fn push(self, entry: EntryView) -> Model {
        Model {
            journal: self.journal.update(
                self.journal.len() - 1,
                self.journal.last().push(entry),
            ),
            ..self
        }
    }

    /// The state with `account` under `address`.
    pub open spec fn with_account(self, address: Address, account: AccountView) -> Model {
        Model { state: self.state.insert(address, account), ..self }
    }

    /// `touch`: a loaded account that is not yet touched is marked, and the
    /// mark is journaled.
    pub open spec fn touch(self, address: Address) -> Model {
        if self.is_warm(address) && !self.state[address].is_touched {
            self.push(EntryView::AccountTouched { address }).with_account(
                address,
                AccountView { is_touched: true, ..self.state[address] },
            )
        } else {
            self
        }
    }

    /// `load_account`: an account that is not loaded yet is fetched and
    /// inserted, and the load is journaled.
    pub open spec fn load_account(self, address: Address, oracle: Oracle) -> Model {
        if self.is_warm(address) {
            self
        } else {
            self.push(EntryView::AccountLoaded { address }).with_account(
                address,
                AccountView::from_info((oracle.basic)(address)),
            )
        }
    }

    /// The code cache of a loaded account is filled, if it is empty.
    pub open spec fn fill_code(self, address: Address, oracle: Oracle) -> Model {
        let account = self.state[address];
        if account.info.code is None {
            let code = if account.info.code_hash == Hash32::keccak_empty() {
                BytecodeView::empty()
            } else {
                (oracle.code_by_hash)(account.info.code_hash)
            };
            self.with_account(address, with_code(account, code))
        } else {
            self
        }
    }

    /// `load_code`: the account is loaded, then its code cache filled.
    pub open spec fn load_code(self, address: Address, oracle: Oracle) -> Model {
        self.load_account(address, oracle).fill_code(address, oracle)
    }

    /// What `load_account_exist` returns: whether the account was cold, and
    /// whether it exists.
    pub open spec fn account_exist(self, address: Address, oracle: Oracle) -> (bool, bool) {
        let account = self.load_code(address, oracle).state[address];
        if account.is_existing_precompile {
            (false, true)
        } else {
            (!self.is_warm(address), !account.is_empty())
        }
    }

    /// `inc_nonce`: unless the nonce is at its maximum, the account is
    /// touched and its nonce incremented, and the increment is journaled.
    pub open spec fn inc_nonce(self, address: Address) -> Model {
        if self.state[address].info.nonce == u64::MAX {
            self
        } else {
            let touched = self.touch(address);
            let account = touched.state[address];
            touched.push(EntryView::NonceChange { address }).with_account(
                address,
                AccountView {
                    info: AccountInfoView {
                        nonce: (account.info.nonce + 1) as u64,
                        ..account.info
                    },
                    ..account
                },
            )
        }
    }

    /// What `inc_nonce` returns.
    pub open spec fn next_nonce(self, address: Address) -> Option<u64> {
        if self.state[address].info.nonce == u64::MAX {
            None
        } else {
            Some((self.state[address].info.nonce + 1) as u64)
        }
    }

    /// `set_code`: the account is touched and gets the code and its hash;
    /// the journal entry records the new code.
    pub open spec fn set_code(self, address: Address, code: BytecodeView) -> Model {
        let touched = self.touch(address);
        let account = touched.state[address];
        touched.push(EntryView::CodeChange { address, had_code: code }).with_account(
            address,
            AccountView {
                info: AccountInfoView { code_hash: code.hash, code: Some(code), ..account.info },
                ..account
            },
        )
    }

    /// The first half of `transfer`: both accounts loaded, then both touched.
    pub open spec fn transfer_prepared(self, from: Address, to: Address, oracle: Oracle) -> Model {
        self.load_account(from, oracle).load_account(to, oracle).touch(from).touch(to)
    }

    /// The second step of a `transfer` that the sender can pay: the sender
    /// debited.
    pub open spec fn transfer_debited(
        self,
        from: Address,
        to: Address,
        value: nat,
        oracle: Oracle,
    ) -> Model {
        let prepared = self.transfer_prepared(from, to, oracle);
        let sender = prepared.state[from];
        prepared.with_account(from, with_balance(sender, (sender.info.balance - value) as nat))
    }

    /// What `transfer` returns.
    pub open spec fn transfer_result(
        self,
        from: Address,
        to: Address,
        value: nat,
        oracle: Oracle,
    ) -> Result<(bool, bool), TransferError> {
        let prepared = self.transfer_prepared(from, to, oracle);
        if prepared.state[from].info.balance < value {
            Err(TransferError::OutOfFund)
        } else if self.transfer_debited(from, to, value, oracle).state[to].info.balance + value
            >= u256_modulus() {
            Err(TransferError::OverflowPayment)
        } else {
            Ok((!self.is_warm(from), !self.load_account(from, oracle).is_warm(to)))
        }
    }

    /// `transfer`: both accounts are loaded, then both touched. A sender that
    /// cannot pay stops it there. Else the sender is debited. A recipient
    /// whose balance would overflow stops it there. Else the recipient is
    /// credited and the transfer journaled.
    pub open spec fn transfer(self, from: Address, to: Address, value: nat, oracle: Oracle) -> Model {
        let prepared = self.transfer_prepared(from, to, oracle);
        if prepared.state[from].info.balance < value {
            prepared
        } else {
            let debited = self.transfer_debited(from, to, value, oracle);
            let recipient = debited.state[to];
            if recipient.info.balance + value >= u256_modulus() {
                debited
            } else {
                debited.push(EntryView::BalanceTransfer { from, to, balance: value }).with_account(
                    to,
                    with_balance(recipient, recipient.info.balance + value),
                )
            }
        }
    }

    /// What `create_account` returns: whether the account was created.
    pub open spec fn can_create(self, address: Address, is_precompile: bool, oracle: Oracle) -> bool {
        !occupied(self.load_code(address, oracle).state[address]) && !is_precompile
    }

    /// `create_account`: the account is loaded with its code. Unless it is
    /// occupied or a precompile, it is reset, and a touch is journaled.
    pub open spec fn create_account(
        self,
        address: Address,
        is_precompile: bool,
        oracle: Oracle,
    ) -> Model {
        let loaded = self.load_code(address, oracle);
        if self.can_create(address, is_precompile, oracle) {
            loaded.with_account(address, created(loaded.state[address])).push(
                EntryView::AccountTouched { address },
            )
        } else {
            loaded
        }
    }

    /// The balance that `selfdestruct` moves.
    pub open spec fn destroyed_balance(self, address: Address, target: Address, oracle: Oracle) -> nat {
        self.load_code(target, oracle).state[address].info.balance
    }

    /// Whether `selfdestruct` can credit the target without overflow.
    pub open spec fn can_destroy(self, address: Address, target: Address, oracle: Oracle) -> bool {
        let loaded = self.load_code(target, oracle);
        &&& loaded.is_warm(address)
        &&& address != target ==> loaded.state[target].info.balance
            + loaded.state[address].info.balance < u256_modulus()
    }

    /// `selfdestruct`: the target is loaded with its code; the account loses
    /// its balance and is marked destroyed; a target other than the account
    /// itself is touched and credited; the whole is journaled.
    pub open spec fn selfdestruct(self, address: Address, target: Address, oracle: Oracle) -> Model {
        let loaded = self.load_code(target, oracle);
        let victim = loaded.state[address];
        let balance = victim.info.balance;
        let emptied = loaded.with_account(
            address,
            AccountView { is_destroyed: true, ..with_balance(victim, 0) },
        );
        let credited = if address == target {
            emptied
        } else {
            let touched = emptied.touch(target);
            let recipient = touched.state[target];
            touched.with_account(target, with_balance(recipient, recipient.info.balance + balance))
        };
        credited.push(
            EntryView::AccountDestroyed {
                address,
                target,
                was_destroyed: victim.is_destroyed,
                had_balance: balance,
            },
        )
    }

    /// What `selfdestruct` returns.
    pub open spec fn selfdestruct_result(
        self,
        address: Address,
        target: Address,
        oracle: Oracle,
    ) -> SelfDestructResult {
        let exist = self.account_exist(target, oracle);
        let victim = self.load_code(target, oracle).state[address];
        SelfDestructResult {
            had_value: victim.info.balance != 0,
            is_cold: exist.0,
            exists: exist.1,
            previously_destroyed: victim.is_destroyed,
        }
    }

    /// The value that `sload` returns.
    pub open spec fn storage_value(self, address: Address, key: U256, oracle: Oracle) -> U256 {
        let account = self.state[address];
        if account.storage.contains_key(key) {
            account.storage[key].present_value
        } else if account.storage_cleared {
            U256::zero()
        } else {
            (oracle.storage)(address, key)
        }
    }

    /// Whether the cell has not been loaded yet.
    pub open spec fn is_cold_slot(self, address: Address, key: U256) -> bool {
        !self.state[address].storage.contains_key(key)
    }

    /// `sload`: a cell that is not held yet is loaded, with original and
    /// present value the same, and the load is journaled.
    pub open spec fn sload(self, address: Address, key: U256, oracle: Oracle) -> Model {
        let account = self.state[address];
        if account.storage.contains_key(key) {
            self
        } else {
            self.push(EntryView::StorageChange { address, key, had_value: None }).with_account(
                address,
                AccountView {
                    storage: account.storage.insert(
                        key,
                        StorageSlot::spec_new(self.storage_value(address, key, oracle)),
                    ),
                    ..account
                },
            )
        }
    }

    /// The original value of the cell once it is loaded: the one it has,
    /// where it is held already, else the value that the load finds.
    pub open spec fn original_value(self, address: Address, key: U256, oracle: Oracle) -> U256 {
        self.sload(address, key, oracle).state[address].storage[key].original_value
    }

    /// `sstore`: the cell is loaded; a new value that differs from the
    /// present one replaces it, and the present one is journaled.
    pub open spec fn sstore(self, address: Address, key: U256, value: U256, oracle: Oracle) -> Model {
        let loaded = self.sload(address, key, oracle);
        let account = loaded.state[address];
        let slot = account.storage[key];
        if slot.present_value == value {
            loaded
        } else {
            loaded.push(
                EntryView::StorageChange { address, key, had_value: Some(slot.present_value) },
            ).with_account(
                address,
                AccountView {
                    storage: account.storage.insert(
                        key,
                        StorageSlot { present_value: value, ..slot },
                    ),
                    ..account
                },
            )
        }
    }

    /// `log`: the record is appended.
    pub open spec fn log(self, log: LogView) -> Model {
        Model { logs: self.logs.push(log), ..self }
    }

    /// `checkpoint`: a new empty frame, one level deeper.
    pub open spec fn checkpoint(self) -> Model {
        Model { depth: self.depth + 1, journal: self.journal.push(Seq::empty()), ..self }
    }

    /// `checkpoint_commit`: one level up; the frames stay.
    pub open spec fn commit(self) -> Model {
        Model { depth: (self.depth - 1) as nat, ..self }
    }

    /// Whether a checkpoint with this journal index can be reverted to.
    pub open spec fn can_revert(self, journal_index: nat) -> bool {
        1 <= journal_index <= self.journal.len() && 1 <= self.depth <= journal_index
    }

    /// `checkpoint_revert`: one level up; the frames from the checkpoint on
    /// are undone, the newest first, and dropped; the logs are cut back.
    pub open spec fn revert(self, log_index: nat, journal_index: nat) -> Model {
        Model {
            state: undo_frames(self.state, self.journal.skip(journal_index as int)),
            logs: if log_index < self.logs.len() {
                self.logs.take(log_index as int)
            } else {
                self.logs
            },
            depth: (self.depth - 1) as nat,
            journal: self.journal.take(journal_index as int),
        }
    }

    /// The accounts that `finalize` returns: the touched ones.
    pub open spec fn touched_accounts(self) -> Accounts {
        Map::new(
            |address: Address| self.state.contains_key(address) && self.state[address].is_touched,
            |address: Address| self.state[address],
        )
    }

    /// The state built from accounts alone, with nothing journaled or logged.
    pub open spec fn from_accounts(accounts: Accounts) -> Model {
        Model { state: accounts, ..Model::fresh() }
    }
}

/// A change to the accounts that keeps their shape keeps the state well-formed.
pub proof fn lemma_wf_reshape(m: Model, accounts: Accounts)
    requires
        m.wf(),
        same_shape(m.state, accounts),
    ensures
        (Model { state: accounts, ..m }).wf(),
{
    lemma_shape_frames(m.state, accounts, m.journal);
}

/// Another account at an address, with the same nonce and the same storage
/// keys, keeps the state well-formed.
pub proof fn lemma_wf_replace(m: Model, address: Address, account: AccountView)
    requires
        m.wf(),
    ensures
        same_shape(m.state, m.state.insert(address, account)) ==> m.with_account(
            address,
            account,
        ).wf(),
{
    if same_shape(m.state, m.state.insert(address, account)) {
        lemma_wf_reshape(m, m.state.insert(address, account));
    }
}

/// A change to the accounts together with an entry that undoes it, up to the
/// shape of the accounts, keeps the state well-formed.
pub proof fn lemma_wf_push(m: Model, accounts: Accounts, entry: EntryView)
    requires
        m.wf(),
        entry_applies(accounts, entry),
        same_shape(m.state, undo_entry(accounts, entry)),
    ensures
        (Model { state: accounts, ..m }).push(entry).wf(),
        m.push(entry).journal.len() == m.journal.len(),
{
    let after = (Model { state: accounts, ..m }).push(entry);
    let top = m.journal.last();
    assert(after.journal.last() == top.push(entry));
    assert(after.journal.drop_last() =~= m.journal.drop_last());
    assert(top.push(entry).last() == entry);
    assert(top.push(entry).drop_last() =~= top);
    let undone = undo_entry(accounts, entry);
    lemma_shape_frame(m.state, undone, top);
    lemma_shape_frames(undo_frame(m.state, top), undo_frame(undone, top), m.journal.drop_last());
}

pub proof fn lemma_touch_wf(m: Model, address: Address)
    requires
        m.wf(),
    ensures
        m.touch(address).wf(),
        m.touch(address).journal.len() == m.journal.len(),
        m.touch(address).depth == m.depth,
        same_shape(m.state, m.touch(address).state),
{
    if m.is_warm(address) && !m.state[address].is_touched {
        let accounts = m.state.insert(address, AccountView { is_touched: true, ..m.state[address] });
        let entry = EntryView::AccountTouched { address };
        assert(same_shape(m.state, accounts));
        assert(same_shape(m.state, undo_entry(accounts, entry)));
        lemma_wf_push(m, accounts, entry);
        assert(m.touch(address) == (Model { state: accounts, ..m }).push(entry));
    }
}

pub proof fn lemma_load_account_wf(m: Model, address: Address, oracle: Oracle)
    requires
        m.wf(),
    ensures
        m.load_account(address, oracle).wf(),
        m.load_account(address, oracle).journal.len() == m.journal.len(),
        m.load_account(address, oracle).depth == m.depth,
        m.load_account(address, oracle).is_warm(address),
        forall|other: Address| m.is_warm(other) ==> m.load_account(address, oracle).is_warm(other),
{
    if !m.is_warm(address) {
        let accounts = m.state.insert(address, AccountView::from_info((oracle.basic)(address)));
        let entry = EntryView::AccountLoaded { address };
        assert(undo_entry(accounts, entry) =~= m.state);
        lemma_wf_push(m, accounts, entry);
        assert(m.load_account(address, oracle) == (Model { state: accounts, ..m }).push(entry));
    }
}

pub proof fn lemma_fill_code_wf(m: Model, address: Address, oracle: Oracle)
    requires
        m.wf(),
        m.is_warm(address),
    ensures
        m.fill_code(address, oracle).wf(),
        m.fill_code(address, oracle).journal == m.journal,
        m.fill_code(address, oracle).depth == m.depth,
        same_shape(m.state, m.fill_code(address, oracle).state),
{
    lemma_wf_reshape(m, m.fill_code(address, oracle).state);
}

pub proof fn lemma_load_code_wf(m: Model, address: Address, oracle: Oracle)
    requires
        m.wf(),
    ensures
        m.load_code(address, oracle).wf(),
        m.load_code(address, oracle).journal.len() == m.journal.len(),
        m.load_code(address, oracle).depth == m.depth,
        m.load_code(address, oracle).is_warm(address),
        forall|other: Address| m.is_warm(other) ==> m.load_code(address, oracle).is_warm(other),
{
    lemma_load_account_wf(m, address, oracle);
    lemma_fill_code_wf(m.load_account(address, oracle), address, oracle);
}

pub proof fn lemma_inc_nonce_wf(m: Model, address: Address)
    requires
        m.wf(),
        m.is_warm(address),
    ensures
        m.inc_nonce(address).wf(),
{
    if m.state[address].info.nonce != u64::MAX {
        lemma_touch_wf(m, address);
        let touched = m.touch(address);
        let account = touched.state[address];
        let accounts = touched.state.insert(
            address,
            AccountView {
                info: AccountInfoView { nonce: (account.info.nonce + 1) as u64, ..account.info },
                ..account
            },
        );
        let entry = EntryView::NonceChange { address };
        assert(undo_entry(accounts, entry) =~= touched.state);
        lemma_wf_push(touched, accounts, entry);
        assert(m.inc_nonce(address) == (Model { state: accounts, ..touched }).push(entry));
    }
}

pub proof fn lemma_set_code_wf(m: Model, address: Address, code: BytecodeView)
    requires
        m.wf(),
        m.is_warm(address),
    ensures
        m.set_code(address, code).wf(),
{
    lemma_touch_wf(m, address);
    let touched = m.touch(address);
    let account = touched.state[address];
    let accounts = touched.state.insert(
        address,
        AccountView {
            info: AccountInfoView { code_hash: code.hash, code: Some(code), ..account.info },
            ..account
        },
    );
    let entry = EntryView::CodeChange { address, had_code: code };
    assert(same_shape(touched.state, undo_entry(accounts, entry)));
    lemma_wf_push(touched, accounts, entry);
    assert(m.set_code(address, code) == (Model { state: accounts, ..touched }).push(entry));
}

pub proof fn lemma_transfer_prepared_wf(m: Model, from: Address, to: Address, oracle: Oracle)
    requires
        m.wf(),
    ensures
        m.transfer_prepared(from, to, oracle).wf(),
        m.transfer_prepared(from, to, oracle).is_warm(from),
        m.transfer_prepared(from, to, oracle).is_warm(to),
{
    let loaded = m.load_account(from, oracle).load_account(to, oracle);
    lemma_load_account_wf(m, from, oracle);
    lemma_load_account_wf(m.load_account(from, oracle), to, oracle);
    lemma_touch_wf(loaded, from);
    lemma_touch_wf(loaded.touch(from), to);
}

pub proof fn lemma_transfer_debited_wf(
    m: Model,
    from: Address,
    to: Address,
    value: nat,
    oracle: Oracle,
)
    requires
        m.wf(),
    ensures
        m.transfer_debited(from, to, value, oracle).wf(),
        m.transfer_debited(from, to, value, oracle).is_warm(from),
        m.transfer_debited(from, to, value, oracle).is_warm(to),
{
    lemma_transfer_prepared_wf(m, from, to, oracle);
    let prepared = m.transfer_prepared(from, to, oracle);
    let sender = prepared.state[from];
    let paid = prepared.with_account(
        from,
        with_balance(sender, (sender.info.balance - value) as nat),
    );
    lemma_wf_reshape(prepared, paid.state);
}

pub proof fn lemma_transfer_wf(m: Model, from: Address, to: Address, value: nat, oracle: Oracle)
    requires
        m.wf(),
    ensures
        m.transfer(from, to, value, oracle).wf(),
{
    lemma_transfer_prepared_wf(m, from, to, oracle);
    lemma_transfer_debited_wf(m, from, to, value, oracle);
    let prepared = m.transfer_prepared(from, to, oracle);
    if prepared.state[from].info.balance >= value {
        let debited = m.transfer_debited(from, to, value, oracle);
        let recipient = debited.state[to];
        if recipient.info.balance + value < u256_modulus() {
            let accounts = debited.state.insert(
                to,
                with_balance(recipient, recipient.info.balance + value),
            );
            let entry = EntryView::BalanceTransfer { from, to, balance: value };
            assert(same_shape(debited.state, undo_entry(accounts, entry)));
            lemma_wf_push(debited, accounts, entry);
            assert(m.transfer(from, to, value, oracle) == (Model { state: accounts, ..debited }).push(
                entry,
            ));
        }
    }
}

pub proof fn lemma_create_account_wf(m: Model, address: Address, is_precompile: bool, oracle: Oracle)
    requires
        m.wf(),
    ensures
        m.create_account(address, is_precompile, oracle).wf(),
{
    lemma_load_code_wf(m, address, oracle);
    let loaded = m.load_code(address, oracle);
    if m.can_create(address, is_precompile, oracle) {
        let accounts = loaded.state.insert(address, created(loaded.state[address]));
        let entry = EntryView::AccountTouched { address };
        assert(same_shape(loaded.state, accounts));
        assert(same_shape(loaded.state, undo_entry(accounts, entry)));
        lemma_wf_push(loaded, accounts, entry);
        assert(m.create_account(address, is_precompile, oracle) == (Model {
            state: accounts,
            ..loaded
        }).push(entry));
    }
}

pub proof fn lemma_selfdestruct_wf(m: Model, address: Address, target: Address, oracle: Oracle)
    requires
        m.wf(),
        m.is_warm(address) || address == target,
    ensures
        m.selfdestruct(address, target, oracle).wf(),
{
    lemma_load_code_wf(m, target, oracle);
    let loaded = m.load_code(target, oracle);
    let victim = loaded.state[address];
    let balance = victim.info.balance;
    let emptied = loaded.with_account(
        address,
        AccountView { is_destroyed: true, ..with_balance(victim, 0) },
    );
    lemma_wf_reshape(loaded, emptied.state);
    let entry = EntryView::AccountDestroyed {
        address,
        target,
        was_destroyed: victim.is_destroyed,
        had_balance: balance,
    };
    if address == target {
        assert(same_shape(emptied.state, undo_entry(emptied.state, entry)));
        lemma_wf_push(emptied, emptied.state, entry);
        assert(m.selfdestruct(address, target, oracle) == (Model {
            state: emptied.state,
            ..emptied
        }).push(entry));
    } else {
        lemma_touch_wf(emptied, target);
        let touched = emptied.touch(target);
        let recipient = touched.state[target];
        let accounts = touched.state.insert(
            target,
            with_balance(recipient, recipient.info.balance + balance),
        );
        assert(same_shape(touched.state, undo_entry(accounts, entry)));
        lemma_wf_push(touched, accounts, entry);
        assert(m.selfdestruct(address, target, oracle) == (Model { state: accounts, ..touched }).push(
            entry,
        ));
    }
}

pub proof fn lemma_sload_wf(m: Model, address: Address, key: U256, oracle: Oracle)
    requires
        m.wf(),
        m.is_warm(address),
    ensures
        m.sload(address, key, oracle).wf(),
        m.sload(address, key, oracle).is_warm(address),
        m.sload(address, key, oracle).state[address].storage.contains_key(key),
{
    let account = m.state[address];
    if !account.storage.contains_key(key) {
        let accounts = m.state.insert(
            address,
            AccountView {
                storage: account.storage.insert(
                    key,
                    StorageSlot::spec_new(m.storage_value(address, key, oracle)),
                ),
                ..account
            },
        );
        let entry = EntryView::StorageChange { address, key, had_value: None };
        assert(undo_entry(accounts, entry)[address].storage =~= account.storage);
        assert(undo_entry(accounts, entry) =~= m.state);
        lemma_wf_push(m, accounts, entry);
        assert(m.sload(address, key, oracle) == (Model { state: accounts, ..m }).push(entry));
    }
}

pub proof fn lemma_sstore_wf(m: Model, address: Address, key: U256, value: U256, oracle: Oracle)
    requires
        m.wf(),
        m.is_warm(address),
    ensures
        m.sstore(address, key, value, oracle).wf(),
{
    lemma_sload_wf(m, address, key, oracle);
    let loaded = m.sload(address, key, oracle);
    let account = loaded.state[address];
    let slot = account.storage[key];
    if slot.present_value != value {
        let accounts = loaded.state.insert(
            address,
            AccountView {
                storage: account.storage.insert(key, StorageSlot { present_value: value, ..slot }),
                ..account
            },
        );
        let entry = EntryView::StorageChange { address, key, had_value: Some(slot.present_value) };
        assert(undo_entry(accounts, entry)[address].storage =~= account.storage);
        assert(undo_entry(accounts, entry) =~= loaded.state);
        lemma_wf_push(loaded, accounts, entry);
        assert(m.sstore(address, key, value, oracle) == (Model { state: accounts, ..loaded }).push(
            entry,
        ));
    }
}

pub proof fn lemma_checkpoint_wf(m: Model)
    requires
        m.wf(),
    ensures
        m.checkpoint().wf(),
        m.checkpoint().can_revert(m.journal.len()),
{
    let after = m.checkpoint();
    assert(after.journal.last().len() == 0);
    assert(after.journal.drop_last() =~= m.journal);
}

pub proof fn lemma_revert_wf(m: Model, log_index: nat, journal_index: nat)
    requires
        m.wf(),
        m.can_revert(journal_index),
    ensures
        m.revert(log_index, journal_index).wf(),
        frames_apply(m.state, m.journal.skip(journal_index as int)),
{
    let lower = m.journal.take(journal_index as int);
    let upper = m.journal.skip(journal_index as int);
    assert(lower + upper =~= m.journal);
    lemma_frames_concat(m.state, lower, upper);
}

/// A state whose journal holds no entry is well-formed whatever its accounts.
pub proof fn lemma_blank_wf(m: Model)
    requires
        m.journal.len() >= 1,
        m.depth < m.journal.len(),
        m.journal_is_blank(),
    ensures
        m.wf(),
{
    lemma_blank_frames(m.state, m.journal);
}

pub proof fn lemma_blank_frames(accounts: Accounts, frames: Seq<Frame>)
    requires
        forall|i: int| 0 <= i < frames.len() ==> (#[trigger] frames[i]).len() == 0,
    ensures
        frames_apply(accounts, frames),
        undo_frames(accounts, frames) == accounts,
    decreases frames.len(),
{
    if frames.len() > 0 {
        assert(frames.last().len() == 0);
        lemma_blank_frames(accounts, frames.drop_last());
    }
}

} // verus!
