//! The journaled state engine: the accounts loaded by a transaction, a
//! journal that can undo every change to them, and nested checkpoints.

use crate::account::{Account, AccountInfo, AccountInfoView, Bytecode, StorageSlot};
use crate::db::Database;
use crate::journal::{
    entry_applies, frame_applies, frame_view, frames_apply, journal_view, logs_view, same_shape,
    undo_entry, undo_frame, undo_frames, with_balance, EntryView, Frame, JournalEntry, Log,
};
use crate::model::{
    created, lemma_blank_wf, lemma_checkpoint_wf, lemma_create_account_wf, lemma_fill_code_wf,
    lemma_inc_nonce_wf, lemma_load_account_wf, lemma_load_code_wf, lemma_revert_wf,
    lemma_selfdestruct_wf, lemma_set_code_wf, lemma_sload_wf, lemma_sstore_wf, lemma_touch_wf,
    lemma_transfer_debited_wf, lemma_transfer_prepared_wf, lemma_transfer_wf,
    lemma_wf_replace, precompile_account, preloaded, preloaded_default, Model,
    SelfDestructResult, TransferError,
};
use crate::primitives::{u256_modulus, Address, Hash32, U256};
use crate::state::{lemma_accounts_view_insert, State};
use vstd::prelude::*;

verus! {

/// The state of one transaction in progress.
#[derive(Debug)]
pub struct JournaledState {
    /// The loaded accounts.
    pub state: State,
    /// The logs emitted so far.
    pub logs: Vec<Log>,
    /// How deep the call stack is.
    pub depth: usize,
    /// The journal frames, the newest last.
    pub journal: Vec<Vec<JournalEntry>>,
}

impl View for JournaledState {
    type V = Model;

    open spec fn view(&self) -> Model {
        Model {
            state: self.state@,
            logs: logs_view(self.logs@),
            depth: self.depth as nat,
            journal: journal_view(self.journal@),
        }
    }
}

/// A token that names a position in the journal and in the logs, to revert to.
#[derive(Debug)]
pub struct JournalCheckpoint {
    log_i: usize,
    journal_i: usize,
}

impl JournalCheckpoint {
    /// The number of log records at the checkpoint.
    pub closed spec fn log_index(&self) -> nat {
        self.log_i as nat
    }

    /// The number of journal frames at the checkpoint.
    pub closed spec fn journal_index(&self) -> nat {
        self.journal_i as nat
    }
}

/// The view of a list of precompile entries.
pub open spec fn precompile_entries(entries: Seq<(Address, AccountInfo)>) -> Seq<
    (Address, AccountInfoView),
> {
    Seq::new(entries.len(), |i: int| (entries[i].0, entries[i].1@))
}

/// The frames with `entry` appended to the newest.
pub open spec fn push_top(frames: Seq<Frame>, entry: EntryView) -> Seq<Frame> {
    frames.update(frames.len() - 1, frames.last().push(entry))
}

/// Appends `entry` to the newest frame.
fn push_entry(journal: &mut Vec<Vec<JournalEntry>>, entry: JournalEntry)
    requires
        old(journal)@.len() >= 1,
    ensures
        journal_view(final(journal)@) == push_top(journal_view(old(journal)@), entry@),
        final(journal)@.len() == old(journal)@.len(),
{
    let last = journal.len() - 1;
    journal[last].push(entry);
    proof {
        let before = journal_view(old(journal)@);
        let after = journal_view(journal@);
        assert(after[last as int] =~= before[last as int].push(entry@));
        assert(after =~= push_top(before, entry@));
    }
}

/// Marks the account touched; the first mark is journaled.
fn touch_account(journal: &mut Vec<Vec<JournalEntry>>, address: Address, account: &mut Account)
    requires
        old(journal)@.len() >= 1,
    ensures
        *final(account) == (Account { is_touched: true, ..*old(account) }),
        final(journal)@.len() == old(journal)@.len(),
        journal_view(final(journal)@) == if old(account).is_touched {
            journal_view(old(journal)@)
        } else {
            push_top(journal_view(old(journal)@), EntryView::AccountTouched { address })
        },
{
    if !account.is_touched {
        push_entry(journal, JournalEntry::AccountTouched { address });
        account.is_touched = true;
    }
}

/// Undoes one journal entry on the accounts.
fn revert_entry(state: &mut State, entry: JournalEntry)
    requires
        entry_applies(old(state)@, entry@),
    ensures
        final(state)@ == undo_entry(old(state)@, entry@),
{
    let ghost before = state.accounts();
    match entry {
        JournalEntry::AccountLoaded { address } => {
            state.remove(&address);
        },
        JournalEntry::AccountTouched { address } => {
            if !address.is_ripemd_precompile() {
                match state.get_mut(&address) {
                    Some(account) => {
                        account.is_touched = false;
                    },
                    None => {},
                }
                proof {
                    lemma_accounts_view_insert(before, address, state.accounts()[address]);
                }
            }
        },
        JournalEntry::AccountDestroyed { address, target, was_destroyed, had_balance } => {
            match state.get_mut(&address) {
                Some(account) => {
                    account.is_destroyed = was_destroyed;
                    account.info.balance = account.info.balance.wrapping_add(had_balance);
                },
                None => {},
            }
            let ghost first = state.accounts();
            proof {
                lemma_accounts_view_insert(before, address, first[address]);
            }
            if address != target {
                match state.get_mut(&target) {
                    Some(account) => {
                        account.info.balance = account.info.balance.wrapping_sub(had_balance);
                    },
                    None => {},
                }
                proof {
                    lemma_accounts_view_insert(first, target, state.accounts()[target]);
                }
            }
        },
        JournalEntry::BalanceTransfer { from, to, balance } => {
            match state.get_mut(&from) {
                Some(account) => {
                    account.info.balance = account.info.balance.wrapping_add(balance);
                },
                None => {},
            }
            let ghost first = state.accounts();
            match state.get_mut(&to) {
                Some(account) => {
                    account.info.balance = account.info.balance.wrapping_sub(balance);
                },
                None => {},
            }
            proof {
                lemma_accounts_view_insert(before, from, first[from]);
                lemma_accounts_view_insert(first, to, state.accounts()[to]);
            }
        },
        JournalEntry::NonceChange { address } => {
            match state.get_mut(&address) {
                Some(account) => {
                    account.info.nonce -= 1;
                },
                None => {},
            }
            proof {
                lemma_accounts_view_insert(before, address, state.accounts()[address]);
            }
        },
        JournalEntry::StorageChange { address, key, had_value } => {
            match state.get_mut(&address) {
                Some(account) => {
                    match had_value {
                        Some(value) => {
                            let original = match account.storage.get(&key) {
                                Some(slot) => slot.original_value(),
                                None => value,
                            };
                            account.storage.insert(
                                key,
                                StorageSlot { original_value: original, present_value: value },
                            );
                        },
                        None => {
                            account.storage.remove(&key);
                        },
                    }
                },
                None => {},
            }
            proof {
                lemma_accounts_view_insert(before, address, state.accounts()[address]);
            }
        },
        JournalEntry::CodeChange { address, had_code } => {
            match state.get_mut(&address) {
                Some(account) => {
                    account.info.code_hash = had_code.hash();
                    account.info.code = Some(had_code);
                },
                None => {},
            }
            proof {
                lemma_accounts_view_insert(before, address, state.accounts()[address]);
            }
        },
    }
    proof {
        assert(state@ =~= undo_entry(old(state)@, entry@));
    }
}

/// Undoes the entries of one frame on the accounts, the newest first.
fn journal_revert(state: &mut State, journal_entries: Vec<JournalEntry>)
    requires
        frame_applies(old(state)@, frame_view(journal_entries@)),
    ensures
        final(state)@ == undo_frame(old(state)@, frame_view(journal_entries@)),
{
    let mut entries = journal_entries;
    while entries.len() > 0
        invariant
            frame_applies(state@, frame_view(entries@)),
            undo_frame(state@, frame_view(entries@)) == undo_frame(
                old(state)@,
                frame_view(journal_entries@),
            ),
        decreases entries.len(),
    {
        let ghost frame = frame_view(entries@);
        match entries.pop() {
            Some(entry) => {
                proof {
                    assert(frame.last() == entry@);
                    assert(frame_view(entries@) =~= frame.drop_last());
                }
                revert_entry(state, entry);
            },
            None => {},
        }
    }
}

impl JournaledState {
    /// Well-formedness: that of the state this stands for.
    pub open spec fn wf(&self) -> bool {
        self@.wf()
    }

    pub fn new() -> (engine: JournaledState)
        ensures
            engine@ == Model::fresh(),
            engine.wf(),
    {
        let mut journal: Vec<Vec<JournalEntry>> = Vec::new();
        journal.push(Vec::new());
        let engine = JournaledState { state: State::new(), logs: Vec::new(), depth: 0, journal };
        proof {
            assert(engine@.journal.len() == 1);
            assert(engine@.journal[0] =~= Seq::<EntryView>::empty());
            assert(engine@.journal =~= Model::fresh().journal);
            assert(engine@.logs =~= Model::fresh().logs);
            assert(engine@ == Model::fresh());
            lemma_blank_wf(engine@);
        }
        engine
    }

    /// The loaded accounts, to read and to change. What the caller leaves
    /// there is the state of the engine afterwards; nothing else changes.
    pub fn state(&mut self) -> (state: &mut State)
        ensures
            *state == old(self).state,
            *final(self) == (JournaledState { state: *final(state), ..*old(self) }),
    {
        &mut self.state
    }

    /// `touch`: marks a loaded account touched and journals the first mark.
    pub fn touch(&mut self, address: &Address)
        requires
            old(self).wf(),
        ensures
            final(self)@ == old(self)@.touch(*address),
            final(self).wf(),
    {
        match self.state.get_mut(address) {
            Some(account) => {
                touch_account(&mut self.journal, *address, account);
            },
            None => {},
        }
        proof {
            let before = old(self)@;
            if before.is_warm(*address) {
                lemma_accounts_view_insert(
                    old(self).state.accounts(),
                    *address,
                    self.state.accounts()[*address],
                );
                assert(self@.state =~= before.touch(*address).state);
            }
            assert(self@ == before.touch(*address));
            lemma_touch_wf(before, *address);
        }
    }

    /// The account at `address`, which must be loaded.
    pub fn account(&self, address: Address) -> (account: &Account)
        requires
            self@.is_warm(address),
        ensures
            *account == self.state.accounts()[address],
            account@ == self@.state[address],
    {
        match self.state.get(&address) {
            Some(account) => account,
            None => vstd::pervasive::unreached(),
        }
    }

    pub fn depth(&self) -> (depth: u64)
        ensures
            depth == self@.depth,
    {
        self.depth as u64
    }

    /// `load_account`: loads the account from the database unless it is
    /// loaded already, and says whether it had to.
    pub fn load_account<DB: Database>(&mut self, address: Address, db: &mut DB) -> (is_cold: bool)
        requires
            old(self).wf(),
        ensures
            final(self)@ == old(self)@.load_account(address, old(db).oracle()),
            is_cold == !old(self)@.is_warm(address),
            final(db).oracle() == old(db).oracle(),
            final(self).wf(),
    {
        proof {
            lemma_load_account_wf(self@, address, db.oracle());
        }
        if self.state.contains_key(&address) {
            false
        } else {
            let account = Account::from(db.basic(address));
            push_entry(&mut self.journal, JournalEntry::AccountLoaded { address });
            self.state.insert(address, account);
            true
        }
    }

    /// Fills the code cache of a loaded account, if it is empty: with the
    /// empty code where the hash is that of the empty string, else with what
    /// the database has under the hash.
    fn fill_code<DB: Database>(&mut self, address: Address, db: &mut DB)
        requires
            old(self).wf(),
            old(self)@.is_warm(address),
        ensures
            final(self)@ == old(self)@.fill_code(address, old(db).oracle()),
            final(db).oracle() == old(db).oracle(),
            final(self).wf(),
    {
        proof {
            lemma_fill_code_wf(self@, address, db.oracle());
        }
        match self.state.get_mut(&address) {
            Some(account) => {
                if account.info.code.is_none() {
                    if account.info.code_hash == Hash32::keccak_empty() {
                        account.info.code = Some(Bytecode::new());
                    } else {
                        let code = db.code_by_hash(account.info.code_hash);
                        account.info.code = Some(code);
                    }
                }
            },
            None => {},
        }
        proof {
            lemma_accounts_view_insert(
                old(self).state.accounts(),
                address,
                self.state.accounts()[address],
            );
            assert(self@.state =~= old(self)@.fill_code(address, old(db).oracle()).state);
        }
    }

    /// Loads the account and fills its code cache; says whether it was cold.
    fn load_with_code<DB: Database>(&mut self, address: Address, db: &mut DB) -> (is_cold: bool)
        requires
            old(self).wf(),
        ensures
            final(self)@ == old(self)@.load_code(address, old(db).oracle()),
            is_cold == !old(self)@.is_warm(address),
            final(db).oracle() == old(db).oracle(),
            final(self).wf(),
            final(self)@.is_warm(address),
    {
        proof {
            lemma_load_account_wf(self@, address, db.oracle());
            lemma_load_code_wf(self@, address, db.oracle());
        }
        let is_cold = self.load_account(address, db);
        self.fill_code(address, db);
        is_cold
    }

    /// `load_code`: loads the account, fills its code cache, and hands the
    /// account out with whether it was cold. What the caller leaves in the
    /// account is what the engine holds at `address` afterwards; the engine
    /// stays well-formed where the caller leaves the nonce and the keys of
    /// the storage as they are.
    pub fn load_code<DB: Database>(&mut self, address: Address, db: &mut DB) -> (loaded: (
        &mut Account,
        bool,
    ))
        requires
            old(self).wf(),
        ensures
            loaded.0@ == old(self)@.load_code(address, old(db).oracle()).state[address],
            loaded.1 == !old(self)@.is_warm(address),
            final(self)@ == old(self)@.load_code(address, old(db).oracle()).with_account(
                address,
                final(loaded.0)@,
            ),
            same_shape(old(self)@.load_code(address, old(db).oracle()).state, final(self)@.state)
                ==> final(self).wf(),
            final(db).oracle() == old(db).oracle(),
    {
        let is_cold = self.load_with_code(address, db);
        let ghost mid = self@;
        let ghost accounts = self.state.accounts();
        match self.state.get_mut(&address) {
            Some(account) => {
                proof {
                    lemma_accounts_view_insert(accounts, address, *final(account));
                    lemma_wf_replace(mid, address, final(account)@);
                }
                (account, is_cold)
            },
            None => vstd::pervasive::unreached(),
        }
    }

    /// `load_account_exist`: loads the account with its code, and says
    /// whether it was cold and whether it exists. A preloaded precompile is
    /// never cold and always exists.
    pub fn load_account_exist<DB: Database>(&mut self, address: Address, db: &mut DB) -> (found: (
        bool,
        bool,
    ))
        requires
            old(self).wf(),
        ensures
            final(self)@ == old(self)@.load_code(address, old(db).oracle()),
            found == old(self)@.account_exist(address, old(db).oracle()),
            final(db).oracle() == old(db).oracle(),
            final(self).wf(),
    {
        let is_cold = self.load_with_code(address, db);
        let account = self.account(address);
        if account.is_existing_precompile {
            (false, true)
        } else {
            (is_cold, !account.is_empty())
        }
    }

    /// `inc_nonce`: increments the nonce of a loaded account and returns the
    /// new nonce; at the maximum it does nothing and returns nothing.
    pub fn inc_nonce(&mut self, address: Address) -> (nonce: Option<u64>)
        requires
            old(self).wf(),
            old(self)@.is_warm(address),
        ensures
            final(self)@ == old(self)@.inc_nonce(address),
            nonce == old(self)@.next_nonce(address),
            final(self).wf(),
    {
        proof {
            lemma_inc_nonce_wf(self@, address);
        }
        let nonce = match self.state.get_mut(&address) {
            Some(account) => {
                if account.info.nonce == u64::MAX {
                    None
                } else {
                    touch_account(&mut self.journal, address, account);
                    push_entry(&mut self.journal, JournalEntry::NonceChange { address });
                    account.info.nonce += 1;
                    Some(account.info.nonce)
                }
            },
            None => None,
        };
        proof {
            lemma_accounts_view_insert(
                old(self).state.accounts(),
                address,
                self.state.accounts()[address],
            );
            assert(self@.state =~= old(self)@.inc_nonce(address).state);
            assert(self@.journal =~= old(self)@.inc_nonce(address).journal);
        }
        nonce
    }

    /// `set_code`: gives a loaded account the code and its hash.
    pub fn set_code(&mut self, address: Address, code: Bytecode)
        requires
            old(self).wf(),
            old(self)@.is_warm(address),
        ensures
            final(self)@ == old(self)@.set_code(address, code@),
            final(self).wf(),
    {
        proof {
            lemma_set_code_wf(self@, address, code@);
        }
        match self.state.get_mut(&address) {
            Some(account) => {
                touch_account(&mut self.journal, address, account);
                push_entry(
                    &mut self.journal,
                    JournalEntry::CodeChange { address, had_code: code.clone() },
                );
                account.info.code_hash = code.hash();
                account.info.code = Some(code);
            },
            None => {},
        }
        proof {
            lemma_accounts_view_insert(
                old(self).state.accounts(),
                address,
                self.state.accounts()[address],
            );
            assert(self@.state =~= old(self)@.set_code(address, code@).state);
            assert(self@.journal =~= old(self)@.set_code(address, code@).journal);
        }
    }

    /// Takes `amount` from the balance of a loaded account that has as much,
    /// and says whether it had.
    fn debit(&mut self, address: &Address, amount: U256) -> (paid: bool)
        requires
            old(self)@.is_warm(*address),
        ensures
            paid == (old(self)@.state[*address].info.balance >= amount@),
            !paid ==> final(self)@ == old(self)@,
            paid ==> final(self)@ == old(self)@.with_account(
                *address,
                with_balance(
                    old(self)@.state[*address],
                    (old(self)@.state[*address].info.balance - amount@) as nat,
                ),
            ),
    {
        let paid = match self.state.get_mut(address) {
            Some(account) => {
                match account.info.balance.checked_sub(amount) {
                    Some(rest) => {
                        account.info.balance = rest;
                        true
                    },
                    None => false,
                }
            },
            None => false,
        };
        proof {
            lemma_accounts_view_insert(
                old(self).state.accounts(),
                *address,
                self.state.accounts()[*address],
            );
            if paid {
                assert(self@.state =~= old(self)@.state.insert(
                    *address,
                    with_balance(
                        old(self)@.state[*address],
                        (old(self)@.state[*address].info.balance - amount@) as nat,
                    ),
                ));
            } else {
                assert(self@.state =~= old(self)@.state);
            }
        }
        paid
    }

    /// Adds `amount` to the balance of a loaded account where the sum is
    /// below 2^256, and says whether it is.
    fn credit(&mut self, address: &Address, amount: U256) -> (received: bool)
        requires
            old(self)@.is_warm(*address),
        ensures
            received == (old(self)@.state[*address].info.balance + amount@
                < u256_modulus()),
            !received ==> final(self)@ == old(self)@,
            received ==> final(self)@ == old(self)@.with_account(
                *address,
                with_balance(
                    old(self)@.state[*address],
                    old(self)@.state[*address].info.balance + amount@,
                ),
            ),
    {
        let received = match self.state.get_mut(address) {
            Some(account) => {
                match account.info.balance.checked_add(amount) {
                    Some(sum) => {
                        account.info.balance = sum;
                        true
                    },
                    None => false,
                }
            },
            None => false,
        };
        proof {
            lemma_accounts_view_insert(
                old(self).state.accounts(),
                *address,
                self.state.accounts()[*address],
            );
            if received {
                assert(self@.state =~= old(self)@.state.insert(
                    *address,
                    with_balance(
                        old(self)@.state[*address],
                        old(self)@.state[*address].info.balance + amount@,
                    ),
                ));
            } else {
                assert(self@.state =~= old(self)@.state);
            }
        }
        received
    }

    /// `transfer`: loads both accounts, touches both, and moves `balance`
    /// from `from` to `to`; says which of the two had to be loaded. It fails
    /// with `OutOfFund` where the sender has less, before any balance
    /// changes, and with `OverflowPayment` where the recipient would reach
    /// 2^256, after the sender was debited.
    pub fn transfer<DB: Database>(
        &mut self,
        from: &Address,
        to: &Address,
        balance: U256,
        db: &mut DB,
    ) -> (outcome: Result<(bool, bool), TransferError>)
        requires
            old(self).wf(),
        ensures
            final(self)@ == old(self)@.transfer(*from, *to, balance@, old(db).oracle()),
            outcome == old(self)@.transfer_result(*from, *to, balance@, old(db).oracle()),
            final(db).oracle() == old(db).oracle(),
            final(self).wf(),
    {
        let ghost before = self@;
        let ghost oracle = db.oracle();
        proof {
            lemma_load_account_wf(before, *from, oracle);
            lemma_load_account_wf(before.load_account(*from, oracle), *to, oracle);
            lemma_transfer_prepared_wf(before, *from, *to, oracle);
            lemma_transfer_debited_wf(before, *from, *to, balance@, oracle);
            lemma_transfer_wf(before, *from, *to, balance@, oracle);
        }
        let from_is_cold = self.load_account(*from, db);
        let to_is_cold = self.load_account(*to, db);
        proof {
            lemma_touch_wf(self@, *from);
        }
        self.touch(from);
        self.touch(to);
        if !self.debit(from, balance) {
            return Err(TransferError::OutOfFund);
        }
        if !self.credit(to, balance) {
            return Err(TransferError::OverflowPayment);
        }
        push_entry(
            &mut self.journal,
            JournalEntry::BalanceTransfer { from: *from, to: *to, balance },
        );
        proof {
            assert(self@.journal =~= before.transfer(*from, *to, balance@, oracle).journal);
        }
        Ok((from_is_cold, to_is_cold))
    }

    /// `create_account`: loads the account with its code and, unless it has
    /// code or a nonce or is a precompile, resets it to a new account. Says
    /// whether it did.
    pub fn create_account<DB: Database>(
        &mut self,
        address: Address,
        is_precompile: bool,
        db: &mut DB,
    ) -> (done: bool)
        requires
            old(self).wf(),
        ensures
            final(self)@ == old(self)@.create_account(address, is_precompile, old(db).oracle()),
            done == old(self)@.can_create(address, is_precompile, old(db).oracle()),
            final(db).oracle() == old(db).oracle(),
            final(self).wf(),
    {
        let ghost before = self@;
        let ghost oracle = db.oracle();
        proof {
            lemma_create_account_wf(before, address, is_precompile, oracle);
        }
        self.load_with_code(address, db);
        let ghost loaded = self.state.accounts();
        let done = match self.state.get_mut(&address) {
            Some(account) => {
                let has_code = match &account.info.code {
                    Some(code) => !code.is_empty(),
                    None => false,
                };
                if has_code || account.info.nonce != 0 || is_precompile {
                    false
                } else {
                    account.storage_cleared = true;
                    account.storage.reset_all();
                    account.info.code_hash = Hash32::keccak_empty();
                    account.info.code = None;
                    push_entry(&mut self.journal, JournalEntry::AccountTouched { address });
                    true
                }
            },
            None => false,
        };
        proof {
            let account = self.state.accounts()[address];
            lemma_accounts_view_insert(loaded, address, account);
            let model = before.load_code(address, oracle);
            if done {
                assert(account@.storage =~= created(model.state[address]).storage);
                assert(account@ == created(model.state[address]));
            }
            assert(self@.state =~= before.create_account(address, is_precompile, oracle).state);
            assert(self@.journal =~= before.create_account(address, is_precompile, oracle).journal);
        }
        done
    }

    /// `sload`: the present value of a storage cell of a loaded account, and
    /// whether the cell had to be loaded. A cell that is not held yet is
    /// zero where the storage is marked cleared, else what the database has.
    pub fn sload<DB: Database>(&mut self, address: Address, key: U256, db: &mut DB) -> (read: (
        U256,
        bool,
    ))
        requires
            old(self).wf(),
            old(self)@.is_warm(address),
        ensures
            final(self)@ == old(self)@.sload(address, key, old(db).oracle()),
            read.0 == old(self)@.storage_value(address, key, old(db).oracle()),
            read.1 == old(self)@.is_cold_slot(address, key),
            final(db).oracle() == old(db).oracle(),
            final(self).wf(),
    {
        proof {
            lemma_sload_wf(self@, address, key, db.oracle());
        }
        let read = match self.state.get_mut(&address) {
            Some(account) => {
                let held = match account.storage.get(&key) {
                    Some(slot) => Some(slot.present_value()),
                    None => None,
                };
                match held {
                    Some(value) => (value, false),
                    None => {
                        let value = if account.storage_cleared {
                            U256::zero()
                        } else {
                            db.storage(address, key)
                        };
                        push_entry(
                            &mut self.journal,
                            JournalEntry::StorageChange { address, key, had_value: None },
                        );
                        account.storage.insert(key, StorageSlot::new(value));
                        (value, true)
                    },
                }
            },
            None => (U256::zero(), false),
        };
        proof {
            lemma_accounts_view_insert(
                old(self).state.accounts(),
                address,
                self.state.accounts()[address],
            );
            assert(self@.state =~= old(self)@.sload(address, key, old(db).oracle()).state);
            assert(self@.journal =~= old(self)@.sload(address, key, old(db).oracle()).journal);
        }
        read
    }

    /// `sstore`: stores `new` in a storage cell of a loaded account, loading
    /// the cell first. Returns the original value of the cell, the value it
    /// had before the store, `new`, and whether the cell had to be loaded.
    pub fn sstore<DB: Database>(
        &mut self,
        address: Address,
        key: U256,
        new: U256,
        db: &mut DB,
    ) -> (stored: (U256, U256, U256, bool))
        requires
            old(self).wf(),
            old(self)@.is_warm(address),
        ensures
            final(self)@ == old(self)@.sstore(address, key, new, old(db).oracle()),
            stored == (
                old(self)@.original_value(address, key, old(db).oracle()),
                old(self)@.storage_value(address, key, old(db).oracle()),
                new,
                old(self)@.is_cold_slot(address, key),
            ),
            final(db).oracle() == old(db).oracle(),
            final(self).wf(),
    {
        let ghost before = self@;
        let ghost oracle = db.oracle();
        proof {
            lemma_sload_wf(before, address, key, oracle);
            lemma_sstore_wf(before, address, key, new, oracle);
        }
        let (present, is_cold) = self.sload(address, key, db);
        let ghost loaded = self.state.accounts();
        let original = match self.state.get_mut(&address) {
            Some(account) => {
                let slot = match account.storage.get(&key) {
                    Some(slot) => *slot,
                    None => StorageSlot::new(present),
                };
                if present != new {
                    push_entry(
                        &mut self.journal,
                        JournalEntry::StorageChange { address, key, had_value: Some(present) },
                    );
                    account.storage.insert(
                        key,
                        StorageSlot { original_value: slot.original_value, present_value: new },
                    );
                }
                slot.original_value
            },
            None => present,
        };
        proof {
            lemma_accounts_view_insert(loaded, address, self.state.accounts()[address]);
            assert(self@.state =~= before.sstore(address, key, new, oracle).state);
            assert(self@.journal =~= before.sstore(address, key, new, oracle).journal);
        }
        (original, present, new, is_cold)
    }

    /// `selfdestruct`: moves the balance of `address` to `target`, which it
    /// loads with its code, and marks `address` destroyed. Where the two are
    /// the same account the balance is lost.
    pub fn selfdestruct<DB: Database>(
        &mut self,
        address: Address,
        target: Address,
        db: &mut DB,
    ) -> (report: SelfDestructResult)
        requires
            old(self).wf(),
            old(self)@.can_destroy(address, target, old(db).oracle()),
        ensures
            final(self)@ == old(self)@.selfdestruct(address, target, old(db).oracle()),
            report == old(self)@.selfdestruct_result(address, target, old(db).oracle()),
            final(db).oracle() == old(db).oracle(),
            final(self).wf(),
    {
        let ghost before = self@;
        let ghost oracle = db.oracle();
        proof {
            lemma_load_code_wf(before, target, oracle);
            lemma_selfdestruct_wf(before, address, target, oracle);
        }
        let (is_cold, exists) = self.load_account_exist(target, db);
        let ghost loaded = self.state.accounts();
        let (balance, previously_destroyed) = match self.state.get_mut(&address) {
            Some(account) => {
                let balance = account.info.balance;
                account.info.balance = U256::zero();
                let previously_destroyed = account.is_destroyed;
                account.is_destroyed = true;
                (balance, previously_destroyed)
            },
            None => (U256::zero(), false),
        };
        let ghost emptied = self.state.accounts();
        proof {
            lemma_accounts_view_insert(loaded, address, emptied[address]);
        }
        if address != target {
            match self.state.get_mut(&target) {
                Some(account) => {
                    touch_account(&mut self.journal, target, account);
                    match account.info.balance.checked_add(balance) {
                        Some(sum) => {
                            account.info.balance = sum;
                        },
                        None => {},
                    }
                },
                None => {},
            }
            proof {
                lemma_accounts_view_insert(emptied, target, self.state.accounts()[target]);
            }
        }
        push_entry(
            &mut self.journal,
            JournalEntry::AccountDestroyed {
                address,
                target,
                was_destroyed: previously_destroyed,
                had_balance: balance,
            },
        );
        proof {
            assert(self@.state =~= before.selfdestruct(address, target, oracle).state);
            assert(self@.journal =~= before.selfdestruct(address, target, oracle).journal);
        }
        SelfDestructResult { had_value: !balance.is_zero(), is_cold, exists, previously_destroyed }
    }

    /// Whether `checkpoint_revert` can be called with this token now.
    pub fn can_revert(&self, checkpoint: &JournalCheckpoint) -> (yes: bool)
        ensures
            yes == self@.can_revert(checkpoint.journal_index()),
    {
        1 <= checkpoint.journal_i && checkpoint.journal_i <= self.journal.len() && 1 <= self.depth
            && self.depth <= checkpoint.journal_i
    }

    /// `checkpoint_revert`: one level up; undoes the journal frames from the
    /// checkpoint on, the newest first, drops them, and cuts the logs back.
    pub fn checkpoint_revert(&mut self, checkpoint: JournalCheckpoint)
        requires
            old(self).wf(),
            old(self)@.can_revert(checkpoint.journal_index()),
        ensures
            final(self)@ == old(self)@.revert(checkpoint.log_index(), checkpoint.journal_index()),
            final(self).wf(),
    {
        let ghost before = self@;
        let ghost keep = checkpoint.journal_i as int;
        proof {
            lemma_revert_wf(before, checkpoint.log_index(), checkpoint.journal_index());
        }
        self.depth -= 1;
        while self.journal.len() > checkpoint.journal_i
            invariant
                keep == checkpoint.journal_i,
                self.journal@.len() >= keep >= 1,
                self.logs == old(self).logs,
                self.depth == old(self).depth - 1,
                frames_apply(self.state@, journal_view(self.journal@).skip(keep)),
                undo_frames(self.state@, journal_view(self.journal@).skip(keep)) == undo_frames(
                    before.state,
                    before.journal.skip(keep),
                ),
                journal_view(self.journal@).take(keep) == before.journal.take(keep),
            decreases self.journal.len(),
        {
            let ghost frames = journal_view(self.journal@);
            match self.journal.pop() {
                Some(frame) => {
                    proof {
                        let rest = journal_view(self.journal@);
                        assert(frames.skip(keep).last() == frame_view(frame@));
                        assert(frames.skip(keep).drop_last() =~= rest.skip(keep));
                        assert(rest.take(keep) =~= frames.take(keep));
                    }
                    journal_revert(&mut self.state, frame);
                },
                None => {},
            }
        }
        self.logs.truncate(checkpoint.log_i);
        proof {
            let after = before.revert(checkpoint.log_index(), checkpoint.journal_index());
            assert(journal_view(self.journal@).skip(keep).len() == 0);
            assert(journal_view(self.journal@) =~= journal_view(self.journal@).take(keep));
            assert(self@.logs =~= after.logs);
            assert(self@ == after);
        }
    }

    /// `load_precompiles`: inserts an account for each entry, made of its
    /// data alone; the later entry wins where two have the same address.
    /// Nothing is journaled.
    pub fn load_precompiles(&mut self, precompiles: Vec<(Address, AccountInfo)>)
        ensures
            final(self)@ == (Model {
                state: preloaded(old(self)@.state, precompile_entries(precompiles@)),
                ..old(self)@
            }),
            old(self).wf() && old(self)@.journal_is_blank() ==> final(self).wf(),
    {
        let ghost all = precompile_entries(precompiles@);
        for entry in entries: precompiles
            invariant
                self.logs == old(self).logs,
                self.depth == old(self).depth,
                self.journal == old(self).journal,
                precompile_entries(entries.seq()) == all,
                self.state@ == preloaded(old(self)@.state, all.take(entries.index() as int)),
        {
            let (address, info) = entry;
            proof {
                let done = entries.index() as int;
                assert(all.take(done + 1).last() == (address, info@));
                assert(all.take(done + 1).drop_last() =~= all.take(done));
            }
            self.state.insert(address, Account::from(info));
        }
        proof {
            assert(all.take(all.len() as int) =~= all);
            if old(self).wf() && old(self)@.journal_is_blank() {
                lemma_blank_wf(self@);
            }
        }
    }

    /// `load_precompiles_default`: inserts a blank account, marked as an
    /// existing precompile, at each address. Nothing is journaled.
    pub fn load_precompiles_default(&mut self, precompiles: &[Address])
        ensures
            final(self)@ == (Model {
                state: preloaded_default(old(self)@.state, precompiles@),
                ..old(self)@
            }),
            old(self).wf() && old(self)@.journal_is_blank() ==> final(self).wf(),
    {
        let mut i: usize = 0;
        while i < precompiles.len()
            invariant
                i <= precompiles.len(),
                self.logs == old(self).logs,
                self.depth == old(self).depth,
                self.journal == old(self).journal,
                self.state@ == preloaded_default(old(self)@.state, precompiles@.take(i as int)),
            decreases precompiles.len() - i,
        {
            let mut account = Account::from(AccountInfo::default());
            account.is_existing_precompile = true;
            proof {
                assert(account@ == precompile_account());
                assert(precompiles@.take(i + 1).drop_last() =~= precompiles@.take(i as int));
            }
            self.state.insert(precompiles[i], account);
            i += 1;
        }
        proof {
            assert(precompiles@.take(i as int) =~= precompiles@);
            if old(self).wf() && old(self)@.journal_is_blank() {
                lemma_blank_wf(self@);
            }
        }
    }

    /// `finalize`: ends the transaction. Returns the touched accounts and
    /// the logs, and leaves the engine as new.
    pub fn finalize(&mut self) -> (diff: (State, Vec<Log>))
        ensures
            diff.0@ == old(self)@.touched_accounts(),
            logs_view(diff.1@) == old(self)@.logs,
            final(self)@ == Model::fresh(),
            final(self).wf(),
    {
        let mut state = State::new();
        std::mem::swap(&mut self.state, &mut state);
        let ghost all = state.accounts();
        let addresses = state.keys();
        let mut i: usize = 0;
        while i < addresses.len()
            invariant
                i <= addresses.len(),
                forall|address: Address|
                    addresses@.contains(address) <==> all.contains_key(address),
                forall|address: Address| #[trigger]
                    state.accounts().contains_key(address) ==> all.contains_key(address)
                        && state.accounts()[address] == all[address],
                forall|address: Address|
                    all.contains_key(address) && all[address].is_touched
                        ==> #[trigger] state.accounts().contains_key(address),
                forall|k: int|
                    0 <= k < i && state.accounts().contains_key(#[trigger] addresses@[k])
                        ==> all[addresses@[k]].is_touched,
            decreases addresses.len() - i,
        {
            let address = addresses[i];
            let touched = match state.get(&address) {
                Some(account) => account.is_touched,
                None => true,
            };
            if !touched {
                state.remove(&address);
            }
            i += 1;
        }
        let mut logs: Vec<Log> = Vec::new();
        std::mem::swap(&mut self.logs, &mut logs);
        let mut journal: Vec<Vec<JournalEntry>> = Vec::new();
        journal.push(Vec::new());
        self.journal = journal;
        self.depth = 0;
        proof {
            assert forall|address: Address| #[trigger]
                state.accounts().contains_key(address) implies all[address].is_touched by {
                assert(addresses@.contains(address));
                let k = choose|k: int| 0 <= k < addresses@.len() && addresses@[k] == address;
                assert(state.accounts().contains_key(addresses@[k]));
            }
            let kept = old(self)@.touched_accounts();
            assert(all == old(self).state.accounts());
            assert forall|address: Address| state@.contains_key(address) == kept.contains_key(
                address,
            ) by {
                if kept.contains_key(address) {
                    assert(all.contains_key(address) && all[address].is_touched);
                    assert(state.accounts().contains_key(address));
                }
                if state@.contains_key(address) {
                    assert(state.accounts().contains_key(address));
                }
            }
            assert forall|address: Address| state@.contains_key(address) implies state@[address]
                == kept[address] by {
                assert(state.accounts().contains_key(address));
            }
            assert(state@ =~= kept);
            assert(self@.journal.len() == 1);
            assert(self@.journal[0] =~= Seq::<EntryView>::empty());
            assert(self@.journal =~= Model::fresh().journal);
            assert(self@.logs =~= Model::fresh().logs);
            assert(self@.state =~= Model::fresh().state);
            lemma_blank_wf(self@);
        }
        (state, logs)
    }

    /// `log`: appends a log record.
    pub fn log(&mut self, log: Log)
        ensures
            final(self)@ == old(self)@.log(log@),
            old(self).wf() ==> final(self).wf(),
    {
        self.logs.push(log);
        proof {
            assert(self@.logs =~= old(self)@.logs.push(log@));
        }
    }

    /// `checkpoint`: opens a new journal frame one level deeper, and hands
    /// out the token to revert to this point.
    pub fn checkpoint(&mut self) -> (checkpoint: JournalCheckpoint)
        requires
            old(self).wf(),
        ensures
            final(self)@ == old(self)@.checkpoint(),
            checkpoint.log_index() == old(self)@.logs.len(),
            checkpoint.journal_index() == old(self)@.journal.len(),
            final(self).wf(),
            final(self)@.can_revert(checkpoint.journal_index()),
    {
        let checkpoint = JournalCheckpoint {
            log_i: self.logs.len(),
            journal_i: self.journal.len(),
        };
        self.depth += 1;
        self.journal.push(Vec::new());
        proof {
            let before = old(self)@;
            let last = before.journal.len() as int;
            assert(self@.journal.len() == last + 1);
            assert(self@.journal[last] =~= Seq::<EntryView>::empty());
            assert(self@.journal =~= before.journal.push(Seq::empty()));
            assert(self@ == before.checkpoint());
            lemma_checkpoint_wf(before);
        }
        checkpoint
    }

    /// `checkpoint_commit`: one level up; the journal stays as it is.
    pub fn checkpoint_commit(&mut self)
        requires
            old(self).wf(),
            old(self)@.depth >= 1,
        ensures
            final(self)@ == old(self)@.commit(),
            final(self).wf(),
    {
        self.depth -= 1;
    }
}

impl Default for JournaledState {
    fn default() -> (engine: JournaledState)
        ensures
            engine@ == Model::fresh(),
            engine.wf(),
    {
        JournaledState::new()
    }
}

} // verus!
