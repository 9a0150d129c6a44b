//! The journal: for every reversible change to the accounts an entry that
//! records how to undo it, and what undoing an entry, a frame of entries and
//! a stack of frames does to the accounts.

use crate::account::{AccountInfoView, AccountView, Bytecode, BytecodeView, StorageSlot};
use crate::primitives::{wrapping_difference, wrapping_sum, Address, Hash32, U256};
use vstd::prelude::*;

verus! {

/// One reversible change, with what is needed to undo it.
#[derive(Debug)]
pub enum JournalEntry {
    /// The account was loaded. Undone by removing it.
    AccountLoaded { address: Address },
    /// The account was marked destroyed and its balance moved to `target`.
    /// Undone by restoring the mark and moving the balance back.
    AccountDestroyed { address: Address, target: Address, was_destroyed: bool, had_balance: U256 },
    /// The account was marked touched. Undone by clearing the mark, except
    /// on the RIPEMD-160 precompile.
    AccountTouched { address: Address },
    /// `balance` was moved from `from` to `to`. Undone by moving it back.
    BalanceTransfer { from: Address, to: Address, balance: U256 },
    /// The nonce was incremented. Undone by decrementing it.
    NonceChange { address: Address },
    /// The cell changed, or was loaded (`had_value` is `None`). Undone by
    /// restoring the present value, or by removing the cell.
    StorageChange { address: Address, key: U256, had_value: Option<U256> },
    /// The code changed. Undone by installing `had_code`.
    CodeChange { address: Address, had_code: Bytecode },
}

/// What a `JournalEntry` stands for.
pub enum EntryView {
    AccountLoaded { address: Address },
    AccountDestroyed { address: Address, target: Address, was_destroyed: bool, had_balance: nat },
    AccountTouched { address: Address },
    BalanceTransfer { from: Address, to: Address, balance: nat },
    NonceChange { address: Address },
    StorageChange { address: Address, key: U256, had_value: Option<U256> },
    CodeChange { address: Address, had_code: BytecodeView },
}

impl View for JournalEntry {
    type V = EntryView;

    open spec fn view(&self) -> EntryView {
        match *self {
            JournalEntry::AccountLoaded { address } => EntryView::AccountLoaded { address },
            JournalEntry::AccountDestroyed { address, target, was_destroyed, had_balance } => {
                EntryView::AccountDestroyed {
                    address,
                    target,
                    was_destroyed,
                    had_balance: had_balance@,
                }
            },
            JournalEntry::AccountTouched { address } => EntryView::AccountTouched { address },
            JournalEntry::BalanceTransfer { from, to, balance } => EntryView::BalanceTransfer {
                from,
                to,
                balance: balance@,
            },
            JournalEntry::NonceChange { address } => EntryView::NonceChange { address },
            JournalEntry::StorageChange { address, key, had_value } => EntryView::StorageChange {
                address,
                key,
                had_value,
            },
            JournalEntry::CodeChange { address, had_code } => EntryView::CodeChange {
                address,
                had_code: had_code@,
            },
        }
    }
}

/// The entries of one frame, oldest first.
pub type Frame = Seq<EntryView>;

/// The accounts by address, as the contracts see them.
pub type Accounts = Map<Address, AccountView>;

/// The view of a frame of entries.
pub open spec fn frame_view(entries: Seq<JournalEntry>) -> Frame {
    Seq::new(entries.len(), |i: int| entries[i]@)
}

/// The view of a stack of frames.
pub open spec fn journal_view(frames: Seq<Vec<JournalEntry>>) -> Seq<Frame> {
    Seq::new(frames.len(), |i: int| frame_view(frames[i]@))
}

/// A log record.
#[derive(Debug)]
pub struct Log {
    pub address: Address,
    pub topics: Vec<Hash32>,
    pub data: Vec<u8>,
}

/// What a `Log` stands for.
#[verifier::ext_equal]
pub struct LogView {
    pub address: Address,
    pub topics: Seq<Hash32>,
    pub data: Seq<u8>,
}

impl View for Log {
    type V = LogView;

    open spec fn view(&self) -> LogView {
        LogView { address: self.address, topics: self.topics@, data: self.data@ }
    }
}

/// The view of a sequence of log records.
pub open spec fn logs_view(logs: Seq<Log>) -> Seq<LogView> {
    Seq::new(logs.len(), |i: int| logs[i]@)
}

/// The account with another balance.
pub open spec fn with_balance(account: AccountView, balance: nat) -> AccountView {
    AccountView { info: AccountInfoView { balance, ..account.info }, ..account }
}

/// Whether an entry can be undone on `accounts`: the accounts and the cell
/// that undoing it writes to are there.
pub open spec fn entry_applies(accounts: Accounts, entry: EntryView) -> bool {
    match entry {
        EntryView::AccountLoaded { address } => true,
        EntryView::AccountDestroyed { address, target, was_destroyed, had_balance } => {
            accounts.contains_key(address) && accounts.contains_key(target)
        },
        EntryView::AccountTouched { address } => {
            address == Address::ripemd_precompile() || accounts.contains_key(address)
        },
        EntryView::BalanceTransfer { from, to, balance } => {
            accounts.contains_key(from) && accounts.contains_key(to)
        },
        EntryView::NonceChange { address } => {
            accounts.contains_key(address) && accounts[address].info.nonce >= 1
        },
        EntryView::StorageChange { address, key, had_value } => {
            accounts.contains_key(address) && (had_value is Some
                ==> accounts[address].storage.contains_key(key))
        },
        EntryView::CodeChange { address, had_code } => accounts.contains_key(address),
    }
}

/// The accounts after one entry has been undone.
pub open spec fn undo_entry(accounts: Accounts, entry: EntryView) -> Accounts {
    match entry {
        EntryView::AccountLoaded { address } => accounts.remove(address),
        EntryView::AccountDestroyed { address, target, was_destroyed, had_balance } => {
            let account = accounts[address];
            let restored = AccountView {
                is_destroyed: was_destroyed,
                ..with_balance(account, wrapping_sum(account.info.balance, had_balance))
            };
            let first = accounts.insert(address, restored);
            if address == target {
                first
            } else {
                first.insert(
                    target,
                    with_balance(
                        first[target],
                        wrapping_difference(first[target].info.balance, had_balance),
                    ),
                )
            }
        },
        EntryView::AccountTouched { address } => {
            if address == Address::ripemd_precompile() {
                accounts
            } else {
                accounts.insert(address, AccountView { is_touched: false, ..accounts[address] })
            }
        },
        EntryView::BalanceTransfer { from, to, balance } => {
            let first = accounts.insert(
                from,
                with_balance(accounts[from], wrapping_sum(accounts[from].info.balance, balance)),
            );
            first.insert(
                to,
                with_balance(first[to], wrapping_difference(first[to].info.balance, balance)),
            )
        },
        EntryView::NonceChange { address } => {
            let account = accounts[address];
            accounts.insert(
                address,
                AccountView {
                    info: AccountInfoView {
                        nonce: (account.info.nonce - 1) as u64,
                        ..account.info
                    },
                    ..account
                },
            )
        },
        EntryView::StorageChange { address, key, had_value } => {
            let account = accounts[address];
            match had_value {
                Some(value) => accounts.insert(
                    address,
                    AccountView {
                        storage: account.storage.insert(
                            key,
                            StorageSlot { present_value: value, ..account.storage[key] },
                        ),
                        ..account
                    },
                ),
                None => accounts.insert(
                    address,
                    AccountView { storage: account.storage.remove(key), ..account },
                ),
            }
        },
        EntryView::CodeChange { address, had_code } => {
            let account = accounts[address];
            accounts.insert(
                address,
                AccountView {
                    info: AccountInfoView {
                        code_hash: had_code.hash,
                        code: Some(had_code),
                        ..account.info
                    },
                    ..account
                },
            )
        },
    }
}

/// Whether every entry of a frame can be undone in turn, the newest first.
pub open spec fn frame_applies(accounts: Accounts, frame: Frame) -> bool
    decreases frame.len(),
{
    frame.len() == 0 || (entry_applies(accounts, frame.last()) && frame_applies(
        undo_entry(accounts, frame.last()),
        frame.drop_last(),
    ))
}

/// The accounts after the entries of a frame have been undone, the newest first.
pub open spec fn undo_frame(accounts: Accounts, frame: Frame) -> Accounts
    decreases frame.len(),
{
    if frame.len() == 0 {
        accounts
    } else {
        undo_frame(undo_entry(accounts, frame.last()), frame.drop_last())
    }
}

/// Whether every frame of a stack can be undone in turn, the newest first.
pub open spec fn frames_apply(accounts: Accounts, frames: Seq<Frame>) -> bool
    decreases frames.len(),
{
    frames.len() == 0 || (frame_applies(accounts, frames.last()) && frames_apply(
        undo_frame(accounts, frames.last()),
        frames.drop_last(),
    ))
}

/// The accounts after the frames of a stack have been undone, the newest first.
pub open spec fn undo_frames(accounts: Accounts, frames: Seq<Frame>) -> Accounts
    decreases frames.len(),
{
    if frames.len() == 0 {
        accounts
    } else {
        undo_frames(undo_frame(accounts, frames.last()), frames.drop_last())
    }
}

/// Two maps of accounts with the same addresses, and under each address the
/// same nonce and the same storage keys: what decides whether an entry can
/// be undone.
pub open spec fn same_shape(a: Accounts, b: Accounts) -> bool {
    &&& a.dom() =~= b.dom()
    &&& forall|address: Address| #[trigger]
        a.contains_key(address) ==> a[address].info.nonce == b[address].info.nonce
            && a[address].storage.dom() =~= b[address].storage.dom()
}

/// Undoing an entry on maps of the same shape: possible on both or on
/// neither, and the results have the same shape again.
pub proof fn lemma_shape_entry(a: Accounts, b: Accounts, entry: EntryView)
    requires
        same_shape(a, b),
        entry_applies(a, entry),
    ensures
        entry_applies(b, entry),
        same_shape(undo_entry(a, entry), undo_entry(b, entry)),
{
    let a2 = undo_entry(a, entry);
    let b2 = undo_entry(b, entry);
    match entry {
        EntryView::AccountLoaded { address } => {
            assert(a.contains_key(address) == b.contains_key(address));
        },
        EntryView::AccountDestroyed { address, target, was_destroyed, had_balance } => {
            assert(a.contains_key(address) && b.contains_key(address));
            assert(a.contains_key(target) && b.contains_key(target));
        },
        EntryView::AccountTouched { address } => {
            assert(a.contains_key(address) == b.contains_key(address));
        },
        EntryView::BalanceTransfer { from, to, balance } => {
            assert(a.contains_key(from) && b.contains_key(from));
            assert(a.contains_key(to) && b.contains_key(to));
        },
        EntryView::NonceChange { address } => {
            assert(a.contains_key(address) && b.contains_key(address));
        },
        EntryView::StorageChange { address, key, had_value } => {
            assert(a.contains_key(address) && b.contains_key(address));
            assert(a[address].storage.contains_key(key) == b[address].storage.contains_key(key));
        },
        EntryView::CodeChange { address, had_code } => {
            assert(a.contains_key(address) && b.contains_key(address));
        },
    }
    assert(a2.dom() =~= b2.dom());
    assert forall|address: Address| #[trigger] a2.contains_key(address) implies a2[address].info.nonce
        == b2[address].info.nonce && a2[address].storage.dom() =~= b2[address].storage.dom() by {
        assert(a.contains_key(address));
    }
}

/// Undoing a frame on maps of the same shape.
pub proof fn lemma_shape_frame(a: Accounts, b: Accounts, frame: Frame)
    requires
        same_shape(a, b),
        frame_applies(a, frame),
    ensures
        frame_applies(b, frame),
        same_shape(undo_frame(a, frame), undo_frame(b, frame)),
    decreases frame.len(),
{
    if frame.len() > 0 {
        lemma_shape_entry(a, b, frame.last());
        lemma_shape_frame(
            undo_entry(a, frame.last()),
            undo_entry(b, frame.last()),
            frame.drop_last(),
        );
    }
}

/// Undoing a stack of frames on maps of the same shape.
pub proof fn lemma_shape_frames(a: Accounts, b: Accounts, frames: Seq<Frame>)
    requires
        same_shape(a, b),
        frames_apply(a, frames),
    ensures
        frames_apply(b, frames),
        same_shape(undo_frames(a, frames), undo_frames(b, frames)),
    decreases frames.len(),
{
    if frames.len() > 0 {
        lemma_shape_frame(a, b, frames.last());
        lemma_shape_frames(
            undo_frame(a, frames.last()),
            undo_frame(b, frames.last()),
            frames.drop_last(),
        );
    }
}

/// Undoing a stack that is two stacks one on the other: the upper part is
/// undone first.
pub proof fn lemma_frames_concat(accounts: Accounts, lower: Seq<Frame>, upper: Seq<Frame>)
    ensures
        undo_frames(accounts, lower + upper) == undo_frames(undo_frames(accounts, upper), lower),
        frames_apply(accounts, lower + upper) == (frames_apply(accounts, upper) && frames_apply(
            undo_frames(accounts, upper),
            lower,
        )),
    decreases upper.len(),
{
    if upper.len() == 0 {
        assert(lower + upper =~= lower);
    } else {
        let whole = lower + upper;
        assert(whole.last() == upper.last());
        assert(whole.drop_last() =~= lower + upper.drop_last());
        lemma_frames_concat(undo_frame(accounts, upper.last()), lower, upper.drop_last());
    }
}

} // verus!
