//! What holds of the engine over whole runs: that a revert restores the
//! state of its checkpoint, that touching is idempotent, that a storage cell
//! keeps its original value, that a transfer conserves, and that `finalize`
//! returns the touched accounts.

use crate::account::{AccountInfoView, AccountView, BytecodeView, StorageSlot};
use crate::db::Oracle;
use crate::journal::{
    entry_applies, frame_applies, frames_apply, lemma_frames_concat, same_shape, undo_entry,
    undo_frame, undo_frames, with_balance, Accounts, EntryView, Frame, LogView,
};
use crate::model::{
    created, lemma_blank_wf, lemma_checkpoint_wf, lemma_load_account_wf, lemma_load_code_wf,
    lemma_revert_wf, lemma_sload_wf, lemma_touch_wf, lemma_wf_push, lemma_wf_reshape, Model,
    TransferError,
};
use crate::primitives::{u256_modulus, Address, U256};
use vstd::prelude::*;

verus! {

/// Two maps of accounts that hold the same addresses, and the same account
/// at every address outside `loose`.
pub open spec fn agree_outside(a: Accounts, b: Accounts, loose: Set<Address>) -> bool {
    &&& forall|x: Address| a.contains_key(x) == b.contains_key(x)
    &&& forall|x: Address| #[trigger] a.contains_key(x) && !loose.contains(x) ==> a[x] == b[x]
}

/// Undoing an entry keeps two maps in agreement outside `loose`.
pub proof fn lemma_agree_entry(a: Accounts, b: Accounts, loose: Set<Address>, entry: EntryView)
    requires
        agree_outside(a, b, loose),
        entry_applies(a, entry),
    ensures
        agree_outside(undo_entry(a, entry), undo_entry(b, entry), loose),
{
    let a2 = undo_entry(a, entry);
    let b2 = undo_entry(b, entry);
    match entry {
        EntryView::AccountLoaded { address } => {},
        EntryView::AccountDestroyed { address, target, was_destroyed, had_balance } => {
            assert(a.contains_key(address) && b.contains_key(address));
            assert(a.contains_key(target) && b.contains_key(target));
        },
        EntryView::AccountTouched { address } => {
            assert(a.contains_key(address) == b.contains_key(address));
        },
        EntryView::BalanceTransfer { from, to, balance } => {
            assert(a.contains_key(from) && b.contains_key(from));
            assert(a.contains_key(to) && b.contains_key(to));
        },
        EntryView::NonceChange { address } => {
            assert(a.contains_key(address) && b.contains_key(address));
        },
        EntryView::StorageChange { address, key, had_value } => {
            assert(a.contains_key(address) && b.contains_key(address));
        },
        EntryView::CodeChange { address, had_code } => {
            assert(a.contains_key(address) && b.contains_key(address));
        },
    }
    assert forall|x: Address| a2.contains_key(x) == b2.contains_key(x) by {
        assert(a.contains_key(x) == b.contains_key(x));
    }
    assert forall|x: Address| #[trigger] a2.contains_key(x) && !loose.contains(x) implies a2[x]
        == b2[x] by {
        assert(a.contains_key(x));
    }
}

/// Undoing a frame keeps two maps in agreement outside `loose`, and adds no
/// address.
pub proof fn lemma_agree_frame(a: Accounts, b: Accounts, loose: Set<Address>, frame: Frame)
    requires
        agree_outside(a, b, loose),
        frame_applies(a, frame),
    ensures
        agree_outside(undo_frame(a, frame), undo_frame(b, frame), loose),
        forall|x: Address| undo_frame(a, frame).contains_key(x) ==> a.contains_key(x),
    decreases frame.len(),
{
    if frame.len() > 0 {
        lemma_agree_entry(a, b, loose, frame.last());
        lemma_entry_adds_nothing(a, frame.last());
        lemma_agree_frame(
            undo_entry(a, frame.last()),
            undo_entry(b, frame.last()),
            loose,
            frame.drop_last(),
        );
    }
}

/// Undoing an entry that can be undone adds no address.
pub proof fn lemma_entry_adds_nothing(a: Accounts, entry: EntryView)
    requires
        entry_applies(a, entry),
    ensures
        forall|x: Address| undo_entry(a, entry).contains_key(x) ==> a.contains_key(x),
{
}

/// Undoing a stack of frames keeps two maps in agreement outside `loose`,
/// and adds no address.
pub proof fn lemma_agree_frames(a: Accounts, b: Accounts, loose: Set<Address>, frames: Seq<Frame>)
    requires
        agree_outside(a, b, loose),
        frames_apply(a, frames),
    ensures
        agree_outside(undo_frames(a, frames), undo_frames(b, frames), loose),
        forall|x: Address| undo_frames(a, frames).contains_key(x) ==> a.contains_key(x),
    decreases frames.len(),
{
    if frames.len() > 0 {
        lemma_agree_frame(a, b, loose, frames.last());
        lemma_agree_frames(
            undo_frame(a, frames.last()),
            undo_frame(b, frames.last()),
            loose,
            frames.drop_last(),
        );
    }
}

/// What a run keeps true from a checkpoint of `base` on: the state is
/// well-formed, the frames and the logs of `base` are still there, and
/// undoing the frames above them gives the accounts of `base`.
pub open spec fn restorable(base: Model, m: Model) -> bool {
    &&& m.wf()
    &&& m.journal.len() > base.journal.len()
    &&& m.journal.take(base.journal.len() as int) == base.journal
    &&& m.logs.len() >= base.logs.len()
    &&& m.logs.take(base.logs.len() as int) == base.logs
    &&& undo_frames(m.state, m.journal.skip(base.journal.len() as int)) == base.state
}

/// No address of `loose` is an account of `base`.
pub open spec fn fresh_since(base: Model, loose: Set<Address>) -> bool {
    forall|x: Address| loose.contains(x) ==> !base.state.contains_key(x)
}

/// A change to the accounts that only touches accounts loaded since the
/// checkpoint keeps the state restorable.
pub proof fn lemma_restorable_reshape(base: Model, m: Model, accounts: Accounts, loose: Set<Address>)
    requires
        restorable(base, m),
        agree_outside(m.state, accounts, loose),
        same_shape(m.state, accounts),
        fresh_since(base, loose),
    ensures
        restorable(base, Model { state: accounts, ..m }),
{
    let above = m.journal.skip(base.journal.len() as int);
    lemma_wf_reshape(m, accounts);
    assert(m.journal.take(base.journal.len() as int) + above =~= m.journal);
    lemma_frames_concat(m.state, m.journal.take(base.journal.len() as int), above);
    lemma_agree_frames(m.state, accounts, loose, above);
    assert(undo_frames(accounts, above) =~= base.state);
}

/// A change to the accounts with an entry that undoes it, but for accounts
/// loaded since the checkpoint, keeps the state restorable.
pub proof fn lemma_restorable_push(
    base: Model,
    m: Model,
    accounts: Accounts,
    entry: EntryView,
    loose: Set<Address>,
)
    requires
        restorable(base, m),
        entry_applies(accounts, entry),
        agree_outside(m.state, undo_entry(accounts, entry), loose),
        same_shape(m.state, undo_entry(accounts, entry)),
        fresh_since(base, loose),
    ensures
        restorable(base, (Model { state: accounts, ..m }).push(entry)),
{
    let after = (Model { state: accounts, ..m }).push(entry);
    let keep = base.journal.len() as int;
    let undone = undo_entry(accounts, entry);
    lemma_wf_push(m, accounts, entry);
    lemma_restorable_reshape(base, m, undone, loose);
    let above = m.journal.skip(keep);
    let above_after = after.journal.skip(keep);
    let top = m.journal.last();
    assert(above_after.last() == top.push(entry));
    assert(above_after.drop_last() =~= above.drop_last());
    assert(above.last() == top);
    assert(top.push(entry).last() == entry);
    assert(top.push(entry).drop_last() =~= top);
    assert(after.journal.take(keep) =~= m.journal.take(keep));
}

/// An account of `base` is still loaded in every restorable state.
pub proof fn lemma_base_stays_warm(base: Model, m: Model, address: Address)
    requires
        restorable(base, m),
        base.state.contains_key(address),
    ensures
        m.state.contains_key(address),
{
    let keep = base.journal.len() as int;
    let above = m.journal.skip(keep);
    assert(m.journal.take(keep) + above =~= m.journal);
    lemma_frames_concat(m.state, m.journal.take(keep), above);
    lemma_agree_frames(m.state, m.state, Set::empty(), above);
}

/// Whether touching `address` in `m` is undone by a revert to the
/// checkpoint of `base`: the touch changes nothing, or the address is not
/// that of the RIPEMD-160 precompile, or the account was loaded since.
pub open spec fn touch_reverts(base: Model, m: Model, address: Address) -> bool {
    ||| !m.is_warm(address)
    ||| m.state[address].is_touched
    ||| address != Address::ripemd_precompile()
    ||| !base.state.contains_key(address)
}

/// Whether filling the code cache of `address` in `m` is undone by a revert
/// to the checkpoint of `base`: the cache is filled already, or the account
/// was loaded since.
pub open spec fn fill_reverts(base: Model, m: Model, address: Address) -> bool {
    ||| !m.is_warm(address)
    ||| m.state[address].info.code is Some
    ||| !base.state.contains_key(address)
}

pub proof fn lemma_touch_restorable(base: Model, m: Model, address: Address)
    requires
        restorable(base, m),
        touch_reverts(base, m, address),
    ensures
        restorable(base, m.touch(address)),
{
    if m.is_warm(address) && !m.state[address].is_touched {
        let accounts = m.state.insert(address, AccountView { is_touched: true, ..m.state[address] });
        let entry = EntryView::AccountTouched { address };
        let loose = if address == Address::ripemd_precompile() {
            set![address]
        } else {
            Set::empty()
        };
        assert(undo_entry(accounts, entry) =~= if address == Address::ripemd_precompile() {
            accounts
        } else {
            m.state
        });
        lemma_restorable_push(base, m, accounts, entry, loose);
        assert(m.touch(address) == (Model { state: accounts, ..m }).push(entry));
    }
}

pub proof fn lemma_load_account_restorable(base: Model, m: Model, address: Address, oracle: Oracle)
    requires
        restorable(base, m),
    ensures
        restorable(base, m.load_account(address, oracle)),
{
    if !m.is_warm(address) {
        let accounts = m.state.insert(address, AccountView::from_info((oracle.basic)(address)));
        let entry = EntryView::AccountLoaded { address };
        assert(undo_entry(accounts, entry) =~= m.state);
        lemma_restorable_push(base, m, accounts, entry, Set::empty());
        assert(m.load_account(address, oracle) == (Model { state: accounts, ..m }).push(entry));
    }
}

pub proof fn lemma_fill_code_restorable(base: Model, m: Model, address: Address, oracle: Oracle)
    requires
        restorable(base, m),
        m.is_warm(address),
        fill_reverts(base, m, address),
    ensures
        restorable(base, m.fill_code(address, oracle)),
{
    let after = m.fill_code(address, oracle);
    if m.state[address].info.code is None {
        lemma_restorable_reshape(base, m, after.state, set![address]);
    }
}

pub proof fn lemma_load_code_restorable(base: Model, m: Model, address: Address, oracle: Oracle)
    requires
        restorable(base, m),
        fill_reverts(base, m, address),
    ensures
        restorable(base, m.load_code(address, oracle)),
        m.load_code(address, oracle).is_warm(address),
{
    lemma_load_account_restorable(base, m, address, oracle);
    lemma_load_account_wf(m, address, oracle);
    if !m.is_warm(address) {
        if base.state.contains_key(address) {
            lemma_base_stays_warm(base, m, address);
        }
    }
    lemma_fill_code_restorable(base, m.load_account(address, oracle), address, oracle);
}

pub proof fn lemma_inc_nonce_restorable(base: Model, m: Model, address: Address)
    requires
        restorable(base, m),
        m.is_warm(address),
        touch_reverts(base, m, address),
    ensures
        restorable(base, m.inc_nonce(address)),
{
    if m.state[address].info.nonce != u64::MAX {
        lemma_touch_restorable(base, m, address);
        let touched = m.touch(address);
        let account = touched.state[address];
        let accounts = touched.state.insert(
            address,
            AccountView {
                info: AccountInfoView { nonce: (account.info.nonce + 1) as u64, ..account.info },
                ..account
            },
        );
        let entry = EntryView::NonceChange { address };
        assert(undo_entry(accounts, entry) =~= touched.state);
        lemma_restorable_push(base, touched, accounts, entry, Set::empty());
        assert(m.inc_nonce(address) == (Model { state: accounts, ..touched }).push(entry));
    }
}

/// Whether `set_code` changes nothing in the code of the account.
pub open spec fn same_code(m: Model, address: Address, code: BytecodeView) -> bool {
    m.state[address].info.code == Some(code) && m.state[address].info.code_hash == code.hash
}

pub proof fn lemma_set_code_restorable(base: Model, m: Model, address: Address, code: BytecodeView)
    requires
        restorable(base, m),
        m.is_warm(address),
        touch_reverts(base, m, address),
        same_code(m, address, code) || !base.state.contains_key(address),
    ensures
        restorable(base, m.set_code(address, code)),
{
    lemma_touch_restorable(base, m, address);
    let touched = m.touch(address);
    let account = touched.state[address];
    let accounts = touched.state.insert(
        address,
        AccountView {
            info: AccountInfoView { code_hash: code.hash, code: Some(code), ..account.info },
            ..account
        },
    );
    let entry = EntryView::CodeChange { address, had_code: code };
    let loose = if same_code(m, address, code) {
        Set::empty()
    } else {
        set![address]
    };
    if same_code(m, address, code) {
        assert(undo_entry(accounts, entry) =~= touched.state);
    }
    lemma_restorable_push(base, touched, accounts, entry, loose);
    assert(m.set_code(address, code) == (Model { state: accounts, ..touched }).push(entry));
}

pub proof fn lemma_sload_restorable(base: Model, m: Model, address: Address, key: U256, oracle: Oracle)
    requires
        restorable(base, m),
        m.is_warm(address),
    ensures
        restorable(base, m.sload(address, key, oracle)),
{
    let account = m.state[address];
    if !account.storage.contains_key(key) {
        let accounts = m.state.insert(
            address,
            AccountView {
                storage: account.storage.insert(
                    key,
                    StorageSlot::spec_new(m.storage_value(address, key, oracle)),
                ),
                ..account
            },
        );
        let entry = EntryView::StorageChange { address, key, had_value: None };
        assert(undo_entry(accounts, entry)[address].storage =~= account.storage);
        assert(undo_entry(accounts, entry) =~= m.state);
        lemma_restorable_push(base, m, accounts, entry, Set::empty());
        assert(m.sload(address, key, oracle) == (Model { state: accounts, ..m }).push(entry));
    }
}

pub proof fn lemma_sstore_restorable(
    base: Model,
    m: Model,
    address: Address,
    key: U256,
    value: U256,
    oracle: Oracle,
)
    requires
        restorable(base, m),
        m.is_warm(address),
    ensures
        restorable(base, m.sstore(address, key, value, oracle)),
{
    lemma_sload_restorable(base, m, address, key, oracle);
    lemma_sload_wf(m, address, key, oracle);
    let loaded = m.sload(address, key, oracle);
    let account = loaded.state[address];
    let slot = account.storage[key];
    if slot.present_value != value {
        let accounts = loaded.state.insert(
            address,
            AccountView {
                storage: account.storage.insert(key, StorageSlot { present_value: value, ..slot }),
                ..account
            },
        );
        let entry = EntryView::StorageChange { address, key, had_value: Some(slot.present_value) };
        assert(undo_entry(accounts, entry)[address].storage =~= account.storage);
        assert(undo_entry(accounts, entry) =~= loaded.state);
        lemma_restorable_push(base, loaded, accounts, entry, Set::empty());
        assert(m.sstore(address, key, value, oracle) == (Model { state: accounts, ..loaded }).push(
            entry,
        ));
    }
}

/// Whether a new account at `address` would be what is there already, the
/// touch entry of the creation included.
pub open spec fn already_new(m: Model, address: Address) -> bool {
    &&& m.is_warm(address)
    &&& created(m.state[address]) == m.state[address]
    &&& !m.state[address].is_touched || address == Address::ripemd_precompile()
}

/// Whether a `create_account` is undone by a revert to the checkpoint of
/// `base`: the account was loaded since; or nothing is created and the code
/// cache was filled already; or the account is created and was as new.
pub open spec fn create_reverts(
    base: Model,
    m: Model,
    address: Address,
    is_precompile: bool,
    oracle: Oracle,
) -> bool {
    ||| !base.state.contains_key(address)
    ||| !m.can_create(address, is_precompile, oracle) && m.state[address].info.code is Some
    ||| m.can_create(address, is_precompile, oracle) && already_new(m, address)
}

pub proof fn lemma_create_account_restorable(
    base: Model,
    m: Model,
    address: Address,
    is_precompile: bool,
    oracle: Oracle,
)
    requires
        restorable(base, m),
        create_reverts(base, m, address, is_precompile, oracle),
    ensures
        restorable(base, m.create_account(address, is_precompile, oracle)),
{
    let after = m.create_account(address, is_precompile, oracle);
    let entry = EntryView::AccountTouched { address };
    if base.state.contains_key(address) {
        lemma_base_stays_warm(base, m, address);
    }
    if base.state.contains_key(address) && m.can_create(address, is_precompile, oracle) {
        let loaded = m.load_code(address, oracle);
        assert(created(loaded.state[address]).storage =~= created(m.state[address]).storage);
        assert(created(loaded.state[address]) == m.state[address]);
        assert(after.state =~= m.state);
        assert(undo_entry(after.state, entry) =~= m.state);
        assert(after.journal =~= m.push(entry).journal);
        lemma_restorable_push(base, m, after.state, entry, Set::empty());
        assert(after == (Model { state: after.state, ..m }).push(entry));
    } else {
        lemma_load_code_restorable(base, m, address, oracle);
        lemma_load_code_wf(m, address, oracle);
        let loaded = m.load_code(address, oracle);
        if m.can_create(address, is_precompile, oracle) {
            let accounts = loaded.state.insert(address, created(loaded.state[address]));
            assert(same_shape(loaded.state, accounts));
            assert(same_shape(loaded.state, undo_entry(accounts, entry)));
            lemma_restorable_push(base, loaded, accounts, entry, set![address]);
            assert(after == (Model { state: accounts, ..loaded }).push(entry));
        }
    }
}

/// Whether a `transfer` is undone by a revert to the checkpoint of `base`:
/// the amount and the sender's balance are below 2^256, as every `U256` is;
/// the touches of both accounts are undone; and where the recipient
/// overflows, the sender was loaded since the checkpoint.
pub open spec fn transfer_reverts(
    base: Model,
    m: Model,
    from: Address,
    to: Address,
    value: nat,
    oracle: Oracle,
) -> bool {
    let loaded = m.load_account(from, oracle).load_account(to, oracle);
    let prepared = m.transfer_prepared(from, to, oracle);
    &&& value < u256_modulus()
    &&& prepared.state[from].info.balance < u256_modulus()
    &&& touch_reverts(base, loaded, from)
    &&& touch_reverts(base, loaded.touch(from), to)
    &&& m.transfer_result(from, to, value, oracle) == Err::<(bool, bool), TransferError>(
        TransferError::OverflowPayment,
    ) ==> !base.state.contains_key(from)
}

pub proof fn lemma_transfer_restorable(
    base: Model,
    m: Model,
    from: Address,
    to: Address,
    value: nat,
    oracle: Oracle,
)
    requires
        restorable(base, m),
        transfer_reverts(base, m, from, to, value, oracle),
    ensures
        restorable(base, m.transfer(from, to, value, oracle)),
{
    let first = m.load_account(from, oracle);
    let loaded = first.load_account(to, oracle);
    let prepared = loaded.touch(from).touch(to);
    lemma_load_account_restorable(base, m, from, oracle);
    lemma_load_account_restorable(base, first, to, oracle);
    lemma_load_account_wf(m, from, oracle);
    lemma_load_account_wf(first, to, oracle);
    lemma_touch_restorable(base, loaded, from);
    lemma_touch_wf(loaded, from);
    lemma_touch_restorable(base, loaded.touch(from), to);
    lemma_touch_wf(loaded.touch(from), to);
    let sender = prepared.state[from];
    if sender.info.balance >= value {
        let debited = m.transfer_debited(from, to, value, oracle);
        let recipient = debited.state[to];
        if recipient.info.balance + value >= u256_modulus() {
            assert(same_shape(prepared.state, debited.state));
            lemma_restorable_reshape(base, prepared, debited.state, set![from]);
        } else {
            let after = m.transfer(from, to, value, oracle);
            let entry = EntryView::BalanceTransfer { from, to, balance: value };
            assert(undo_entry(after.state, entry) =~= prepared.state);
            lemma_restorable_push(base, prepared, after.state, entry, Set::empty());
            assert(after == (Model { state: after.state, ..prepared }).push(entry));
        }
    }
}

/// Whether a `selfdestruct` is undone by a revert to the checkpoint of
/// `base`: the balance moved is below 2^256, as every `U256` is, and the
/// load of the target and its touch are undone.
pub open spec fn selfdestruct_reverts(
    base: Model,
    m: Model,
    address: Address,
    target: Address,
    oracle: Oracle,
) -> bool {
    &&& m.destroyed_balance(address, target, oracle) < u256_modulus()
    &&& fill_reverts(base, m, target)
    &&& address != target ==> touch_reverts(base, m.load_code(target, oracle), target)
}

pub proof fn lemma_selfdestruct_restorable(
    base: Model,
    m: Model,
    address: Address,
    target: Address,
    oracle: Oracle,
)
    requires
        restorable(base, m),
        m.can_destroy(address, target, oracle),
        selfdestruct_reverts(base, m, address, target, oracle),
    ensures
        restorable(base, m.selfdestruct(address, target, oracle)),
{
    lemma_load_code_restorable(base, m, target, oracle);
    lemma_load_code_wf(m, target, oracle);
    let loaded = m.load_code(target, oracle);
    let victim = loaded.state[address];
    let after = m.selfdestruct(address, target, oracle);
    let entry = EntryView::AccountDestroyed {
        address,
        target,
        was_destroyed: victim.is_destroyed,
        had_balance: victim.info.balance,
    };
    let touched = if address == target {
        loaded
    } else {
        loaded.touch(target)
    };
    if address != target {
        lemma_touch_restorable(base, loaded, target);
        lemma_touch_wf(loaded, target);
    }
    assert(after.journal =~= touched.push(entry).journal);
    assert(undo_entry(after.state, entry) =~= touched.state);
    lemma_restorable_push(base, touched, after.state, entry, Set::empty());
    assert(after == (Model { state: after.state, ..touched }).push(entry));
}

/// One operation of the engine, as a step of a run.
pub enum Step {
    Touch { address: Address },
    LoadAccount { address: Address },
    /// `load_code`, and `load_account_exist`, which changes the state alike.
    LoadCode { address: Address },
    IncNonce { address: Address },
    SetCode { address: Address, code: BytecodeView },
    Transfer { from: Address, to: Address, amount: nat },
    CreateAccount { address: Address, is_precompile: bool },
    SelfDestruct { address: Address, target: Address },
    Sload { address: Address, key: U256 },
    Sstore { address: Address, key: U256, value: U256 },
    Log { log: LogView },
    Checkpoint,
    Commit,
    Revert { log_index: nat, journal_index: nat },
}

/// The state after one step.
pub open spec fn step(m: Model, s: Step, oracle: Oracle) -> Model {
    match s {
        Step::Touch { address } => m.touch(address),
        Step::LoadAccount { address } => m.load_account(address, oracle),
        Step::LoadCode { address } => m.load_code(address, oracle),
        Step::IncNonce { address } => m.inc_nonce(address),
        Step::SetCode { address, code } => m.set_code(address, code),
        Step::Transfer { from, to, amount } => m.transfer(from, to, amount, oracle),
        Step::CreateAccount { address, is_precompile } => m.create_account(
            address,
            is_precompile,
            oracle,
        ),
        Step::SelfDestruct { address, target } => m.selfdestruct(address, target, oracle),
        Step::Sload { address, key } => m.sload(address, key, oracle),
        Step::Sstore { address, key, value } => m.sstore(address, key, value, oracle),
        Step::Log { log } => m.log(log),
        Step::Checkpoint => m.checkpoint(),
        Step::Commit => m.commit(),
        Step::Revert { log_index, journal_index } => m.revert(log_index, journal_index),
    }
}

/// The state after a run of steps.
pub open spec fn run(m: Model, steps: Seq<Step>, oracle: Oracle) -> Model
    decreases steps.len(),
{
    if steps.len() == 0 {
        m
    } else {
        step(run(m, steps.drop_last(), oracle), steps.last(), oracle)
    }
}

/// Whether a step may be taken in `m` and is undone by a revert to the
/// checkpoint of `base`. The step meets the precondition of its operation.
/// A change that the journal does not record, or records otherwise than a
/// revert needs, is made only to an account loaded since the checkpoint. A
/// revert inside the run goes to a checkpoint taken inside the run.
pub open spec fn step_reverts(base: Model, m: Model, s: Step, oracle: Oracle) -> bool {
    match s {
        Step::Touch { address } => touch_reverts(base, m, address),
        Step::LoadAccount { address } => true,
        Step::LoadCode { address } => fill_reverts(base, m, address),
        Step::IncNonce { address } => m.is_warm(address) && touch_reverts(base, m, address),
        Step::SetCode { address, code } => {
            &&& m.is_warm(address)
            &&& touch_reverts(base, m, address)
            &&& same_code(m, address, code) || !base.state.contains_key(address)
        },
        Step::Transfer { from, to, amount } => transfer_reverts(base, m, from, to, amount, oracle),
        Step::CreateAccount { address, is_precompile } => create_reverts(
            base,
            m,
            address,
            is_precompile,
            oracle,
        ),
        Step::SelfDestruct { address, target } => {
            &&& m.can_destroy(address, target, oracle)
            &&& selfdestruct_reverts(base, m, address, target, oracle)
        },
        Step::Sload { address, key } => m.is_warm(address),
        Step::Sstore { address, key, value } => m.is_warm(address),
        Step::Log { log } => true,
        Step::Checkpoint => true,
        Step::Commit => m.depth >= 1,
        Step::Revert { log_index, journal_index } => {
            &&& m.can_revert(journal_index)
            &&& base.journal.len() < journal_index
            &&& base.logs.len() <= log_index
        },
    }
}

/// Whether every step of a run from `m` is undone by a revert to the
/// checkpoint of `base`.
pub open spec fn run_reverts(base: Model, m: Model, steps: Seq<Step>, oracle: Oracle) -> bool
    decreases steps.len(),
{
    steps.len() == 0 || (run_reverts(base, m, steps.drop_last(), oracle) && step_reverts(
        base,
        run(m, steps.drop_last(), oracle),
        steps.last(),
        oracle,
    ))
}

pub proof fn lemma_log_restorable(base: Model, m: Model, log: LogView)
    requires
        restorable(base, m),
    ensures
        restorable(base, m.log(log)),
{
    let kept = base.logs.len() as int;
    assert(m.log(log).logs.take(kept) =~= m.logs.take(kept));
}

/// A checkpoint taken in a state that is restorable, or in `base` itself,
/// gives a restorable state.
pub proof fn lemma_checkpoint_restorable(base: Model, m: Model)
    requires
        restorable(base, m) || m == base,
        base.wf(),
    ensures
        restorable(base, m.checkpoint()),
{
    let keep = base.journal.len() as int;
    let kept = base.logs.len() as int;
    let after = m.checkpoint();
    let above = after.journal.skip(keep);
    lemma_checkpoint_wf(m);
    assert(after.journal.take(keep) =~= m.journal.take(keep));
    assert(m == base ==> m.journal.take(keep) =~= base.journal);
    assert(m == base ==> m.logs.take(kept) =~= base.logs);
    assert(above.last().len() == 0);
    assert(above.drop_last() =~= m.journal.skip(keep));
    assert(undo_frame(after.state, above.last()) == m.state);
    if m == base {
        assert(m.journal.skip(keep).len() == 0);
        assert(undo_frames(m.state, m.journal.skip(keep)) == base.state);
    }
    assert(undo_frames(after.state, above) == undo_frames(m.state, m.journal.skip(keep)));
}

pub proof fn lemma_commit_restorable(base: Model, m: Model)
    requires
        restorable(base, m),
        m.depth >= 1,
    ensures
        restorable(base, m.commit()),
{
}

pub proof fn lemma_revert_restorable(base: Model, m: Model, log_index: nat, journal_index: nat)
    requires
        restorable(base, m),
        m.can_revert(journal_index),
        base.journal.len() < journal_index,
        base.logs.len() <= log_index,
    ensures
        restorable(base, m.revert(log_index, journal_index)),
{
    let keep = base.journal.len() as int;
    let kept = base.logs.len() as int;
    let after = m.revert(log_index, journal_index);
    let cut = journal_index as int;
    lemma_revert_wf(m, log_index, journal_index);
    assert(after.journal.take(keep) =~= m.journal.take(keep));
    assert(after.logs.take(kept) =~= m.logs.take(kept));
    assert(after.journal.skip(keep) + m.journal.skip(cut) =~= m.journal.skip(keep));
    lemma_frames_concat(m.state, after.journal.skip(keep), m.journal.skip(cut));
}

pub proof fn lemma_step_restorable(base: Model, m: Model, s: Step, oracle: Oracle)
    requires
        base.wf(),
        restorable(base, m),
        step_reverts(base, m, s, oracle),
    ensures
        restorable(base, step(m, s, oracle)),
{
    match s {
        Step::Touch { address } => lemma_touch_restorable(base, m, address),
        Step::LoadAccount { address } => lemma_load_account_restorable(base, m, address, oracle),
        Step::LoadCode { address } => lemma_load_code_restorable(base, m, address, oracle),
        Step::IncNonce { address } => lemma_inc_nonce_restorable(base, m, address),
        Step::SetCode { address, code } => lemma_set_code_restorable(base, m, address, code),
        Step::Transfer { from, to, amount } => lemma_transfer_restorable(
            base,
            m,
            from,
            to,
            amount,
            oracle,
        ),
        Step::CreateAccount { address, is_precompile } => lemma_create_account_restorable(
            base,
            m,
            address,
            is_precompile,
            oracle,
        ),
        Step::SelfDestruct { address, target } => lemma_selfdestruct_restorable(
            base,
            m,
            address,
            target,
            oracle,
        ),
        Step::Sload { address, key } => lemma_sload_restorable(base, m, address, key, oracle),
        Step::Sstore { address, key, value } => lemma_sstore_restorable(
            base,
            m,
            address,
            key,
            value,
            oracle,
        ),
        Step::Log { log } => lemma_log_restorable(base, m, log),
        Step::Checkpoint => lemma_checkpoint_restorable(base, m),
        Step::Commit => lemma_commit_restorable(base, m),
        Step::Revert { log_index, journal_index } => lemma_revert_restorable(
            base,
            m,
            log_index,
            journal_index,
        ),
    }
}

pub proof fn lemma_run_restorable(base: Model, m: Model, steps: Seq<Step>, oracle: Oracle)
    requires
        base.wf(),
        restorable(base, m),
        run_reverts(base, m, steps, oracle),
    ensures
        restorable(base, run(m, steps, oracle)),
    decreases steps.len(),
{
    if steps.len() > 0 {
        lemma_run_restorable(base, m, steps.drop_last(), oracle);
        lemma_step_restorable(base, run(m, steps.drop_last(), oracle), steps.last(), oracle);
    }
}

/// Revert round-trip. Take a checkpoint in any well-formed state, run any
/// steps that a revert undoes, nested checkpoints, commits and reverts
/// among them, and revert to the checkpoint: the accounts, the logs and the
/// journal are those of before the checkpoint, and the depth too where the
/// run closed every checkpoint that it opened. The accounts loaded in
/// between are gone with the rest.
pub proof fn law_revert_round_trip(base: Model, steps: Seq<Step>, oracle: Oracle)
    requires
        base.wf(),
        run_reverts(base, base.checkpoint(), steps, oracle),
    ensures
        ({
            let end = run(base.checkpoint(), steps, oracle);
            let back = end.revert(base.logs.len(), base.journal.len());
            &&& back.state == base.state
            &&& back.logs == base.logs
            &&& back.journal == base.journal
            &&& end.depth == base.depth + 1 ==> back == base
            &&& end.can_revert(base.journal.len()) ==> back.wf()
        }),
{
    let start = base.checkpoint();
    lemma_checkpoint_restorable(base, base);
    lemma_run_restorable(base, start, steps, oracle);
    let end = run(start, steps, oracle);
    let back = end.revert(base.logs.len(), base.journal.len());
    assert(back.logs =~= base.logs);
    if end.can_revert(base.journal.len()) {
        lemma_revert_wf(end, base.logs.len(), base.journal.len());
    }
}

/// Nested atomicity. Inside a run from an outer checkpoint, a run from an
/// inner checkpoint that is reverted leaves the accounts, the logs and the
/// journal as they were at the inner checkpoint: the frames of the outer
/// run are not touched. A revert to the outer checkpoint then restores what
/// was before it.
pub proof fn law_nested_atomicity(base: Model, outer: Seq<Step>, inner: Seq<Step>, oracle: Oracle)
    requires
        base.wf(),
        run_reverts(base, base.checkpoint(), outer, oracle),
        run_reverts(
            run(base.checkpoint(), outer, oracle),
            run(base.checkpoint(), outer, oracle).checkpoint(),
            inner,
            oracle,
        ),
    ensures
        ({
            let middle = run(base.checkpoint(), outer, oracle);
            let end = run(middle.checkpoint(), inner, oracle);
            let inside = end.revert(middle.logs.len(), middle.journal.len());
            let outside = inside.revert(base.logs.len(), base.journal.len());
            &&& inside.state == middle.state
            &&& inside.logs == middle.logs
            &&& inside.journal == middle.journal
            &&& outside.state == base.state
            &&& outside.logs == base.logs
            &&& outside.journal == base.journal
        }),
{
    let start = base.checkpoint();
    lemma_checkpoint_restorable(base, base);
    lemma_run_restorable(base, start, outer, oracle);
    let middle = run(start, outer, oracle);
    let keep = base.journal.len() as int;
    law_revert_round_trip(middle, inner, oracle);
    let end = run(middle.checkpoint(), inner, oracle);
    let inside = end.revert(middle.logs.len(), middle.journal.len());
    let outside = inside.revert(base.logs.len(), base.journal.len());
    let same = middle.revert(base.logs.len(), base.journal.len());
    assert(outside.state == same.state);
    assert(outside.logs == same.logs);
    assert(outside.journal == same.journal);
    assert(same.logs =~= base.logs);
}

/// How many entries of a frame record a touch of `address`.
pub open spec fn touches(frame: Frame, address: Address) -> nat
    decreases frame.len(),
{
    if frame.len() == 0 {
        0
    } else {
        touches(frame.drop_last(), address) + if frame.last() == (EntryView::AccountTouched {
            address,
        }) {
            1nat
        } else {
            0nat
        }
    }
}

/// The state after `times` touches of `address`.
pub open spec fn touch_times(m: Model, address: Address, times: nat) -> Model
    decreases times,
{
    if times == 0 {
        m
    } else {
        touch_times(m, address, (times - 1) as nat).touch(address)
    }
}

/// Idempotent touch. Any number of touches of an account, one or more, do
/// what one touch does, and add at most one touch entry for the account to
/// the frame; no other frame changes.
pub proof fn law_touch_idempotent(m: Model, address: Address, times: nat)
    requires
        m.journal.len() >= 1,
    ensures
        times >= 1 ==> touch_times(m, address, times) == m.touch(address),
        touch_times(m, address, times).journal.len() == m.journal.len(),
        touch_times(m, address, times).journal.drop_last() == m.journal.drop_last(),
        touches(touch_times(m, address, times).journal.last(), address) <= touches(
            m.journal.last(),
            address,
        ) + 1,
    decreases times,
{
    let once = m.touch(address);
    if m.is_warm(address) && !m.state[address].is_touched {
        let top = m.journal.last();
        let entry = EntryView::AccountTouched { address };
        assert(once.journal.last() == top.push(entry));
        assert(top.push(entry).drop_last() =~= top);
        assert(once.journal.drop_last() =~= m.journal.drop_last());
    }
    assert(once.touch(address) == once);
    if times >= 1 {
        law_touch_idempotent(m, address, (times - 1) as nat);
    }
}

/// The state after storing `values`, one after the other, in the cell `key`
/// of `address`.
pub open spec fn store_all(
    m: Model,
    address: Address,
    key: U256,
    values: Seq<U256>,
    oracle: Oracle,
) -> Model
    decreases values.len(),
{
    if values.len() == 0 {
        m
    } else {
        store_all(m, address, key, values.drop_last(), oracle).sstore(
            address,
            key,
            values.last(),
            oracle,
        )
    }
}

/// Storage dual-value law. After any stores to a cell, one or more, the
/// present value of the cell is the value stored last, and its original
/// value is the one it had after its load: what the first `sload` returned,
/// where the stores loaded it, and what it was before, where it was loaded
/// already.
pub proof fn law_storage_dual_value(
    m: Model,
    address: Address,
    key: U256,
    values: Seq<U256>,
    oracle: Oracle,
)
    requires
        m.is_warm(address),
        values.len() >= 1,
    ensures
        ({
            let end = store_all(m, address, key, values, oracle);
            let slot = end.state[address].storage[key];
            &&& end.is_warm(address)
            &&& end.state[address].storage.contains_key(key)
            &&& slot.present_value == values.last()
            &&& slot.original_value == m.original_value(address, key, oracle)
            &&& m.is_cold_slot(address, key) ==> slot.original_value == m.storage_value(
                address,
                key,
                oracle,
            )
            &&& !m.is_cold_slot(address, key) ==> slot.original_value
                == m.state[address].storage[key].original_value
        }),
    decreases values.len(),
{
    let before = store_all(m, address, key, values.drop_last(), oracle);
    if values.len() >= 2 {
        law_storage_dual_value(m, address, key, values.drop_last(), oracle);
        assert(before.sload(address, key, oracle) == before);
    } else {
        assert(values.drop_last().len() == 0);
        assert(before == m);
    }
}

/// Transfer conservation. A transfer between two accounts that succeeds
/// takes the amount from the sender and gives it to the recipient: the sum
/// of the two balances is what it was when both were loaded.
pub proof fn law_transfer_conserves(
    m: Model,
    from: Address,
    to: Address,
    value: nat,
    oracle: Oracle,
)
    requires
        from != to,
        m.transfer_result(from, to, value, oracle) is Ok,
    ensures
        ({
            let before = m.load_account(from, oracle).load_account(to, oracle);
            let after = m.transfer(from, to, value, oracle);
            &&& before.is_warm(from) && before.is_warm(to)
            &&& after.is_warm(from) && after.is_warm(to)
            &&& after.state[from].info.balance + after.state[to].info.balance
                == before.state[from].info.balance + before.state[to].info.balance
            &&& after.state[to].info.balance - before.state[to].info.balance == value
            &&& before.state[from].info.balance - after.state[from].info.balance == value
        }),
{
}

/// Finalize purity. The accounts that `finalize` returns are the touched
/// ones, each as it was; finalizing a new engine that holds just these
/// returns them again.
pub proof fn law_finalize_purity(m: Model)
    ensures
        forall|address: Address|
            m.touched_accounts().contains_key(address) <==> m.state.contains_key(address)
                && m.state[address].is_touched,
        forall|address: Address|
            m.touched_accounts().contains_key(address) ==> m.touched_accounts()[address]
                == m.state[address],
        Model::from_accounts(m.touched_accounts()).touched_accounts() == m.touched_accounts(),
        Model::from_accounts(m.touched_accounts()).wf(),
{
    let kept = m.touched_accounts();
    assert(Model::from_accounts(kept).touched_accounts() =~= kept);
    lemma_blank_wf(Model::from_accounts(kept));
}

} // verus!
