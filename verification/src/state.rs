//! The accounts that a transaction has loaded, by address, in a hash map of
//! hashbrown.

use crate::account::{Account, AccountView};
use crate::primitives::Address;
use vstd::prelude::*;

verus! {

/// The loaded ("warm") accounts, by address.
#[verifier::external_body]
#[derive(Debug)]
pub struct State {
    map: hashbrown::HashMap<(u32, u128), Account>,
}

/// The accounts that a `State` holds, by address.
pub uninterp spec fn state_contents(state: State) -> Map<Address, Account>;

/// The mathematical view of a map of accounts: the same addresses, each with
/// the view of its account.
pub open spec fn accounts_view(accounts: Map<Address, Account>) -> Map<Address, AccountView> {
    Map::new(|address: Address| accounts.contains_key(address), |address: Address| accounts[address]@)
}

impl View for State {
    type V = Map<Address, AccountView>;

    open spec fn view(&self) -> Map<Address, AccountView> {
        accounts_view(state_contents(*self))
    }
}

/// `HashMap::new` of hashbrown: a map that holds nothing.
#[verifier::external_body]
fn state_new() -> (state: State)
    ensures
        state_contents(state) == (Map::<Address, Account>::empty()),
{
    State { map: hashbrown::HashMap::new() }
}

/// `HashMap::get` of hashbrown: the account under `address`, if the map holds one.
#[verifier::external_body]
fn state_get<'a>(state: &'a State, address: &Address) -> (found: Option<&'a Account>)
    ensures
        match found {
            Some(account) => state_contents(*state).contains_key(*address) && *account
                == state_contents(*state)[*address],
            None => !state_contents(*state).contains_key(*address),
        },
{
    state.map.get(&(address.hi, address.lo))
}

/// `HashMap::get_mut` of hashbrown: the account under `address`, if the map
/// holds one; what the caller leaves in it is what the map holds under
/// `address` afterwards, and nothing else in the map changes.
#[verifier::external_body]
fn state_get_mut<'a>(state: &'a mut State, address: &Address) -> (found: Option<&'a mut Account>)
    ensures
        match found {
            Some(account) => state_contents(*old(state)).contains_key(*address) && *account
                == state_contents(*old(state))[*address] && state_contents(*final(state))
                == state_contents(*old(state)).insert(*address, *final(account)),
            None => !state_contents(*old(state)).contains_key(*address) && state_contents(
                *final(state),
            ) == state_contents(*old(state)),
        },
{
    state.map.get_mut(&(address.hi, address.lo))
}

/// `HashMap::insert` of hashbrown: afterwards the map holds `account` under
/// `address`, and under every other address what it held before; the result
/// is what it held under `address` before, if anything.
#[verifier::external_body]
fn state_insert(state: &mut State, address: Address, account: Account) -> (previous: Option<Account>)
    ensures
        state_contents(*final(state)) == state_contents(*old(state)).insert(address, account),
        match previous {
            Some(before) => state_contents(*old(state)).contains_key(address) && before
                == state_contents(*old(state))[address],
            None => !state_contents(*old(state)).contains_key(address),
        },
{
    state.map.insert((address.hi, address.lo), account)
}

/// `HashMap::remove` of hashbrown: afterwards the map holds nothing under
/// `address`, and under every other address what it held before; the result
/// is what it held under `address` before, if anything.
#[verifier::external_body]
fn state_remove(state: &mut State, address: &Address) -> (removed: Option<Account>)
    ensures
        state_contents(*final(state)) == state_contents(*old(state)).remove(*address),
        match removed {
            Some(before) => state_contents(*old(state)).contains_key(*address) && before
                == state_contents(*old(state))[*address],
            None => !state_contents(*old(state)).contains_key(*address),
        },
{
    state.map.remove(&(address.hi, address.lo))
}

/// `HashMap::keys` of hashbrown, collected: every address of the map once,
/// in the order in which the map happens to be walked.
#[verifier::external_body]
fn state_keys(state: &State) -> (addresses: Vec<Address>)
    ensures
        addresses@.no_duplicates(),
        forall|address: Address|
            addresses@.contains(address) <==> state_contents(*state).contains_key(address),
{
    state.map.keys().map(|k| Address { hi: k.0, lo: k.1 }).collect()
}

/// The view of a map of accounts after an insertion.
pub proof fn lemma_accounts_view_insert(
    accounts: Map<Address, Account>,
    address: Address,
    account: Account,
)
    ensures
        accounts_view(accounts.insert(address, account)) == accounts_view(accounts).insert(
            address,
            account@,
        ),
{
    assert(accounts_view(accounts.insert(address, account)) =~= accounts_view(accounts).insert(
        address,
        account@,
    ));
}

/// The view of a map of accounts after a removal.
pub proof fn lemma_accounts_view_remove(accounts: Map<Address, Account>, address: Address)
    ensures
        accounts_view(accounts.remove(address)) == accounts_view(accounts).remove(address),
{
    assert(accounts_view(accounts.remove(address)) =~= accounts_view(accounts).remove(address));
}

impl State {
    /// The accounts as `Account` values, by address.
    pub open spec fn accounts(&self) -> Map<Address, Account> {
        state_contents(*self)
    }

    pub fn new() -> (state: State)
        ensures
            state.accounts() == (Map::<Address, Account>::empty()),
            state@ == (Map::<Address, AccountView>::empty()),
    {
        let state = state_new();
        assert(state@ =~= Map::<Address, AccountView>::empty());
        state
    }

    pub fn get(&self, address: &Address) -> (found: Option<&Account>)
        ensures
            match found {
                Some(account) => self.accounts().contains_key(*address) && *account
                    == self.accounts()[*address],
                None => !self.accounts().contains_key(*address),
            },
    {
        state_get(self, address)
    }

    pub fn get_mut(&mut self, address: &Address) -> (found: Option<&mut Account>)
        ensures
            match found {
                Some(account) => old(self).accounts().contains_key(*address) && *account == old(
                    self,
                ).accounts()[*address] && final(self).accounts() == old(self).accounts().insert(
                    *address,
                    *final(account),
                ),
                None => !old(self).accounts().contains_key(*address) && final(self).accounts()
                    == old(self).accounts(),
            },
    {
        state_get_mut(self, address)
    }

    pub fn contains_key(&self, address: &Address) -> (held: bool)
        ensures
            held == self.accounts().contains_key(*address),
            held == self@.contains_key(*address),
    {
        state_get(self, address).is_some()
    }

    pub fn insert(&mut self, address: Address, account: Account) -> (previous: Option<Account>)
        ensures
            final(self).accounts() == old(self).accounts().insert(address, account),
            final(self)@ == old(self)@.insert(address, account@),
            match previous {
                Some(before) => old(self).accounts().contains_key(address) && before == old(
                    self,
                ).accounts()[address],
                None => !old(self).accounts().contains_key(address),
            },
    {
        proof {
            lemma_accounts_view_insert(self.accounts(), address, account);
        }
        state_insert(self, address, account)
    }

    pub fn remove(&mut self, address: &Address) -> (removed: Option<Account>)
        ensures
            final(self).accounts() == old(self).accounts().remove(*address),
            final(self)@ == old(self)@.remove(*address),
            match removed {
                Some(before) => old(self).accounts().contains_key(*address) && before == old(
                    self,
                ).accounts()[*address],
                None => !old(self).accounts().contains_key(*address),
            },
    {
        proof {
            lemma_accounts_view_remove(self.accounts(), *address);
        }
        state_remove(self, address)
    }

    /// The addresses of the accounts held, each once, in no particular order.
    pub fn keys(&self) -> (addresses: Vec<Address>)
        ensures
            addresses@.no_duplicates(),
            forall|address: Address|
                addresses@.contains(address) <==> self.accounts().contains_key(address),
    {
        state_keys(self)
    }
}

} // verus!
