//! The requests that change or snapshot a state store: each hands its
//! arguments to the store and answers `true` where the store succeeds.

use vstd::prelude::*;
use crate::dump::StateDump;
use crate::primitives::{Address, U256};

verus! {

/// A store of account state that the requests act on. Each method reports
/// the store's own error, of its own type.
pub trait StateStore {
    type Error;

    fn set_balance(&mut self, address: Address, balance: U256) -> Result<(), Self::Error>;

    fn set_code(&mut self, address: Address, code: Vec<u8>) -> Result<(), Self::Error>;

    fn set_nonce(&mut self, address: Address, nonce: u64) -> Result<(), Self::Error>;

    fn set_account_storage_slot(&mut self, address: Address, index: U256, value: U256) -> Result<
        (),
        Self::Error,
    >;

    fn dump_state(&mut self) -> Result<StateDump, Self::Error>;

    fn load_state(&mut self, state_dump: StateDump) -> Result<(), Self::Error>;
}

/// The answer to a request whose store call gave `res`: `true` on success,
/// the store's error unchanged otherwise.
pub fn success_flag<E>(res: Result<(), E>) -> (r: Result<bool, E>)
    ensures
        match res {
            Ok(_) => r == Ok::<bool, E>(true),
            Err(e) => r == Err::<bool, E>(e),
        },
{
    match res {
        Ok(_) => Ok(true),
        Err(e) => Err(e),
    }
}

/// Sets the balance of `address` in the store.
pub fn handle_set_balance<S: StateStore>(data: &mut S, address: Address, balance: U256) -> (r:
    Result<bool, S::Error>)
    ensures
        r matches Ok(b) ==> b,
{
    success_flag(data.set_balance(address, balance))
}

/// Sets the code of `address` in the store.
pub fn handle_set_code<S: StateStore>(data: &mut S, address: Address, code: Vec<u8>) -> (r:
    Result<bool, S::Error>)
    ensures
        r matches Ok(b) ==> b,
{
    success_flag(data.set_code(address, code))
}

/// Sets the nonce of `address` in the store.
pub fn handle_set_nonce<S: StateStore>(data: &mut S, address: Address, nonce: u64) -> (r: Result<
    bool,
    S::Error,
>)
    ensures
        r matches Ok(b) ==> b,
{
    success_flag(data.set_nonce(address, nonce))
}

/// Sets the slot `index` of `address` to `value` in the store.
pub fn handle_set_storage_at<S: StateStore>(
    data: &mut S,
    address: Address,
    index: U256,
    value: U256,
) -> (r: Result<bool, S::Error>)
    ensures
        r matches Ok(b) ==> b,
{
    success_flag(data.set_account_storage_slot(address, index, value))
}

/// The store's snapshot of all its accounts.
pub fn handle_dump_state<S: StateStore>(data: &mut S) -> (r: Result<StateDump, S::Error>) {
    data.dump_state()
}

/// Has the store take in every account of `state_dump`.
pub fn handle_load_state<S: StateStore>(data: &mut S, state_dump: StateDump) -> (r: Result<
    bool,
    S::Error,
>)
    ensures
        r matches Ok(b) ==> b,
{
    success_flag(data.load_state(state_dump))
}

} // verus!
