//! Accounts as a state change records them: info, storage and status.

use vstd::prelude::*;
use crate::assoc::{keys_unique, map_of};
use crate::primitives::{empty_code_hash, keccak, keccak_of, lemma_b256_eq, B256, U256};

verus! {

/// Balance, nonce and code of an account.
#[derive(Debug)]
pub struct AccountInfo {
    pub balance: U256,
    pub nonce: u64,
    pub code_hash: B256,
    pub code: Option<Vec<u8>>,
}

/// Whether `info` holds code: its code hash is not the hash of no bytes.
pub open spec fn has_code(info: AccountInfo) -> bool {
    info.code_hash.0@ != keccak_of(Seq::empty())
}

/// The code bytes of `info`, empty where it carries none.
pub open spec fn code_bytes(info: AccountInfo) -> Seq<u8> {
    match info.code {
        Some(c) => c@,
        None => Seq::empty(),
    }
}

impl AccountInfo {
    /// An account with the given balance, nonce and code, whose code hash is
    /// computed from the code; empty code is stored as none.
    pub fn new(balance: U256, nonce: u64, code: Vec<u8>) -> (r: AccountInfo)
        ensures
            r.balance == balance,
            r.nonce == nonce,
            r.code_hash.0@ == keccak_of(code@),
            code_bytes(r) == code@,
            r.code is Some <==> code@.len() > 0,
    {
        let code_hash = keccak(&code);
        if code.len() == 0 {
            AccountInfo { balance, nonce, code_hash, code: None }
        } else {
            AccountInfo { balance, nonce, code_hash, code: Some(code) }
        }
    }
}

impl Default for AccountInfo {
    /// Zero balance and nonce, no code.
    fn default() -> (r: AccountInfo)
        ensures
            r.balance == U256::spec_zero(),
            r.nonce == 0,
            r.code_hash.0@ == keccak_of(Seq::empty()),
            r.code is None,
    {
        AccountInfo { balance: U256::zero(), nonce: 0, code_hash: empty_code_hash(), code: None }
    }
}

/// Whether `info` holds code, by its code hash.
pub fn account_has_code(info: &AccountInfo) -> (r: bool)
    ensures
        r == has_code(*info),
{
    let empty = empty_code_hash();
    proof {
        lemma_b256_eq(info.code_hash, empty);
    }
    !(info.code_hash == empty)
}

/// A storage cell: its value now, and its value before the current change.
#[derive(Clone, Copy, Debug)]
pub struct StorageSlot {
    pub original_value: U256,
    pub present_value: U256,
}

impl StorageSlot {
    /// A slot that has not changed: both values are `value`.
    pub fn new(value: U256) -> (r: StorageSlot)
        ensures
            r.original_value == value,
            r.present_value == value,
    {
        StorageSlot { original_value: value, present_value: value }
    }
}

/// The set of status flags of an account. Flags can be added, never cleared.
#[derive(Clone, Copy, Debug, PartialEq, Eq, Structural)]
pub struct AccountStatus {
    touched: bool,
    created: bool,
}

impl AccountStatus {
    /// The account was read or written.
    pub closed spec fn is_touched_flag(self) -> bool {
        self.touched
    }

    /// The account is believed to hold newly placed code, or was first written
    /// through its storage.
    pub closed spec fn is_created_flag(self) -> bool {
        self.created
    }

    /// No flag.
    pub fn empty() -> (r: AccountStatus)
        ensures
            !r.is_touched_flag(),
            !r.is_created_flag(),
    {
        AccountStatus { touched: false, created: false }
    }

    /// The `Touched` flag alone.
    pub fn touched() -> (r: AccountStatus)
        ensures
            r.is_touched_flag(),
            !r.is_created_flag(),
    {
        AccountStatus { touched: true, created: false }
    }

    /// The `Created` flag alone.
    pub fn created() -> (r: AccountStatus)
        ensures
            !r.is_touched_flag(),
            r.is_created_flag(),
    {
        AccountStatus { touched: false, created: true }
    }

    /// The flags of both.
    pub fn union(self, o: AccountStatus) -> (r: AccountStatus)
        ensures
            r.is_touched_flag() == (self.is_touched_flag() || o.is_touched_flag()),
            r.is_created_flag() == (self.is_created_flag() || o.is_created_flag()),
    {
        AccountStatus { touched: self.touched || o.touched, created: self.created || o.created }
    }

    /// Adds the flags of `o`.
    pub fn insert(&mut self, o: AccountStatus)
        ensures
            final(self).is_touched_flag() == (old(self).is_touched_flag() || o.is_touched_flag()),
            final(self).is_created_flag() == (old(self).is_created_flag() || o.is_created_flag()),
    {
        self.touched = self.touched || o.touched;
        self.created = self.created || o.created;
    }

    /// Whether every flag of `o` is in `self`.
    pub fn contains(&self, o: AccountStatus) -> (r: bool)
        ensures
            r == ((o.is_touched_flag() ==> self.is_touched_flag()) && (o.is_created_flag()
                ==> self.is_created_flag())),
    {
        (!o.touched || self.touched) && (!o.created || self.created)
    }

    pub fn is_touched(&self) -> (r: bool)
        ensures
            r == self.is_touched_flag(),
    {
        self.touched
    }

    pub fn is_created(&self) -> (r: bool)
        ensures
            r == self.is_created_flag(),
    {
        self.created
    }
}

/// An account as a state change holds it.
#[derive(Debug)]
pub struct Account {
    pub info: AccountInfo,
    /// Slot index and slot, each index once.
    pub storage: Vec<(U256, StorageSlot)>,
    pub status: AccountStatus,
    /// The transaction that last changed the account; not set by this crate.
    pub transaction_id: usize,
}

impl Account {
    /// No slot index occurs twice in the storage.
    pub open spec fn wf(self) -> bool {
        keys_unique(self.storage@)
    }

    /// The storage as a map from slot index to slot.
    pub open spec fn storage_map(self) -> Map<U256, StorageSlot> {
        map_of(self.storage@)
    }
}

} // verus!
