//! The snapshot form of a whole state: for each address its balance, nonce,
//! code and storage values, without status flags.

use vstd::prelude::*;
use crate::account::{code_bytes, has_code, Account, AccountInfo, StorageSlot};
use crate::assoc::{
    insert_address, keys_unique, lemma_map_of_at, lemma_map_of_dom, lemma_map_of_related,
    map_of,
};
use crate::diff::{entries_wf, StateDiff};
use crate::primitives::{copy_bytes, keccak_of, Address, U256};

verus! {

/// One account of a snapshot.
#[derive(Debug)]
pub struct StateAccount {
    pub balance: U256,
    /// Empty where the account holds no code.
    pub code: Vec<u8>,
    pub nonce: U256,
    /// Slot index and value, each index once.
    pub storage: Vec<(U256, U256)>,
}

impl StateAccount {
    /// No slot index occurs twice.
    pub open spec fn wf(self) -> bool {
        keys_unique(self.storage@)
    }

    /// The storage as a map from slot index to value.
    pub open spec fn storage_map(self) -> Map<U256, U256> {
        map_of(self.storage@)
    }
}

/// A snapshot of all accounts, keyed by address.
#[derive(Debug)]
pub struct StateDump {
    /// Address and account, each address once.
    pub accounts: Vec<(Address, StateAccount)>,
}

/// The present values of a storage.
pub open spec fn present_values(m: Map<U256, StorageSlot>) -> Map<U256, U256> {
    m.map_values(|s: StorageSlot| s.present_value)
}

/// Slots that have not changed, holding the values of `m`.
pub open spec fn unchanged_slots(m: Map<U256, U256>) -> Map<U256, StorageSlot> {
    m.map_values(|v: U256| StorageSlot { original_value: v, present_value: v })
}

/// `sa` holds the resolved values of `acc`.
pub open spec fn dumped_account(acc: Account, sa: StateAccount) -> bool {
    &&& sa.wf()
    &&& sa.balance == acc.info.balance
    &&& sa.nonce == U256::spec_from_u64(acc.info.nonce)
    &&& sa.code@ == code_bytes(acc.info)
    &&& sa.storage_map() == present_values(acc.storage_map())
}

/// `dump` holds the resolved values of every account of `d`, and no other.
pub open spec fn is_dump_of(d: Map<Address, Account>, dump: Map<Address, StateAccount>) -> bool {
    &&& dump.dom() == d.dom()
    &&& forall|a: Address| #[trigger] d.contains_key(a) ==> dumped_account(d[a], dump[a])
}

/// Every nonce of `dump` fits in 64 bits.
pub open spec fn nonces_fit(dump: Map<Address, StateAccount>) -> bool {
    forall|a: Address| #[trigger] dump.contains_key(a) ==> dump[a].nonce.fits_u64()
}

/// `acc` is what loading `sa` records: its values, the code hash of its
/// code, unchanged slots, `Touched`, and `Created` exactly where it holds code.
pub open spec fn loaded_account(sa: StateAccount, acc: Account) -> bool {
    &&& acc.wf()
    &&& acc.info.balance == sa.balance
    &&& sa.nonce == U256::spec_from_u64(acc.info.nonce)
    &&& code_bytes(acc.info) == sa.code@
    &&& acc.info.code_hash.0@ == keccak_of(sa.code@)
    &&& acc.storage_map() == unchanged_slots(sa.storage_map())
    &&& acc.status.is_touched_flag()
    &&& acc.status.is_created_flag() == has_code(acc.info)
}

/// `d` is what loading `dump` records.
pub open spec fn is_load_of(dump: Map<Address, StateAccount>, d: Map<Address, Account>) -> bool {
    &&& d.dom() == dump.dom()
    &&& forall|a: Address| #[trigger] dump.contains_key(a) ==> loaded_account(dump[a], d[a])
}

/// Dumping a diff and loading the dump back gives, for every address, the
/// same balance, nonce, code and present storage values; the load succeeds,
/// since every dumped nonce fits in 64 bits; and each reloaded account is
/// `Created` exactly where its code hash marks it as holding code.
pub proof fn lemma_dump_load_round_trip(
    d: Map<Address, Account>,
    dump: Map<Address, StateAccount>,
    back: Map<Address, Account>,
)
    requires
        is_dump_of(d, dump),
    ensures
        nonces_fit(dump),
        is_load_of(dump, back) ==> {
            &&& back.dom() == d.dom()
            &&& forall|a: Address| #[trigger]
                d.contains_key(a) ==> {
                    &&& back[a].info.balance == d[a].info.balance
                    &&& back[a].info.nonce == d[a].info.nonce
                    &&& code_bytes(back[a].info) == code_bytes(d[a].info)
                    &&& present_values(back[a].storage_map()) == present_values(
                        d[a].storage_map(),
                    )
                    &&& back[a].status.is_created_flag() == has_code(back[a].info)
                }
        },
{
    assert forall|a: Address| #[trigger] dump.contains_key(a) implies dump[a].nonce.fits_u64() by {
        U256::lemma_from_u64(d[a].info.nonce);
    }
    if is_load_of(dump, back) {
        assert forall|a: Address| #[trigger] d.contains_key(a) implies {
            &&& back[a].info.balance == d[a].info.balance
            &&& back[a].info.nonce == d[a].info.nonce
            &&& code_bytes(back[a].info) == code_bytes(d[a].info)
            &&& present_values(back[a].storage_map()) == present_values(d[a].storage_map())
            &&& back[a].status.is_created_flag() == has_code(back[a].info)
        } by {
            assert(dump.contains_key(a));
            U256::lemma_from_u64(d[a].info.nonce);
            U256::lemma_from_u64(back[a].info.nonce);
            assert(present_values(unchanged_slots(dump[a].storage_map())) =~= dump[a].storage_map());
        }
    }
}

/// Why a snapshot could not be loaded.
#[derive(Debug)]
pub enum LoadStateError {
    /// The nonce of the account at this address does not fit in 64 bits.
    NonceTooLarge(Address),
}

/// The snapshot of one account.
fn dump_account(acc: &Account) -> (r: StateAccount)
    requires
        acc.wf(),
    ensures
        dumped_account(*acc, r),
{
    let code = match &acc.info.code {
        Some(c) => copy_bytes(c),
        None => Vec::new(),
    };
    let mut storage: Vec<(U256, U256)> = Vec::new();
    let mut i: usize = 0;
    while i < acc.storage.len()
        invariant
            i <= acc.storage@.len(),
            storage@.len() == i,
            forall|j: int|
                0 <= j < i ==> (#[trigger] storage@[j]).0 == acc.storage@[j].0 && storage@[j].1
                    == acc.storage@[j].1.present_value,
        decreases acc.storage@.len() - i,
    {
        let (k, slot) = acc.storage[i];
        storage.push((k, slot.present_value));
        i = i + 1;
    }
    let ghost rel = |s: StorageSlot, v: U256| v == s.present_value;
    proof {
        lemma_map_of_related(acc.storage@, storage@, rel);
        assert(map_of(storage@) =~= present_values(acc.storage_map()));
    }
    let r = StateAccount {
        balance: acc.info.balance,
        code,
        nonce: U256::from_u64(acc.info.nonce),
        storage,
    };
    r
}

impl StateDump {
    /// Addresses are unique, and so are slot indices within each account.
    pub open spec fn wf(self) -> bool {
        &&& keys_unique(self.accounts@)
        &&& forall|a: Address| #[trigger] self.accounts_map().contains_key(a) ==> self.accounts_map()[a].wf()
    }

    /// The accounts as a map from address.
    pub open spec fn accounts_map(self) -> Map<Address, StateAccount> {
        map_of(self.accounts@)
    }

    /// An empty snapshot.
    pub fn new() -> (r: StateDump)
        ensures
            r.wf(),
            r.accounts_map() == Map::<Address, StateAccount>::empty(),
    {
        let r = StateDump { accounts: Vec::new() };
        assert(r.accounts_map() == Map::<Address, StateAccount>::empty());
        r
    }

    /// Sets the account of `address`, replacing any earlier one.
    pub fn add_account(&mut self, address: Address, account: StateAccount)
        requires
            old(self).wf(),
            account.wf(),
        ensures
            final(self).wf(),
            final(self).accounts_map() == old(self).accounts_map().insert(address, account),
    {
        let ghost before = self.accounts_map();
        insert_address(&mut self.accounts, address, account);
        assert forall|a: Address| #[trigger] self.accounts_map().contains_key(a) implies self.accounts_map()[a].wf() by {
            if a != address {
                assert(before.contains_key(a));
            }
        }
    }
}

impl StateDump {
    /// The snapshot of every account of `diff`: its balance, nonce, code and
    /// present storage values.
    pub fn from_state_diff(diff: &StateDiff) -> (r: StateDump)
        requires
            diff.wf(),
        ensures
            r.wf(),
            is_dump_of(diff@, r.accounts_map()),
    {
        let entries = diff.as_inner();
        let mut accounts: Vec<(Address, StateAccount)> = Vec::new();
        let mut i: usize = 0;
        while i < entries.len()
            invariant
                entries_wf(entries@),
                i <= entries@.len(),
                accounts@.len() == i,
                forall|j: int|
                    0 <= j < i ==> (#[trigger] accounts@[j]).0 == entries@[j].0 && dumped_account(
                        entries@[j].1,
                        accounts@[j].1,
                    ),
            decreases entries@.len() - i,
        {
            assert(entries@[i as int].1.wf());
            let sa = dump_account(&entries[i].1);
            accounts.push((entries[i].0, sa));
            i = i + 1;
        }
        let ghost rel = |acc: Account, sa: StateAccount| dumped_account(acc, sa);
        proof {
            lemma_map_of_related(entries@, accounts@, rel);
        }
        StateDump { accounts }
    }

    /// Loads the snapshot into a fresh diff: each account's info first, its
    /// code hash computed from its code, then each of its slots. Fails, naming
    /// an account, exactly when some nonce does not fit in 64 bits.
    pub fn to_state_diff(&self) -> (r: Result<StateDiff, LoadStateError>)
        requires
            self.wf(),
        ensures
            match r {
                Ok(d) => {
                    &&& nonces_fit(self.accounts_map())
                    &&& d.wf()
                    &&& is_load_of(self.accounts_map(), d@)
                },
                Err(LoadStateError::NonceTooLarge(a)) => {
                    &&& self.accounts_map().contains_key(a)
                    &&& !self.accounts_map()[a].nonce.fits_u64()
                },
            },
    {
        let mut diff = StateDiff::new();
        let ghost all = self.accounts@;
        assert(all.subrange(0, 0) =~= Seq::<(Address, StateAccount)>::empty());
        assert(diff@.dom() =~= map_of(all.subrange(0, 0)).dom());
        let mut i: usize = 0;
        while i < self.accounts.len()
            invariant
                self.wf(),
                all == self.accounts@,
                i <= all.len(),
                diff.wf(),
                is_load_of(map_of(all.subrange(0, i as int)), diff@),
                forall|j: int| 0 <= j < i ==> (#[trigger] all[j]).1.nonce.fits_u64(),
            decreases all.len() - i,
        {
            let address = self.accounts[i].0;
            let sa = &self.accounts[i].1;
            let ghost prefix = all.subrange(0, i as int);
            proof {
                lemma_map_of_at(all, i as int);
                lemma_map_of_dom(prefix, address);
                if map_of(prefix).contains_key(address) {
                    let j = choose|j: int| 0 <= j < prefix.len() && prefix[j].0 == address;
                    assert(all[j].0 == all[i as int].0);
                }
            }
            let nonce = match sa.nonce.to_u64() {
                Some(n) => n,
                None => {
                    return Err(LoadStateError::NonceTooLarge(address));
                },
            };
            let info = AccountInfo::new(sa.balance, nonce, copy_bytes(&sa.code));
            diff.apply_account_change(address, info);
            let ghost mid = diff@;
            assert(mid[address].storage@ =~= Seq::<(U256, StorageSlot)>::empty());
            assert(sa.storage@.subrange(0, 0) =~= Seq::<(U256, U256)>::empty());
            assert(map_of(Seq::<(U256, StorageSlot)>::empty()) == Map::<U256, StorageSlot>::empty());
            assert(map_of(Seq::<(U256, U256)>::empty()) == Map::<U256, U256>::empty());
            assert(unchanged_slots(Map::<U256, U256>::empty()) =~= Map::<U256, StorageSlot>::empty());
            let mut k: usize = 0;
            while k < sa.storage.len()
                invariant
                    diff.wf(),
                    k <= sa.storage@.len(),
                    mid.contains_key(address),
                    diff@.dom() == mid.dom(),
                    forall|a: Address|
                        a != address && mid.contains_key(a) ==> #[trigger] diff@[a] == mid[a],
                    diff@[address].info == mid[address].info,
                    diff@[address].status == mid[address].status,
                    diff@[address].storage_map() == unchanged_slots(
                        map_of(sa.storage@.subrange(0, k as int)),
                    ),
                decreases sa.storage@.len() - k,
            {
                let (key, value) = sa.storage[k];
                diff.apply_storage_change(address, key, StorageSlot::new(value), None);
                proof {
                    let t = sa.storage@.subrange(0, k + 1);
                    assert(t.drop_last() =~= sa.storage@.subrange(0, k as int));
                    assert(diff@[address].storage_map() =~= unchanged_slots(map_of(t)));
                    assert(diff@.dom() =~= mid.dom());
                }
                k = k + 1;
            }
            proof {
                assert(sa.storage@.subrange(0, sa.storage@.len() as int) =~= sa.storage@);
                diff.lemma_accounts_wf(address);
                let next = all.subrange(0, i + 1);
                assert(next.drop_last() =~= prefix);
                assert(map_of(next) == map_of(prefix).insert(address, *sa));
                assert(sa.nonce.0 =~= U256::spec_from_u64(nonce).0);
                assert(loaded_account(*sa, diff@[address]));
                assert(diff@.dom() =~= map_of(next).dom());
                assert forall|a: Address| #[trigger] map_of(next).contains_key(a) implies loaded_account(
                    map_of(next)[a],
                    diff@[a],
                ) by {
                    if a != address {
                        assert(map_of(prefix).contains_key(a));
                    }
                }
            }
            i = i + 1;
        }
        assert(all.subrange(0, all.len() as int) =~= all);
        proof {
            assert forall|a: Address| #[trigger] self.accounts_map().contains_key(a) implies self.accounts_map()[a].nonce.fits_u64() by {
                lemma_map_of_dom(all, a);
                let j = choose|j: int| 0 <= j < all.len() && all[j].0 == a;
                lemma_map_of_at(all, j);
            }
        }
        Ok(diff)
    }
}

} // verus!
