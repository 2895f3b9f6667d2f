//! The merge engine: changes to accounts and storage, folded per address.

use vstd::prelude::*;
use crate::account::{account_has_code, has_code, Account, AccountInfo, AccountStatus, StorageSlot};
use crate::assoc::{
    find_address, insert_word, keys_unique, lemma_map_of_at, lemma_map_of_dom,
    lemma_map_of_prepend, lemma_map_of_push, lemma_map_of_update, map_of,
};
use crate::primitives::{keccak_of, Address, U256};

verus! {

/// `after` is `mine` with `theirs` laid over it: its info, the union of the
/// flags, and its storage over that of `mine`, key by key.
pub open spec fn merged_account(mine: Account, theirs: Account, after: Account) -> bool {
    &&& after.wf()
    &&& after.info == theirs.info
    &&& after.status.is_touched_flag() == (mine.status.is_touched_flag()
        || theirs.status.is_touched_flag())
    &&& after.status.is_created_flag() == (mine.status.is_created_flag()
        || theirs.status.is_created_flag())
    &&& after.storage_map() == mine.storage_map().union_prefer_right(theirs.storage_map())
    &&& after.transaction_id == mine.transaction_id
}

/// `after` is `before` with the accounts of `d` applied as a later layer.
pub open spec fn diff_applied(
    before: Map<Address, Account>,
    d: Map<Address, Account>,
    after: Map<Address, Account>,
) -> bool {
    &&& after.dom() == before.dom().union(d.dom())
    &&& forall|a: Address|
        before.contains_key(a) && !d.contains_key(a) ==> #[trigger] after[a] == before[a]
    &&& forall|a: Address|
        !before.contains_key(a) && d.contains_key(a) ==> #[trigger] after[a] == d[a]
    &&& forall|a: Address|
        before.contains_key(a) && d.contains_key(a) ==> merged_account(
            before[a],
            d[a],
            #[trigger] after[a],
        )
}

/// A list of accounts keyed by address, each address once, each account's
/// storage keyed by slot index, each index once.
pub open spec fn entries_wf(s: Seq<(Address, Account)>) -> bool {
    keys_unique(s) && forall|i: int| 0 <= i < s.len() ==> (#[trigger] s[i]).1.wf()
}

/// `after` is `before` with `info` recorded for `address`.
pub open spec fn account_change_applied(
    before: Map<Address, Account>,
    address: Address,
    info: AccountInfo,
    after: Map<Address, Account>,
) -> bool {
    &&& after.dom() == before.dom().insert(address)
    &&& forall|a: Address|
        a != address && before.contains_key(a) ==> #[trigger] after[a] == before[a]
    &&& after[address].info == info
    &&& before.contains_key(address) ==> {
        let (was, now) = (before[address], after[address]);
        &&& now.storage == was.storage
        &&& now.transaction_id == was.transaction_id
        &&& now.status.is_touched_flag() == was.status.is_touched_flag()
        &&& now.status.is_created_flag() == (was.status.is_created_flag() || has_code(info))
    }
    &&& !before.contains_key(address) ==> {
        let now = after[address];
        &&& now.storage@.len() == 0
        &&& now.transaction_id == 0
        &&& now.status.is_touched_flag()
        &&& now.status.is_created_flag() == has_code(info)
    }
}

/// `after` is `before` with `slot` written at `index` of `address`; `info`
/// is the account to start from where `address` is new.
pub open spec fn storage_change_applied(
    before: Map<Address, Account>,
    address: Address,
    index: U256,
    slot: StorageSlot,
    info: Option<AccountInfo>,
    after: Map<Address, Account>,
) -> bool {
    &&& after.dom() == before.dom().insert(address)
    &&& forall|a: Address|
        a != address && before.contains_key(a) ==> #[trigger] after[a] == before[a]
    &&& before.contains_key(address) ==> {
        let (was, now) = (before[address], after[address]);
        &&& now.info == was.info
        &&& now.status == was.status
        &&& now.transaction_id == was.transaction_id
        &&& now.storage_map() == was.storage_map().insert(index, slot)
    }
    &&& !before.contains_key(address) ==> {
        let now = after[address];
        &&& match info {
            Some(i) => now.info == i,
            None => {
                &&& now.info.balance == U256::spec_zero()
                &&& now.info.nonce == 0
                &&& now.info.code_hash.0@ == keccak_of(Seq::empty())
                &&& now.info.code is None
            },
        }
        &&& now.storage_map() == map![index => slot]
        &&& now.transaction_id == 0
        &&& now.status.is_touched_flag()
        &&& now.status.is_created_flag()
    }
}

/// One change to one account.
pub enum Change {
    /// New info for the account.
    Account(AccountInfo),
    /// A write to one slot, with the info to start from where the account is new.
    Storage(U256, StorageSlot, Option<AccountInfo>),
}

/// `after` is `before` with change `c` made to `address`.
pub open spec fn change_applied(
    before: Map<Address, Account>,
    address: Address,
    c: Change,
    after: Map<Address, Account>,
) -> bool {
    match c {
        Change::Account(info) => account_change_applied(before, address, info, after),
        Change::Storage(index, slot, info) => storage_change_applied(
            before,
            address,
            index,
            slot,
            info,
            after,
        ),
    }
}

/// `states` are the diffs that a run of `changes` passes through, one change
/// after another, from the first state to the last.
pub open spec fn is_run(states: Seq<Map<Address, Account>>, changes: Seq<(Address, Change)>) -> bool {
    &&& states.len() == changes.len() + 1
    &&& forall|i: int|
        0 <= i < changes.len() ==> change_applied(
            states[i],
            (#[trigger] changes[i]).0,
            changes[i].1,
            states[i + 1],
        )
}

/// Along a run of account and storage changes, an address once recorded stays
/// recorded, and none of its flags is ever cleared.
pub proof fn lemma_flags_never_cleared(
    states: Seq<Map<Address, Account>>,
    changes: Seq<(Address, Change)>,
    a: Address,
    i: int,
    k: int,
)
    requires
        is_run(states, changes),
        0 <= i <= k < states.len(),
        states[i].contains_key(a),
    ensures
        states[k].contains_key(a),
        states[i][a].status.is_touched_flag() ==> states[k][a].status.is_touched_flag(),
        states[i][a].status.is_created_flag() ==> states[k][a].status.is_created_flag(),
    decreases k - i,
{
    if i < k {
        lemma_flags_never_cleared(states, changes, a, i, k - 1);
        assert(change_applied(states[k - 1], changes[k - 1].0, changes[k - 1].1, states[k]));
    }
}

/// Along any run of account and storage changes in which some account change
/// gives `a` code, `a` ends with the `Created` flag.
pub proof fn lemma_code_marks_created(
    states: Seq<Map<Address, Account>>,
    changes: Seq<(Address, Change)>,
    a: Address,
    j: int,
)
    requires
        is_run(states, changes),
        0 <= j < changes.len(),
        changes[j].0 == a,
        match changes[j].1 {
            Change::Account(info) => has_code(info),
            Change::Storage(_, _, _) => false,
        },
    ensures
        states.last().contains_key(a),
        states.last()[a].status.is_created_flag(),
{
    assert(change_applied(states[j], changes[j].0, changes[j].1, states[j + 1]));
    lemma_flags_never_cleared(states, changes, a, j + 1, states.len() - 1);
}

/// An account change without code and then one with code, on an address that
/// was not recorded, leave it `Touched` and `Created`.
pub proof fn lemma_code_after_balance(
    s0: Map<Address, Account>,
    s1: Map<Address, Account>,
    s2: Map<Address, Account>,
    a: Address,
    first: AccountInfo,
    second: AccountInfo,
)
    requires
        !s0.contains_key(a),
        account_change_applied(s0, a, first, s1),
        !has_code(first),
        account_change_applied(s1, a, second, s2),
        has_code(second),
    ensures
        s2[a].status.is_touched_flag(),
        s2[a].status.is_created_flag(),
{
}

/// After an account change with code, a later account change on the same
/// address, with or without code, keeps `Created`.
pub proof fn lemma_created_kept(
    s0: Map<Address, Account>,
    s1: Map<Address, Account>,
    s2: Map<Address, Account>,
    a: Address,
    first: AccountInfo,
    second: AccountInfo,
)
    requires
        account_change_applied(s0, a, first, s1),
        has_code(first),
        account_change_applied(s1, a, second, s2),
    ensures
        s2[a].status.is_created_flag(),
{
}

/// Lays the storage of `theirs` over that of `mine`, key by key.
fn merge_storage(mine: &mut Vec<(U256, StorageSlot)>, theirs: &Vec<(U256, StorageSlot)>)
    requires
        keys_unique(old(mine)@),
    ensures
        keys_unique(final(mine)@),
        map_of(final(mine)@) == map_of(old(mine)@).union_prefer_right(map_of(theirs@)),
{
    let ghost start = map_of(mine@);
    let mut i: usize = 0;
    while i < theirs.len()
        invariant
            i <= theirs@.len(),
            keys_unique(mine@),
            map_of(mine@) == start.union_prefer_right(map_of(theirs@.subrange(0, i as int))),
        decreases theirs@.len() - i,
    {
        let (k, v) = theirs[i];
        insert_word(mine, k, v);
        proof {
            let t = theirs@.subrange(0, i + 1);
            assert(t.drop_last() =~= theirs@.subrange(0, i as int));
            assert(map_of(mine@) =~= start.union_prefer_right(map_of(t)));
        }
        i = i + 1;
    }
    assert(theirs@.subrange(0, theirs@.len() as int) =~= theirs@);
}

/// Lays `theirs` over `mine`.
fn merge_account(mine: &mut Account, theirs: Account)
    requires
        old(mine).wf(),
        theirs.wf(),
    ensures
        merged_account(*old(mine), theirs, *final(mine)),
{
    let Account { info, storage, status, transaction_id: _ } = theirs;
    mine.info = info;
    mine.status.insert(status);
    merge_storage(&mut mine.storage, &storage);
}

/// The changes to a set of accounts, keyed by address.
#[derive(Debug)]
pub struct StateDiff {
    inner: Vec<(Address, Account)>,
}

impl View for StateDiff {
    type V = Map<Address, Account>;

    closed spec fn view(&self) -> Map<Address, Account> {
        map_of(self.inner@)
    }
}

impl Default for StateDiff {
    /// An empty diff.
    fn default() -> (r: StateDiff)
        ensures
            r.wf(),
            r@ == Map::<Address, Account>::empty(),
    {
        StateDiff::new()
    }
}

impl StateDiff {
    /// Addresses are unique, and so are slot indices within each account.
    pub closed spec fn wf(&self) -> bool {
        entries_wf(self.inner@)
    }

    /// Every account of a well-formed diff is well formed.
    pub proof fn lemma_accounts_wf(&self, a: Address)
        requires
            self.wf(),
            self@.contains_key(a),
        ensures
            self@[a].wf(),
    {
        lemma_map_of_dom(self.inner@, a);
        let i = choose|i: int| 0 <= i < self.inner@.len() && self.inner@[i].0 == a;
        lemma_map_of_at(self.inner@, i);
    }

    /// An empty diff.
    pub fn new() -> (r: StateDiff)
        ensures
            r.wf(),
            r@ == Map::<Address, Account>::empty(),
    {
        StateDiff { inner: Vec::new() }
    }

    /// Records new info for `address`. A new address is `Touched`, and
    /// `Created` too when the info holds code. A known address takes the new
    /// info, keeps its storage and flags, and gains `Created` when the info
    /// holds code.
    pub fn apply_account_change(&mut self, address: Address, account_info: AccountInfo)
        requires
            old(self).wf(),
        ensures
            final(self).wf(),
            account_change_applied(old(self)@, address, account_info, final(self)@),
    {
        let new_account_has_code = account_has_code(&account_info);
        let ghost before = self.inner@;
        match find_address(&self.inner, &address) {
            Some(i) => {
                proof {
                    lemma_map_of_at(before, i as int);
                }
                if new_account_has_code {
                    self.inner[i].1.status.insert(AccountStatus::created());
                }
                self.inner[i].1.info = account_info;
                proof {
                    assert(self.inner@ =~= before.update(i as int, (address, self.inner@[i as int].1)));
                    lemma_map_of_update(before, i as int, self.inner@[i as int].1);
                    assert(entries_wf(self.inner@));
                }
            },
            None => {
                let status = if new_account_has_code {
                    AccountStatus::created().union(AccountStatus::touched())
                } else {
                    AccountStatus::touched()
                };
                let account = Account {
                    info: account_info,
                    storage: Vec::new(),
                    status,
                    transaction_id: 0,
                };
                proof {
                    lemma_map_of_dom(before, address);
                    lemma_map_of_push(before, address, account);
                }
                self.inner.push((address, account));
                proof {
                    assert(entries_wf(self.inner@));
                }
            },
        }
    }

    /// Records a write of `slot` at `index` of `address`. A known address only
    /// has that slot set. A new address gets `account_info`, or zero balance
    /// and nonce and no code where none is given, that one slot, and the flags
    /// `Touched` and `Created`.
    pub fn apply_storage_change(
        &mut self,
        address: Address,
        index: U256,
        slot: StorageSlot,
        account_info: Option<AccountInfo>,
    )
        requires
            old(self).wf(),
        ensures
            final(self).wf(),
            storage_change_applied(old(self)@, address, index, slot, account_info, final(self)@),
    {
        let ghost before = self.inner@;
        match find_address(&self.inner, &address) {
            Some(i) => {
                proof {
                    lemma_map_of_at(before, i as int);
                }
                insert_word(&mut self.inner[i].1.storage, index, slot);
                proof {
                    assert(self.inner@ =~= before.update(i as int, (address, self.inner@[i as int].1)));
                    lemma_map_of_update(before, i as int, self.inner@[i as int].1);
                    assert(entries_wf(self.inner@));
                }
            },
            None => {
                let info = match account_info {
                    Some(info) => info,
                    None => AccountInfo::default(),
                };
                let mut storage: Vec<(U256, StorageSlot)> = Vec::new();
                storage.push((index, slot));
                proof {
                    assert(storage@.drop_last() =~= Seq::<(U256, StorageSlot)>::empty());
                    assert(map_of(Seq::<(U256, StorageSlot)>::empty()) == Map::<U256, StorageSlot>::empty());
                    assert(map_of(storage@) =~= map![index => slot]);
                }
                let account = Account {
                    info,
                    storage,
                    status: AccountStatus::created().union(AccountStatus::touched()),
                    transaction_id: 0,
                };
                proof {
                    lemma_map_of_dom(before, address);
                    lemma_map_of_push(before, address, account);
                }
                self.inner.push((address, account));
                proof {
                    assert(entries_wf(self.inner@));
                }
            },
        }
    }

    /// Applies the accounts of `diff` as a later layer over this one.
    pub fn apply_diff(&mut self, diff: Vec<(Address, Account)>)
        requires
            old(self).wf(),
            entries_wf(diff@),
        ensures
            final(self).wf(),
            diff_applied(old(self)@, map_of(diff@), final(self)@),
    {
        let ghost start = self@;
        let ghost all = diff@;
        let mut diff = diff;
        assert(all.subrange(all.len() as int, all.len() as int) =~= Seq::<(Address, Account)>::empty());
        assert(map_of(Seq::<(Address, Account)>::empty()) == Map::<Address, Account>::empty());
        assert(start.dom().union(Map::<Address, Account>::empty().dom()) =~= start.dom());
        while diff.len() > 0
            invariant
                self.wf(),
                entries_wf(all),
                diff@.len() <= all.len(),
                diff@ == all.subrange(0, diff@.len() as int),
                diff_applied(start, map_of(all.subrange(diff@.len() as int, all.len() as int)), self@),
            decreases diff@.len(),
        {
            let ghost k = diff@.len() - 1;
            let ghost done = all.subrange(k + 1, all.len() as int);
            let ghost now = all.subrange(k, all.len() as int);
            let (address, account_diff) = diff.pop().unwrap();
            proof {
                assert(diff@ =~= all.subrange(0, k));
                assert(all[k] == (address, account_diff));
                assert(account_diff.wf());
                assert(keys_unique(now));
                assert(now.drop_first() =~= done);
                lemma_map_of_prepend(now);
                lemma_map_of_dom(done, address);
            }
            let ghost before = self.inner@;
            let ghost mid = self@;
            match find_address(&self.inner, &address) {
                Some(i) => {
                    proof {
                        lemma_map_of_at(before, i as int);
                    }
                    merge_account(&mut self.inner[i].1, account_diff);
                    proof {
                        assert(self.inner@ =~= before.update(i as int, (address, self.inner@[i as int].1)));
                        lemma_map_of_update(before, i as int, self.inner@[i as int].1);
                        assert(entries_wf(self.inner@));
                        assert(self@ == mid.insert(address, self.inner@[i as int].1));
                        assert(self@.dom() =~= start.dom().union(map_of(now).dom()));
                    }
                },
                None => {
                    proof {
                        lemma_map_of_dom(before, address);
                        lemma_map_of_push(before, address, account_diff);
                    }
                    self.inner.push((address, account_diff));
                    proof {
                        assert(entries_wf(self.inner@));
                        assert(self@ == mid.insert(address, account_diff));
                        assert(self@.dom() =~= start.dom().union(map_of(now).dom()));
                    }
                },
            }
        }
        assert(all.subrange(0, all.len() as int) =~= all);
    }

    /// A diff holding the accounts of `inner`.
    pub fn from_entries(inner: Vec<(Address, Account)>) -> (r: StateDiff)
        requires
            entries_wf(inner@),
        ensures
            r.wf(),
            r@ == map_of(inner@),
    {
        StateDiff { inner }
    }

    /// The accounts, keyed by address, handed over.
    pub fn into_inner(self) -> (r: Vec<(Address, Account)>)
        requires
            self.wf(),
        ensures
            entries_wf(r@),
            map_of(r@) == self@,
    {
        self.inner
    }

    /// The accounts, keyed by address.
    pub fn as_inner(&self) -> (r: &Vec<(Address, Account)>)
        requires
            self.wf(),
        ensures
            entries_wf(r@),
            map_of(r@) == self@,
    {
        &self.inner
    }

    /// The account recorded for `address`, if any.
    pub fn get(&self, address: &Address) -> (r: Option<&Account>)
        requires
            self.wf(),
        ensures
            match r {
                Some(acc) => self@.contains_key(*address) && *acc == self@[*address],
                None => !self@.contains_key(*address),
            },
    {
        match find_address(&self.inner, address) {
            Some(i) => {
                proof {
                    lemma_map_of_at(self.inner@, i as int);
                }
                Some(&self.inner[i].1)
            },
            None => {
                proof {
                    lemma_map_of_dom(self.inner@, *address);
                }
                None
            },
        }
    }
}

} // verus!
