use edr_state_diff::account::{Account, AccountInfo, AccountStatus, StorageSlot};
use edr_state_diff::diff::StateDiff;
use edr_state_diff::primitives::{Address, B256, U256};

fn sample_address(seed: u8) -> Address {
    let mut bytes = [0u8; 20];
    for (i, b) in bytes.iter_mut().enumerate() {
        *b = seed.wrapping_add(i as u8);
    }
    Address(bytes)
}

fn keccak_empty() -> B256 {
    B256(alloy_primitives::KECCAK256_EMPTY.0)
}

/// An account info without code, like an externally owned account.
fn account_info_without_code(balance: U256, nonce: u64) -> AccountInfo {
    AccountInfo { balance, nonce, code_hash: keccak_empty(), code: None }
}

/// An account info with code, like a contract.
fn account_info_with_code(balance: U256, nonce: u64, code: Vec<u8>) -> AccountInfo {
    AccountInfo::new(balance, nonce, code)
}

fn storage_value(account: &Account, index: U256) -> Option<U256> {
    account
        .storage
        .iter()
        .find(|(k, _)| *k == index)
        .map(|(_, slot)| slot.present_value)
}

#[test]
fn apply_account_change_without_code_sets_touched_status() {
    let mut diff = StateDiff::default();
    let address = sample_address(1);
    let account_info = account_info_without_code(U256::from_u64(1000), 0);

    diff.apply_account_change(address, account_info);

    let account = diff.get(&address).expect("account should exist");
    assert_eq!(account.status, AccountStatus::touched());
    assert!(!account.status.contains(AccountStatus::created()));
}

#[test]
fn apply_account_change_with_code_sets_created_status() {
    let mut diff = StateDiff::default();
    let address = sample_address(2);
    let code = vec![0x60, 0x00, 0x60, 0x00, 0xf3];
    let account_info = account_info_with_code(U256::from_u64(1000), 1, code);

    diff.apply_account_change(address, account_info);

    let account = diff.get(&address).expect("account should exist");
    assert!(
        account.status.contains(AccountStatus::created()),
        "account with code should have Created status"
    );
    assert!(
        account.status.contains(AccountStatus::touched()),
        "account should also have Touched status"
    );
}

#[test]
fn apply_account_change_adding_code_to_existing_account_sets_created_status() {
    let mut diff = StateDiff::default();
    let address = sample_address(3);

    let account_info_balance = account_info_without_code(U256::from_u64(1000), 0);
    diff.apply_account_change(address, account_info_balance);

    let account = diff.get(&address).expect("account should exist");
    assert_eq!(
        account.status,
        AccountStatus::touched(),
        "account without code should only have Touched status"
    );

    let code = vec![0x60, 0x00, 0x60, 0x00, 0xf3];
    let account_info_with_code = account_info_with_code(U256::from_u64(1000), 0, code);
    diff.apply_account_change(address, account_info_with_code);

    let account = diff.get(&address).expect("account should exist");
    assert!(
        account.status.contains(AccountStatus::created()),
        "account should have Created status after code is added"
    );
    assert!(
        account.status.contains(AccountStatus::touched()),
        "account should retain Touched status"
    );

    assert!(account.info.code.is_some(), "account should have code");
    assert_ne!(
        account.info.code_hash,
        keccak_empty(),
        "code_hash should not be empty"
    );
}

#[test]
fn apply_account_change_updating_account_with_code_preserves_created_status() {
    let mut diff = StateDiff::default();
    let address = sample_address(4);

    let code = vec![0x60, 0x00, 0x60, 0x00, 0xf3];
    let account_info = account_info_with_code(U256::from_u64(1000), 1, code);
    diff.apply_account_change(address, account_info);

    let new_code = vec![0x60, 0x01, 0x60, 0x00, 0xf3];
    let updated_account_info = account_info_with_code(U256::from_u64(2000), 2, new_code);
    diff.apply_account_change(address, updated_account_info);

    let account = diff.get(&address).expect("account should exist");
    assert!(
        account.status.contains(AccountStatus::created()),
        "account should retain Created status"
    );
    assert_eq!(account.info.balance, U256::from_u64(2000));
    assert_eq!(account.info.nonce, 2);
}

#[test]
fn simulate_load_state_with_contract() {
    let mut diff = StateDiff::default();
    let address = sample_address(5);

    let account_info_1 = account_info_without_code(U256::from_u64(1000), 0);
    diff.apply_account_change(address, account_info_1);

    let account_info_2 = AccountInfo {
        balance: U256::from_u64(1000),
        nonce: 5,
        code_hash: keccak_empty(),
        code: None,
    };
    diff.apply_account_change(address, account_info_2);

    let account = diff.get(&address).unwrap();
    assert!(!account.status.contains(AccountStatus::created()));

    let code = vec![0x60, 0x00, 0x60, 0x00, 0xf3];
    let account_info_3 = account_info_with_code(U256::from_u64(1000), 5, code);
    diff.apply_account_change(address, account_info_3);

    let account = diff.get(&address).unwrap();
    assert!(
        account.status.contains(AccountStatus::created()),
        "after set_code, account should have Created status"
    );

    let slot = StorageSlot::new(U256::from_u64(42));
    diff.apply_storage_change(address, U256::from_u64(0), slot, None);

    let account = diff.get(&address).unwrap();
    assert!(
        account.status.contains(AccountStatus::created()),
        "Created status should be preserved after storage change"
    );
    assert!(account.info.code.is_some(), "code should be preserved");
}

#[test]
fn storage_change_on_unseen_address_is_touched_and_created() {
    let mut diff = StateDiff::new();
    let address = sample_address(6);
    diff.apply_storage_change(address, U256::from_u64(0), StorageSlot::new(U256::from_u64(42)), None);

    let account = diff.get(&address).unwrap();
    assert!(account.status.is_touched());
    assert!(account.status.is_created());
    assert_eq!(account.status, AccountStatus::touched().union(AccountStatus::created()));
    assert_eq!(account.info.balance, U256::zero());
    assert_eq!(account.info.nonce, 0);
    assert!(account.info.code.is_none());
    assert_eq!(account.info.code_hash, keccak_empty());
    assert_eq!(account.storage.len(), 1);
    assert_eq!(storage_value(account, U256::from_u64(0)), Some(U256::from_u64(42)));
}

#[test]
fn storage_change_on_unseen_address_uses_given_info() {
    let mut diff = StateDiff::new();
    let address = sample_address(7);
    let info = account_info_without_code(U256::from_u64(7), 3);
    diff.apply_storage_change(address, U256::from_u64(1), StorageSlot::new(U256::from_u64(9)), Some(info));

    let account = diff.get(&address).unwrap();
    assert_eq!(account.info.balance, U256::from_u64(7));
    assert_eq!(account.info.nonce, 3);
    assert!(account.status.is_created());
}

#[test]
fn storage_change_on_known_address_keeps_info_and_status() {
    let mut diff = StateDiff::new();
    let address = sample_address(8);
    diff.apply_account_change(address, account_info_without_code(U256::from_u64(5), 1));
    diff.apply_storage_change(address, U256::from_u64(3), StorageSlot::new(U256::from_u64(1)), None);
    diff.apply_storage_change(address, U256::from_u64(3), StorageSlot::new(U256::from_u64(2)), None);

    let account = diff.get(&address).unwrap();
    assert_eq!(account.status, AccountStatus::touched());
    assert_eq!(account.info.balance, U256::from_u64(5));
    assert_eq!(account.storage.len(), 1);
    assert_eq!(storage_value(account, U256::from_u64(3)), Some(U256::from_u64(2)));
}

#[test]
fn code_then_balance_keeps_created_status() {
    let mut diff = StateDiff::new();
    let address = sample_address(9);
    diff.apply_account_change(address, account_info_with_code(U256::from_u64(1), 0, vec![0x00]));
    diff.apply_account_change(address, account_info_without_code(U256::from_u64(2), 0));

    let account = diff.get(&address).unwrap();
    assert!(account.status.is_created());
    assert!(account.status.is_touched());
    assert!(account.info.code.is_none());
    assert_eq!(account.info.balance, U256::from_u64(2));
}

#[test]
fn storage_then_code_interleaving_ends_created() {
    let mut diff = StateDiff::new();
    let address = sample_address(10);
    diff.apply_account_change(address, account_info_without_code(U256::from_u64(1), 0));
    diff.apply_storage_change(address, U256::from_u64(0), StorageSlot::new(U256::from_u64(4)), None);
    assert!(!diff.get(&address).unwrap().status.is_created());
    diff.apply_account_change(address, account_info_with_code(U256::from_u64(1), 0, vec![0xfe]));
    diff.apply_storage_change(address, U256::from_u64(1), StorageSlot::new(U256::from_u64(5)), None);
    diff.apply_account_change(address, account_info_without_code(U256::from_u64(1), 1));

    let account = diff.get(&address).unwrap();
    assert!(account.status.is_created());
    assert!(account.status.is_touched());
    assert_eq!(account.storage.len(), 2);
}

#[test]
fn apply_diff_layers_foreign_accounts() {
    let shared = sample_address(11);
    let mine_only = sample_address(12);
    let theirs_only = sample_address(13);

    let mut diff = StateDiff::new();
    diff.apply_account_change(shared, account_info_without_code(U256::from_u64(10), 1));
    diff.apply_storage_change(shared, U256::from_u64(0), StorageSlot::new(U256::from_u64(100)), None);
    diff.apply_storage_change(shared, U256::from_u64(1), StorageSlot::new(U256::from_u64(101)), None);
    diff.apply_account_change(mine_only, account_info_without_code(U256::from_u64(20), 0));

    let mut other = StateDiff::new();
    other.apply_storage_change(shared, U256::from_u64(1), StorageSlot::new(U256::from_u64(201)), None);
    other.apply_storage_change(shared, U256::from_u64(2), StorageSlot::new(U256::from_u64(202)), None);
    other.apply_account_change(shared, account_info_without_code(U256::from_u64(30), 7));
    other.apply_account_change(theirs_only, account_info_without_code(U256::from_u64(40), 2));

    diff.apply_diff(other.into_inner());

    let account = diff.get(&shared).unwrap();
    assert_eq!(account.info.balance, U256::from_u64(30));
    assert_eq!(account.info.nonce, 7);
    assert!(account.status.is_touched());
    assert!(account.status.is_created());
    assert_eq!(account.storage.len(), 3);
    assert_eq!(storage_value(account, U256::from_u64(0)), Some(U256::from_u64(100)));
    assert_eq!(storage_value(account, U256::from_u64(1)), Some(U256::from_u64(201)));
    assert_eq!(storage_value(account, U256::from_u64(2)), Some(U256::from_u64(202)));

    assert_eq!(diff.get(&mine_only).unwrap().info.balance, U256::from_u64(20));
    assert_eq!(diff.get(&theirs_only).unwrap().info.balance, U256::from_u64(40));
    assert_eq!(diff.as_inner().len(), 3);
}

#[test]
fn status_union_and_contains() {
    let both = AccountStatus::touched().union(AccountStatus::created());
    assert!(both.contains(AccountStatus::touched()));
    assert!(both.contains(AccountStatus::created()));
    assert!(!AccountStatus::touched().contains(AccountStatus::created()));
    assert!(AccountStatus::touched().contains(AccountStatus::empty()));
    let mut s = AccountStatus::empty();
    s.insert(AccountStatus::created());
    assert!(s.is_created());
    assert!(!s.is_touched());
}

#[test]
fn account_info_new_hashes_code() {
    let code = vec![0x60, 0x00, 0x60, 0x00, 0xf3];
    let info = AccountInfo::new(U256::from_u64(1), 2, code.clone());
    assert_eq!(info.code_hash, B256(alloy_primitives::keccak256(&code).0));
    assert_eq!(info.code, Some(code));

    let empty = AccountInfo::new(U256::zero(), 0, Vec::new());
    assert!(empty.code.is_none());
    assert_eq!(empty.code_hash, keccak_empty());
}

#[test]
fn default_account_info_is_empty() {
    let info = AccountInfo::default();
    assert_eq!(info.balance, U256::zero());
    assert_eq!(info.nonce, 0);
    assert!(info.code.is_none());
    assert_eq!(info.code_hash, keccak_empty());
}
