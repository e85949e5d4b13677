use ethereum_eulerswap::model::{
    Call, ChangeType, Function, ProtocolComponent, StorageChange, TransactionTrace,
};
use ethereum_eulerswap::registry::{store_protocol_component, RegistryStore};
use ethereum_eulerswap::vault_cash::{
    add_change_if_accounted, decode_cash, get_eulerswap_vaults_balances,
    get_storage_key_for_vault_cash, is_cash_operation, VaultBalances,
};

fn address(byte: u8) -> Vec<u8> {
    vec![byte; 20]
}

fn slot_with_cash(cash: [u8; 14], filler: u8) -> Vec<u8> {
    let mut slot = vec![filler; 32];
    slot[12..26].copy_from_slice(&cash);
    slot
}

fn padded(cash: [u8; 14]) -> Vec<u8> {
    let mut value = vec![0u8; 32];
    value[18..].copy_from_slice(&cash);
    value
}

fn cash_of(amount: u8) -> [u8; 14] {
    let mut cash = [0u8; 14];
    cash[13] = amount;
    cash
}

fn write(vault: u8, key: Vec<u8>, new_value: Vec<u8>, ordinal: u64) -> StorageChange {
    StorageChange { address: address(vault), key, new_value, ordinal }
}

fn call(function: Function, state_reverted: bool, storage_changes: Vec<StorageChange>) -> Call {
    Call { address: address(0x11), state_reverted, function, storage_changes }
}

fn trace(calls: Vec<Call>) -> TransactionTrace {
    TransactionTrace {
        hash: vec![0xaa],
        from: vec![0xbb],
        to: vec![0xcc],
        index: 3,
        succeeded: true,
        calls,
        logs_with_calls: vec![],
        receipt_logs: vec![],
    }
}

fn registry_with_pool() -> RegistryStore {
    let component = ProtocolComponent {
        id: "0x".to_string() + &"01".repeat(20),
        tokens: vec![address(0xa0), address(0xa1)],
        contracts: vec![address(0x01), address(0x11), address(0x12)],
        static_att: vec![],
        change: ChangeType::Creation,
        protocol_type: None,
    };
    let mut store = RegistryStore::new();
    store_protocol_component(&component, &mut store);
    store
}

#[test]
fn cash_slot_is_slot_two() {
    let mut expected = vec![0u8; 32];
    expected[31] = 2;
    assert_eq!(get_storage_key_for_vault_cash(), expected);
}

#[test]
fn cash_is_the_fourteen_bytes_from_offset_twelve() {
    let cash = [1, 2, 3, 4, 5, 6, 7, 8, 9, 10, 11, 12, 13, 14];
    let decoded = decode_cash(&slot_with_cash(cash, 0xff)).unwrap();
    assert_eq!(decoded.len(), 32);
    assert_eq!(&decoded[..18], &[0u8; 18]);
    assert_eq!(&decoded[18..], &cash);
}

#[test]
fn cash_does_not_depend_on_the_other_bytes() {
    let cash = [0xde, 0xad, 0xbe, 0xef, 0, 0, 0, 0, 0, 0, 0, 0, 0, 1];
    assert_eq!(decode_cash(&slot_with_cash(cash, 0x00)), decode_cash(&slot_with_cash(cash, 0x5a)));
    assert_eq!(decode_cash(&slot_with_cash(cash, 0x00)), Some(padded(cash)));
}

#[test]
fn slot_too_short_for_the_field_has_no_cash() {
    assert_eq!(decode_cash(&[0u8; 25]), None);
    assert_eq!(decode_cash(&[]), None);
    assert_eq!(decode_cash(&[7u8; 26]), Some(padded([7u8; 14])));
}

#[test]
fn first_write_is_kept_as_it_is() {
    let mut balances = VaultBalances::new();
    assert!(balances.is_empty());
    let change = write(0x11, get_storage_key_for_vault_cash(), slot_with_cash(cash_of(9), 0), 5);
    add_change_if_accounted(&mut balances, &change, &address(0x11), &address(0xa0));
    assert_eq!(balances.len(), 1);
    let held = balances.get(0).unwrap();
    assert_eq!(held.vault, address(0x11));
    assert_eq!(held.token, address(0xa0));
    assert_eq!(held.balance.ordinal, 5);
    assert_eq!(held.balance.value, padded(cash_of(9)));
}

#[test]
fn later_write_with_other_value_replaces_the_snapshot() {
    let mut balances = VaultBalances::new();
    let key = get_storage_key_for_vault_cash();
    let first = write(0x11, key.clone(), slot_with_cash(cash_of(1), 0), 5);
    let second = write(0x11, key, slot_with_cash(cash_of(2), 0), 9);
    add_change_if_accounted(&mut balances, &first, &address(0x11), &address(0xa0));
    add_change_if_accounted(&mut balances, &second, &address(0x11), &address(0xa0));
    assert_eq!(balances.len(), 1);
    let held = balances.balance_of(&address(0x11), &address(0xa0)).unwrap();
    assert_eq!(held.ordinal, 9);
    assert_eq!(held.value, padded(cash_of(2)));
}

#[test]
fn earlier_write_does_not_replace_the_snapshot() {
    let mut balances = VaultBalances::new();
    let key = get_storage_key_for_vault_cash();
    let first = write(0x11, key.clone(), slot_with_cash(cash_of(1), 0), 9);
    let second = write(0x11, key.clone(), slot_with_cash(cash_of(2), 0), 5);
    let third = write(0x11, key, slot_with_cash(cash_of(3), 0), 9);
    add_change_if_accounted(&mut balances, &first, &address(0x11), &address(0xa0));
    add_change_if_accounted(&mut balances, &second, &address(0x11), &address(0xa0));
    add_change_if_accounted(&mut balances, &third, &address(0x11), &address(0xa0));
    let held = balances.balance_of(&address(0x11), &address(0xa0)).unwrap();
    assert_eq!(held.ordinal, 9);
    assert_eq!(held.value, padded(cash_of(1)));
}

#[test]
fn equal_value_does_not_move_the_ordinal() {
    let mut balances = VaultBalances::new();
    let key = get_storage_key_for_vault_cash();
    let first = write(0x11, key.clone(), slot_with_cash(cash_of(4), 0x00), 5);
    let second = write(0x11, key, slot_with_cash(cash_of(4), 0xff), 9);
    add_change_if_accounted(&mut balances, &first, &address(0x11), &address(0xa0));
    add_change_if_accounted(&mut balances, &second, &address(0x11), &address(0xa0));
    let held = balances.balance_of(&address(0x11), &address(0xa0)).unwrap();
    assert_eq!(held.ordinal, 5);
    assert_eq!(held.value, padded(cash_of(4)));
}

#[test]
fn snapshots_are_kept_per_vault_and_token() {
    let mut balances = VaultBalances::new();
    let key = get_storage_key_for_vault_cash();
    let first = write(0x11, key.clone(), slot_with_cash(cash_of(1), 0), 1);
    let second = write(0x12, key, slot_with_cash(cash_of(2), 0), 2);
    add_change_if_accounted(&mut balances, &first, &address(0x11), &address(0xa0));
    add_change_if_accounted(&mut balances, &second, &address(0x12), &address(0xa1));
    assert_eq!(balances.len(), 2);
    assert_eq!(balances.get(0).unwrap().vault, address(0x11));
    assert_eq!(balances.get(1).unwrap().vault, address(0x12));
    assert!(balances.get(2).is_none());
    assert!(balances.balance_of(&address(0x11), &address(0xa1)).is_none());
}

#[test]
fn write_to_another_slot_leaves_no_snapshot() {
    let mut balances = VaultBalances::new();
    let mut key = vec![0u8; 32];
    key[31] = 3;
    let change = write(0x11, key, slot_with_cash(cash_of(9), 0), 5);
    add_change_if_accounted(&mut balances, &change, &address(0x11), &address(0xa0));
    assert!(balances.is_empty());
    let short_key = write(0x11, vec![2], slot_with_cash(cash_of(9), 0), 6);
    add_change_if_accounted(&mut balances, &short_key, &address(0x11), &address(0xa0));
    assert!(balances.is_empty());
}

#[test]
fn write_too_short_for_the_field_leaves_no_snapshot() {
    let mut balances = VaultBalances::new();
    let change = write(0x11, get_storage_key_for_vault_cash(), vec![1u8; 20], 5);
    add_change_if_accounted(&mut balances, &change, &address(0x11), &address(0xa0));
    assert!(balances.is_empty());
}

#[test]
fn only_kept_vault_operations_move_cash() {
    assert!(is_cash_operation(&call(Function::Deposit, false, vec![])));
    assert!(is_cash_operation(&call(Function::Withdraw, false, vec![])));
    assert!(is_cash_operation(&call(Function::Borrow, false, vec![])));
    assert!(is_cash_operation(&call(Function::RepayWithShares, false, vec![])));
    assert!(!is_cash_operation(&call(Function::Deposit, true, vec![])));
    assert!(!is_cash_operation(&call(Function::DeployPool, false, vec![])));
    assert!(!is_cash_operation(&call(Function::Unrecognized, false, vec![])));
}

#[test]
fn two_writes_at_ordinals_five_and_nine_leave_the_later_value() {
    let store = registry_with_pool();
    let key = get_storage_key_for_vault_cash();
    let transaction = trace(vec![call(
        Function::Deposit,
        false,
        vec![
            write(0x11, key.clone(), slot_with_cash(cash_of(10), 0x33), 5),
            write(0x11, key, slot_with_cash(cash_of(20), 0x44), 9),
        ],
    )]);
    let balances = get_eulerswap_vaults_balances(&transaction, &store);
    assert_eq!(balances.len(), 1);
    let held = balances.get(0).unwrap();
    assert_eq!(held.vault, address(0x11));
    assert_eq!(held.token, address(0xa0));
    assert_eq!(held.balance.ordinal, 9);
    assert_eq!(held.balance.value, padded(cash_of(20)));
}

#[test]
fn write_to_a_slot_other_than_the_cash_slot_produces_no_snapshot() {
    let store = registry_with_pool();
    let mut key = vec![0u8; 32];
    key[31] = 1;
    let transaction = trace(vec![call(
        Function::Deposit,
        false,
        vec![write(0x11, key, slot_with_cash(cash_of(10), 0), 5)],
    )]);
    assert!(get_eulerswap_vaults_balances(&transaction, &store).is_empty());
}

#[test]
fn only_registered_vaults_are_scanned() {
    let store = registry_with_pool();
    let key = get_storage_key_for_vault_cash();
    let transaction = trace(vec![call(
        Function::Withdraw,
        false,
        vec![
            write(0x77, key.clone(), slot_with_cash(cash_of(1), 0), 1),
            write(0x12, key, slot_with_cash(cash_of(2), 0), 2),
        ],
    )]);
    let balances = get_eulerswap_vaults_balances(&transaction, &store);
    assert_eq!(balances.len(), 1);
    assert_eq!(balances.get(0).unwrap().vault, address(0x12));
    assert_eq!(balances.get(0).unwrap().token, address(0xa1));
}

#[test]
fn reverted_and_other_calls_are_not_scanned() {
    let store = registry_with_pool();
    let key = get_storage_key_for_vault_cash();
    let change = || write(0x11, key.clone(), slot_with_cash(cash_of(1), 0), 1);
    let transaction = trace(vec![
        call(Function::Deposit, true, vec![change()]),
        call(Function::Unrecognized, false, vec![change()]),
        call(Function::DeployPool, false, vec![change()]),
    ]);
    assert!(get_eulerswap_vaults_balances(&transaction, &store).is_empty());
    let empty = RegistryStore::new();
    let kept = trace(vec![call(Function::Borrow, false, vec![change()])]);
    assert!(get_eulerswap_vaults_balances(&kept, &empty).is_empty());
    assert_eq!(get_eulerswap_vaults_balances(&kept, &store).len(), 1);
}
