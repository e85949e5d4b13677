use ethereum_eulerswap::change_set::TransactionChangesBuilder;
use ethereum_eulerswap::constants::{
    EULERSWAP_IMPLEMENTATION, EVC_ADDRESS, EVK_BORROWING_MODULE_IMPL, EVK_EVAULT_IMPL,
    EVK_GOVERNANCE_MODULE_IMPL, EVK_VAULT_MODULE_IMPL, PERMIT_2,
};
use ethereum_eulerswap::model::{
    AccountBalanceChange, Attribute, BalanceChange, Block, BlockTransactionProtocolComponents,
    Call, ChangeType, ContractChange, ContractSlot, EntityChanges, Function, ProtocolComponent,
    StorageChange, Transaction, TransactionBalanceChanges, TransactionContractChanges,
    TransactionProtocolComponents, TransactionTrace,
};
use ethereum_eulerswap::protocol_changes::{is_tracked_contract, map_protocol_changes};
use ethereum_eulerswap::registry::{store_protocol_component, RegistryStore};

fn address(byte: u8) -> Vec<u8> {
    vec![byte; 20]
}

fn text(byte: u8) -> String {
    format!("0x{}", format!("{byte:02x}").repeat(20))
}

fn hex_text(bytes: &[u8]) -> Vec<u8> {
    let mut out = String::from("0x");
    for byte in bytes {
        out.push_str(&format!("{byte:02x}"));
    }
    out.into_bytes()
}

fn component(pool: u8, vault0: u8, vault1: u8) -> ProtocolComponent {
    ProtocolComponent {
        id: text(pool),
        tokens: vec![address(0xa0), address(0xa1)],
        contracts: vec![address(pool), address(vault0), address(vault1)],
        static_att: vec![],
        change: ChangeType::Creation,
        protocol_type: None,
    }
}

fn registry() -> RegistryStore {
    let mut store = RegistryStore::new();
    store_protocol_component(&component(0x01, 0x11, 0x12), &mut store);
    store_protocol_component(&component(0x02, 0x11, 0x13), &mut store);
    store
}

fn transaction(index: u64) -> Transaction {
    Transaction { hash: vec![index as u8; 32], from: address(0xf0), to: address(0xf1), index }
}

fn trace(index: u32, calls: Vec<Call>) -> TransactionTrace {
    TransactionTrace {
        hash: vec![index as u8; 32],
        from: address(0xf0),
        to: address(0xf1),
        index,
        succeeded: true,
        calls,
        logs_with_calls: vec![],
        receipt_logs: vec![],
    }
}

fn block(transaction_traces: Vec<TransactionTrace>) -> Block {
    Block { hash: vec![9], parent_hash: vec![8], number: 42, ts: 1_700_000_000, transaction_traces }
}

fn no_components() -> BlockTransactionProtocolComponents {
    BlockTransactionProtocolComponents { tx_components: vec![] }
}

fn slot(key: u8, value: u8, previous: u8) -> ContractSlot {
    ContractSlot { slot: vec![key; 32], value: vec![value; 32], previous_value: vec![previous; 32] }
}

fn storage_change(contract: u8, slots: Vec<ContractSlot>) -> ContractChange {
    ContractChange {
        address: address(contract),
        balance: vec![],
        code: vec![],
        slots,
        change: ChangeType::Update,
        token_balances: vec![],
    }
}

fn storage(index: u64, contract_changes: Vec<ContractChange>) -> TransactionContractChanges {
    TransactionContractChanges { tx: transaction(index), contract_changes }
}

fn balance(index: u64, pool: u8, token: u8, balance: Vec<u8>) -> TransactionBalanceChanges {
    TransactionBalanceChanges {
        tx: transaction(index),
        balance_changes: vec![BalanceChange {
            token: address(token),
            balance,
            component_id: text(pool).into_bytes(),
        }],
    }
}

fn update_mark(component: u8) -> EntityChanges {
    EntityChanges {
        component_id: text(component),
        attributes: vec![Attribute {
            name: "update_marker".to_string(),
            value: vec![1],
            change: ChangeType::Update,
        }],
    }
}

fn cash_write(vault: u8, amount: u8, ordinal: u64) -> StorageChange {
    let mut key = vec![0u8; 32];
    key[31] = 2;
    let mut new_value = vec![0u8; 32];
    new_value[25] = amount;
    StorageChange { address: address(vault), key, new_value, ordinal }
}

fn deposit(changes: Vec<StorageChange>) -> Call {
    Call { address: address(0x11), state_reverted: false, function: Function::Deposit, storage_changes: changes }
}

fn padded(amount: u8) -> Vec<u8> {
    let mut value = vec![0u8; 32];
    value[31] = amount;
    value
}

#[test]
fn pools_vaults_and_shared_contracts_are_followed() {
    let store = registry();
    assert!(is_tracked_contract(&store, &address(0x01)));
    assert!(is_tracked_contract(&store, &address(0x11)));
    assert!(is_tracked_contract(&store, &address(0x13)));
    assert!(is_tracked_contract(&store, &EVC_ADDRESS));
    assert!(is_tracked_contract(&store, &EVK_EVAULT_IMPL));
    assert!(is_tracked_contract(&store, &EULERSWAP_IMPLEMENTATION));
    assert!(!is_tracked_contract(&store, &PERMIT_2));
    assert!(!is_tracked_contract(&store, &address(0xa0)));
    assert!(!is_tracked_contract(&store, &address(0x99)));
    assert!(!is_tracked_contract(&RegistryStore::new(), &address(0x01)));
}

#[test]
fn a_block_without_activity_emits_nothing() {
    let changes =
        map_protocol_changes(&block(vec![trace(0, vec![])]), &no_components(), &registry(), &vec![], &vec![]);
    assert_eq!(changes.block.number, 42);
    assert_eq!(changes.block.hash, vec![9]);
    assert_eq!(changes.block.parent_hash, vec![8]);
    assert_eq!(changes.block.ts, 1_700_000_000);
    assert!(changes.changes.is_empty());
}

#[test]
fn a_created_pool_comes_with_its_starting_attributes() {
    let created = BlockTransactionProtocolComponents {
        tx_components: vec![TransactionProtocolComponents {
            tx: transaction(3),
            components: vec![component(0x01, 0x11, 0x12)],
        }],
    };
    let changes =
        map_protocol_changes(&block(vec![]), &created, &RegistryStore::new(), &vec![], &vec![]);
    assert_eq!(changes.changes.len(), 1);
    let set = &changes.changes[0];
    assert_eq!(set.tx, transaction(3));
    assert_eq!(set.component_changes, vec![component(0x01, 0x11, 0x12)]);
    assert!(set.contract_changes.is_empty());
    assert!(set.balance_changes.is_empty());
    let creation = |name: &str, value: Vec<u8>| Attribute {
        name: name.to_string(),
        value,
        change: ChangeType::Creation,
    };
    assert_eq!(
        set.entity_changes,
        vec![EntityChanges {
            component_id: text(0x01),
            attributes: vec![
                creation("update_marker", address(0x01)),
                creation("stateless_contract_addr_0", hex_text(&EVK_EVAULT_IMPL)),
                creation("stateless_contract_addr_1", hex_text(&EVK_VAULT_MODULE_IMPL)),
                creation("stateless_contract_addr_2", hex_text(&EVK_BORROWING_MODULE_IMPL)),
                creation("stateless_contract_addr_3", hex_text(&EVK_GOVERNANCE_MODULE_IMPL)),
                creation("stateless_contract_addr_4", hex_text(&PERMIT_2)),
                creation("stateless_contract_addr_5", hex_text(&EULERSWAP_IMPLEMENTATION)),
            ],
        }]
    );
}

#[test]
fn change_sets_leave_in_the_order_of_their_transactions() {
    let balances = vec![
        balance(9, 0x01, 0xa0, vec![1]),
        balance(2, 0x01, 0xa0, vec![2]),
        balance(300, 0x01, 0xa0, vec![3]),
        balance(0, 0x01, 0xa0, vec![4]),
        balance(2, 0x01, 0xa1, vec![5]),
    ];
    let changes =
        map_protocol_changes(&block(vec![]), &no_components(), &registry(), &balances, &vec![]);
    let indices: Vec<u64> = changes.changes.iter().map(|set| set.tx.index).collect();
    assert_eq!(indices, vec![0, 2, 9, 300]);
    assert_eq!(changes.changes[1].balance_changes.len(), 2);
}

#[test]
fn the_last_balance_of_a_token_in_a_transaction_stands() {
    let balances = vec![
        balance(1, 0x01, 0xa0, vec![10]),
        balance(1, 0x01, 0xa1, vec![20]),
        balance(1, 0x01, 0xa0, vec![30]),
        balance(1, 0x02, 0xa0, vec![40]),
    ];
    let changes =
        map_protocol_changes(&block(vec![]), &no_components(), &registry(), &balances, &vec![]);
    assert_eq!(changes.changes.len(), 1);
    assert_eq!(
        changes.changes[0].balance_changes,
        vec![
            BalanceChange { token: address(0xa0), balance: vec![30], component_id: text(0x01).into_bytes() },
            BalanceChange { token: address(0xa1), balance: vec![20], component_id: text(0x01).into_bytes() },
            BalanceChange { token: address(0xa0), balance: vec![40], component_id: text(0x02).into_bytes() },
        ]
    );
}

#[test]
fn storage_of_unknown_contracts_is_dropped() {
    let diffs = vec![
        storage(1, vec![storage_change(0x99, vec![slot(1, 2, 3)])]),
        storage(2, vec![storage_change(0xa0, vec![slot(1, 2, 3)]), storage_change(0x01, vec![slot(4, 5, 6)])]),
    ];
    let changes =
        map_protocol_changes(&block(vec![]), &no_components(), &registry(), &vec![], &diffs);
    assert_eq!(changes.changes.len(), 1);
    assert_eq!(changes.changes[0].tx, transaction(2));
    assert_eq!(changes.changes[0].contract_changes, vec![storage_change(0x01, vec![slot(4, 5, 6)])]);
}

#[test]
fn a_change_to_a_pool_marks_the_pool() {
    let diffs = vec![storage(1, vec![storage_change(0x01, vec![slot(4, 5, 6)])])];
    let changes =
        map_protocol_changes(&block(vec![]), &no_components(), &registry(), &vec![], &diffs);
    assert_eq!(changes.changes[0].entity_changes, vec![update_mark(0x01)]);
}

#[test]
fn a_change_to_a_vault_marks_the_pools_that_own_it() {
    let diffs = vec![
        storage(1, vec![storage_change(0x12, vec![slot(4, 5, 6)])]),
        storage(2, vec![storage_change(0x11, vec![slot(4, 5, 6)])]),
    ];
    let changes =
        map_protocol_changes(&block(vec![]), &no_components(), &registry(), &vec![], &diffs);
    assert_eq!(changes.changes.len(), 2);
    assert_eq!(changes.changes[0].entity_changes, vec![update_mark(0x01)]);
    assert_eq!(changes.changes[1].entity_changes, vec![update_mark(0x01), update_mark(0x02)]);
    for set in &changes.changes {
        for entity in &set.entity_changes {
            assert!(entity.component_id != text(0x11) && entity.component_id != text(0x12));
        }
    }
}

#[test]
fn a_change_to_a_shared_contract_marks_nothing() {
    let mut connector = storage_change(0, vec![slot(1, 2, 3)]);
    connector.address = EVC_ADDRESS.to_vec();
    let diffs = vec![storage(1, vec![connector])];
    let changes =
        map_protocol_changes(&block(vec![]), &no_components(), &registry(), &vec![], &diffs);
    assert_eq!(changes.changes.len(), 1);
    assert!(changes.changes[0].entity_changes.is_empty());
    assert_eq!(changes.changes[0].contract_changes[0].address, EVC_ADDRESS.to_vec());
}

#[test]
fn an_update_mark_replaces_the_marker_of_a_pool_created_in_the_same_transaction() {
    let created = BlockTransactionProtocolComponents {
        tx_components: vec![TransactionProtocolComponents {
            tx: transaction(1),
            components: vec![component(0x01, 0x11, 0x12)],
        }],
    };
    let diffs = vec![storage(1, vec![storage_change(0x01, vec![slot(4, 5, 6)])])];
    let changes = map_protocol_changes(&block(vec![]), &created, &registry(), &vec![], &diffs);
    let attributes = &changes.changes[0].entity_changes[0].attributes;
    assert_eq!(attributes.len(), 7);
    assert_eq!(attributes[0], update_mark(0x01).attributes[0]);
    assert_eq!(attributes[1].name, "stateless_contract_addr_0");
}

#[test]
fn vault_cash_overwrites_the_token_balance_of_the_vault() {
    let traces = vec![
        trace(4, vec![deposit(vec![cash_write(0x11, 10, 5), cash_write(0x11, 20, 9)])]),
        trace(5, vec![]),
    ];
    let changes =
        map_protocol_changes(&block(traces), &no_components(), &registry(), &vec![], &vec![]);
    assert_eq!(changes.changes.len(), 1);
    let set = &changes.changes[0];
    assert_eq!(set.tx, transaction(4));
    assert_eq!(
        set.contract_changes,
        vec![ContractChange {
            address: address(0x11),
            balance: vec![],
            code: vec![],
            slots: vec![],
            change: ChangeType::Update,
            token_balances: vec![AccountBalanceChange { token: address(0xa0), balance: padded(20) }],
        }]
    );
    assert_eq!(set.entity_changes, vec![update_mark(0x01), update_mark(0x02)]);
}

#[test]
fn vault_cash_joins_the_storage_of_the_same_vault() {
    let traces = vec![trace(4, vec![deposit(vec![cash_write(0x12, 7, 5)])])];
    let diffs = vec![storage(4, vec![storage_change(0x12, vec![slot(2, 7, 0)])])];
    let changes =
        map_protocol_changes(&block(traces), &no_components(), &registry(), &vec![], &diffs);
    assert_eq!(changes.changes.len(), 1);
    assert_eq!(
        changes.changes[0].contract_changes,
        vec![ContractChange {
            address: address(0x12),
            balance: vec![],
            code: vec![],
            slots: vec![slot(2, 7, 0)],
            change: ChangeType::Update,
            token_balances: vec![AccountBalanceChange { token: address(0xa1), balance: padded(7) }],
        }]
    );
    assert_eq!(changes.changes[0].entity_changes, vec![update_mark(0x01)]);
}

#[test]
fn records_for_one_contract_are_merged() {
    let mut builder = TransactionChangesBuilder::new(&transaction(1));
    assert_eq!(builder.index(), 1);
    let mut first = storage_change(0x01, vec![slot(1, 5, 4), slot(2, 9, 9)]);
    first.balance = vec![1];
    first.code = vec![0xc0];
    first.change = ChangeType::Creation;
    first.token_balances = vec![AccountBalanceChange { token: address(0xa0), balance: vec![1] }];
    let mut second = storage_change(0x01, vec![slot(1, 6, 5), slot(3, 1, 0)]);
    second.token_balances = vec![
        AccountBalanceChange { token: address(0xa1), balance: vec![2] },
        AccountBalanceChange { token: address(0xa0), balance: vec![3] },
    ];
    builder.add_contract_changes(&first);
    builder.add_contract_changes(&storage_change(0x02, vec![]));
    builder.add_contract_changes(&second);
    assert_eq!(builder.changed_contracts(), vec![address(0x01), address(0x02)]);
    let built = builder.build().unwrap();
    assert_eq!(
        built.contract_changes,
        vec![ContractChange {
            address: address(0x01),
            balance: vec![1],
            code: vec![0xc0],
            slots: vec![slot(1, 6, 4), slot(3, 1, 0)],
            change: ChangeType::Creation,
            token_balances: vec![
                AccountBalanceChange { token: address(0xa0), balance: vec![3] },
                AccountBalanceChange { token: address(0xa1), balance: vec![2] },
            ],
        }]
    );
}

#[test]
fn a_builder_with_nothing_to_say_builds_nothing() {
    assert_eq!(TransactionChangesBuilder::new(&transaction(1)).build(), None);
    let mut builder = TransactionChangesBuilder::new(&transaction(1));
    builder.add_contract_changes(&storage_change(0x01, vec![slot(1, 5, 5)]));
    builder.add_entity_change(&EntityChanges { component_id: text(0x01), attributes: vec![] });
    assert_eq!(builder.build(), None);
    let mut marked = TransactionChangesBuilder::new(&transaction(1));
    marked.mark_component_as_updated(&text(0x01));
    marked.mark_component_as_updated(&text(0x01));
    assert_eq!(marked.build().unwrap().entity_changes, vec![update_mark(0x01)]);
}

#[test]
fn a_component_is_added_once() {
    let mut builder = TransactionChangesBuilder::new(&transaction(1));
    builder.add_protocol_component(&component(0x01, 0x11, 0x12));
    builder.add_protocol_component(&component(0x01, 0x13, 0x14));
    builder.add_protocol_component(&component(0x02, 0x11, 0x12));
    let built = builder.clone().build().unwrap();
    assert_eq!(built.component_changes, vec![component(0x01, 0x11, 0x12), component(0x02, 0x11, 0x12)]);
    builder.add_balance_change(&BalanceChange { token: address(0xa0), balance: vec![1], component_id: vec![1] });
    builder.add_balance_change(&BalanceChange { token: address(0xa0), balance: vec![2], component_id: vec![1] });
    assert_eq!(
        builder.build().unwrap().balance_changes,
        vec![BalanceChange { token: address(0xa0), balance: vec![2], component_id: vec![1] }]
    );
}
