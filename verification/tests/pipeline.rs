use ethereum_eulerswap::balance_deltas::map_relative_component_balance;
use ethereum_eulerswap::balance_store::{store_balances, BalanceStore};
use ethereum_eulerswap::constants::EULERSWAP_FACTORY;
use ethereum_eulerswap::model::{
    BalanceChange, Block, Call, Event, Function, Log, LogWithCall, PoolConfig, PoolDeployed,
    PoolParams, StorageChange, Swap, Transaction, TransactionTrace,
};
use ethereum_eulerswap::pool_factories::map_protocol_components;
use ethereum_eulerswap::protocol_changes::map_protocol_changes;
use ethereum_eulerswap::registry::{store_protocol_components, RegistryStore};

fn address(byte: u8) -> Vec<u8> {
    vec![byte; 20]
}

fn text(byte: u8) -> String {
    format!("0x{}", format!("{byte:02x}").repeat(20))
}

fn factory_call() -> Call {
    Call {
        address: EULERSWAP_FACTORY.to_vec(),
        state_reverted: false,
        function: Function::DeployPool,
        storage_changes: vec![],
    }
}

fn deployed_log() -> Log {
    Log {
        address: EULERSWAP_FACTORY.to_vec(),
        ordinal: 11,
        event: Event::PoolDeployed(PoolDeployed {
            asset0: address(0xa0),
            asset1: address(0xa1),
            euler_account: address(0xee),
            pool: address(0x01),
            fee_multiplier: vec![],
        }),
    }
}

fn config_log() -> Log {
    Log {
        address: EULERSWAP_FACTORY.to_vec(),
        ordinal: 12,
        event: Event::PoolConfig(PoolConfig {
            pool: address(0x01),
            params: PoolParams {
                vault0: address(0x11),
                vault1: address(0x12),
                price_x: vec![1],
                price_y: vec![1],
                concentration_x: vec![1],
                concentration_y: vec![1],
                fee: vec![1],
                protocol_fee: vec![0],
                protocol_fee_recipient: address(0),
            },
            reserve0: vec![100],
            reserve1: vec![0],
        }),
    }
}

fn deployment(index: u32) -> TransactionTrace {
    TransactionTrace {
        hash: vec![index as u8; 32],
        from: address(0xf0),
        to: EULERSWAP_FACTORY.to_vec(),
        index,
        succeeded: true,
        calls: vec![factory_call()],
        logs_with_calls: vec![
            LogWithCall { log: deployed_log(), call: factory_call() },
            LogWithCall { log: config_log(), call: factory_call() },
        ],
        receipt_logs: vec![deployed_log(), config_log()],
    }
}

fn transaction(index: u32) -> Transaction {
    Transaction {
        hash: vec![index as u8; 32],
        from: address(0xf0),
        to: EULERSWAP_FACTORY.to_vec(),
        index: index as u64,
    }
}

fn block(number: u64, transaction_traces: Vec<TransactionTrace>) -> Block {
    Block { hash: vec![number as u8], parent_hash: vec![0], number, ts: 1_700_000_000, transaction_traces }
}

#[test]
fn deployment_with_reserves_of_one_hundred_and_zero() {
    let input = block(1, vec![deployment(6)]);
    let mut registry = RegistryStore::new();
    let mut balances = BalanceStore::new();

    let created = map_protocol_components(&input).unwrap();
    store_protocol_components(&created, &mut registry);
    let deltas = map_relative_component_balance(&input, &registry).unwrap();
    let changed = store_balances(&deltas, &mut balances);
    let changes = map_protocol_changes(&input, &created, &registry, &changed, &vec![]);

    assert_eq!(changes.changes.len(), 1);
    let set = &changes.changes[0];
    assert_eq!(set.tx, transaction(6));
    assert_eq!(set.component_changes.len(), 1);
    assert_eq!(set.component_changes[0].id, text(0x01));
    assert_eq!(set.component_changes[0].tokens, vec![address(0xa0), address(0xa1)]);
    assert_eq!(
        set.balance_changes,
        vec![BalanceChange {
            token: address(0xa0),
            balance: vec![100],
            component_id: text(0x01).into_bytes(),
        }]
    );
    assert!(set.contract_changes.is_empty());
    assert_eq!(set.entity_changes.len(), 1);
    assert_eq!(set.entity_changes[0].component_id, text(0x01));
}

#[test]
fn swap_after_deployment_moves_the_balances() {
    let first = block(1, vec![deployment(0)]);
    let mut registry = RegistryStore::new();
    let mut balances = BalanceStore::new();
    let created = map_protocol_components(&first).unwrap();
    store_protocol_components(&created, &mut registry);
    let deltas = map_relative_component_balance(&first, &registry).unwrap();
    store_balances(&deltas, &mut balances);

    let swap = Log {
        address: address(0x01),
        ordinal: 3,
        event: Event::Swap(Swap {
            amount0_in: vec![50],
            amount1_in: vec![0],
            amount0_out: vec![0],
            amount1_out: vec![30],
        }),
    };
    let mut key = vec![0u8; 32];
    key[31] = 2;
    let mut slot = vec![0xffu8; 32];
    slot[12..26].copy_from_slice(&[0, 0, 0, 0, 0, 0, 0, 0, 0, 0, 0, 0, 0, 150]);
    let vault_call = Call {
        address: address(0x11),
        state_reverted: false,
        function: Function::Deposit,
        storage_changes: vec![StorageChange { address: address(0x11), key, new_value: slot, ordinal: 2 }],
    };
    let second = block(
        2,
        vec![TransactionTrace {
            hash: vec![8; 32],
            from: address(0xf0),
            to: address(0x01),
            index: 8,
            succeeded: true,
            calls: vec![vault_call],
            logs_with_calls: vec![],
            receipt_logs: vec![swap],
        }],
    );
    let created = map_protocol_components(&second).unwrap();
    assert!(created.tx_components.is_empty());
    let deltas = map_relative_component_balance(&second, &registry).unwrap();
    assert_eq!(deltas.balance_deltas.len(), 2);
    assert_eq!(deltas.balance_deltas[0].token, address(0xa0));
    assert_eq!(deltas.balance_deltas[0].delta, vec![50]);
    assert_eq!(deltas.balance_deltas[1].token, address(0xa1));
    assert_eq!(deltas.balance_deltas[1].delta, vec![0xe2]);
    let changed = store_balances(&deltas, &mut balances);
    let changes = map_protocol_changes(&second, &created, &registry, &changed, &vec![]);

    assert_eq!(changes.block.number, 2);
    assert_eq!(changes.changes.len(), 1);
    let set = &changes.changes[0];
    assert_eq!(set.tx.index, 8);
    assert!(set.component_changes.is_empty());
    assert_eq!(
        set.balance_changes,
        vec![
            BalanceChange { token: address(0xa0), balance: vec![150], component_id: text(0x01).into_bytes() },
            BalanceChange { token: address(0xa1), balance: vec![0], component_id: text(0x01).into_bytes() },
        ]
    );
    assert_eq!(set.contract_changes.len(), 1);
    assert_eq!(set.contract_changes[0].address, address(0x11));
    let mut cash = vec![0u8; 32];
    cash[31] = 150;
    assert_eq!(set.contract_changes[0].token_balances[0].token, address(0xa0));
    assert_eq!(set.contract_changes[0].token_balances[0].balance, cash);
    assert_eq!(set.entity_changes.len(), 1);
    assert_eq!(set.entity_changes[0].component_id, text(0x01));
    assert_eq!(set.entity_changes[0].attributes[0].name, "update_marker");
}
