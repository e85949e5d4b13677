use ethereum_eulerswap::balance_deltas::map_relative_component_balance;
use ethereum_eulerswap::balance_store::{absolute_balance, store_balances, BalanceStore};
use ethereum_eulerswap::model::{
    BalanceChange, BalanceDelta, Block, BlockBalanceDeltas, ChangeType, Event, Log,
    MissingPoolConfig, PoolConfig, PoolDeployed, PoolParams, ProtocolComponent, Swap, Transaction,
    TransactionBalanceChanges, TransactionTrace,
};
use ethereum_eulerswap::pool_factories::format_pool_id;
use ethereum_eulerswap::registry::{store_protocol_component, RegistryStore};

fn address(byte: u8) -> Vec<u8> {
    vec![byte; 20]
}

fn registry_with_pool() -> RegistryStore {
    let component = ProtocolComponent {
        id: format_pool_id(&address(0x01)),
        tokens: vec![address(0xa0), address(0xa1)],
        contracts: vec![address(0x01), address(0x11), address(0x12)],
        static_att: vec![],
        change: ChangeType::Creation,
        protocol_type: None,
    };
    let mut store = RegistryStore::new();
    store_protocol_component(&component, &mut store);
    store
}

fn swap_log(pool: u8, ordinal: u64, amounts: [Vec<u8>; 4]) -> Log {
    let [amount0_in, amount1_in, amount0_out, amount1_out] = amounts;
    Log {
        address: address(pool),
        ordinal,
        event: Event::Swap(Swap { amount0_in, amount1_in, amount0_out, amount1_out }),
    }
}

fn params() -> PoolParams {
    PoolParams {
        vault0: address(0x11),
        vault1: address(0x12),
        price_x: vec![1],
        price_y: vec![1],
        concentration_x: vec![0],
        concentration_y: vec![0],
        fee: vec![0],
        protocol_fee: vec![0],
        protocol_fee_recipient: address(0),
    }
}

fn deployed_log(pool: u8, ordinal: u64) -> Log {
    Log {
        address: address(0xfa),
        ordinal,
        event: Event::PoolDeployed(PoolDeployed {
            asset0: address(0xa0),
            asset1: address(0xa1),
            euler_account: address(0xee),
            pool: address(pool),
            fee_multiplier: vec![],
        }),
    }
}

fn config_log(pool: u8, ordinal: u64, reserve0: Vec<u8>, reserve1: Vec<u8>) -> Log {
    Log {
        address: address(0xfa),
        ordinal,
        event: Event::PoolConfig(PoolConfig { pool: address(pool), params: params(), reserve0, reserve1 }),
    }
}

fn trace(index: u32, succeeded: bool, receipt_logs: Vec<Log>) -> TransactionTrace {
    TransactionTrace {
        hash: vec![index as u8; 32],
        from: address(0xf0),
        to: address(0xf1),
        index,
        succeeded,
        calls: vec![],
        logs_with_calls: vec![],
        receipt_logs,
    }
}

fn block(transaction_traces: Vec<TransactionTrace>) -> Block {
    Block { hash: vec![1], parent_hash: vec![0], number: 7, ts: 1_700_000_000, transaction_traces }
}

fn transaction(index: u32) -> Transaction {
    Transaction { hash: vec![index as u8; 32], from: address(0xf0), to: address(0xf1), index: index as u64 }
}

fn pool_id_bytes(pool: u8) -> Vec<u8> {
    format_pool_id(&address(pool)).into_bytes()
}

fn delta(index: u32, ord: u64, token: u8, delta: Vec<u8>) -> BalanceDelta {
    BalanceDelta { ord, tx: transaction(index), token: address(token), delta, component_id: pool_id_bytes(0x01) }
}

fn record(index: u32, token: u8, balance: Vec<u8>) -> TransactionBalanceChanges {
    TransactionBalanceChanges {
        tx: transaction(index),
        balance_changes: vec![BalanceChange {
            token: address(token),
            balance,
            component_id: pool_id_bytes(0x01),
        }],
    }
}

#[test]
fn swap_yields_a_delta_per_amount_that_moves() {
    let store = registry_with_pool();
    let input = block(vec![trace(
        2,
        true,
        vec![swap_log(0x01, 40, [vec![50], vec![0], vec![0], vec![30]])],
    )]);
    let deltas = map_relative_component_balance(&input, &store).unwrap();
    assert_eq!(
        deltas.balance_deltas,
        vec![delta(2, 40, 0xa0, vec![50]), delta(2, 40, 0xa1, vec![0xe2])]
    );
}

#[test]
fn swap_deltas_come_in_a_fixed_order() {
    let store = registry_with_pool();
    let input = block(vec![trace(
        0,
        true,
        vec![swap_log(0x01, 1, [vec![1], vec![2], vec![3], vec![4]])],
    )]);
    let deltas = map_relative_component_balance(&input, &store).unwrap();
    assert_eq!(
        deltas.balance_deltas,
        vec![
            delta(0, 1, 0xa0, vec![1]),
            delta(0, 1, 0xa1, vec![2]),
            delta(0, 1, 0xa0, vec![0xfd]),
            delta(0, 1, 0xa1, vec![0xfc]),
        ]
    );
}

#[test]
fn amounts_are_encoded_in_the_shortest_signed_form() {
    let store = registry_with_pool();
    let input = block(vec![trace(
        0,
        true,
        vec![
            swap_log(0x01, 1, [vec![0, 0, 0x7f], vec![0x80], vec![0x80], vec![0x81]]),
            swap_log(0x01, 2, [vec![1, 0], vec![0xff, 0xff], vec![1, 0], vec![0, 0xff]]),
        ],
    )]);
    let deltas = map_relative_component_balance(&input, &store).unwrap();
    let encoded: Vec<Vec<u8>> = deltas.balance_deltas.into_iter().map(|d| d.delta).collect();
    assert_eq!(
        encoded,
        vec![
            vec![0x7f],
            vec![0x00, 0x80],
            vec![0x80],
            vec![0xff, 0x7f],
            vec![0x01, 0x00],
            vec![0x00, 0xff, 0xff],
            vec![0xff, 0x00],
            vec![0xff, 0x01],
        ]
    );
}

#[test]
fn amount_of_zero_leaves_no_delta() {
    let store = registry_with_pool();
    let input = block(vec![trace(
        0,
        true,
        vec![
            swap_log(0x01, 1, [vec![0], vec![], vec![0, 0, 0], vec![0; 32]]),
            deployed_log(0x01, 2),
            config_log(0x01, 3, vec![0; 14], vec![]),
        ],
    )]);
    let deltas = map_relative_component_balance(&input, &store).unwrap();
    assert_eq!(deltas.balance_deltas, vec![]);
}

#[test]
fn swap_of_an_unknown_pool_leaves_no_delta() {
    let store = registry_with_pool();
    let input = block(vec![trace(
        0,
        true,
        vec![swap_log(0x02, 1, [vec![5], vec![5], vec![5], vec![5]])],
    )]);
    assert_eq!(map_relative_component_balance(&input, &store).unwrap().balance_deltas, vec![]);
    let empty = RegistryStore::new();
    let known = block(vec![trace(0, true, vec![swap_log(0x01, 1, [vec![5], vec![], vec![], vec![]])])]);
    assert_eq!(map_relative_component_balance(&known, &empty).unwrap().balance_deltas, vec![]);
}

#[test]
fn logs_of_failed_transactions_are_ignored() {
    let store = registry_with_pool();
    let input = block(vec![
        trace(0, false, vec![swap_log(0x01, 1, [vec![5], vec![], vec![], vec![]])]),
        trace(1, true, vec![swap_log(0x01, 2, [vec![6], vec![], vec![], vec![]])]),
    ]);
    let deltas = map_relative_component_balance(&input, &store).unwrap();
    assert_eq!(deltas.balance_deltas, vec![delta(1, 2, 0xa0, vec![6])]);
}

#[test]
fn deployment_yields_the_initial_reserves() {
    let store = registry_with_pool();
    let input = block(vec![
        trace(0, true, vec![deployed_log(0x01, 10)]),
        trace(1, true, vec![config_log(0x01, 20, vec![100], vec![0x01, 0x00])]),
    ]);
    let deltas = map_relative_component_balance(&input, &store).unwrap();
    assert_eq!(
        deltas.balance_deltas,
        vec![delta(0, 10, 0xa0, vec![100]), delta(0, 10, 0xa1, vec![0x01, 0x00])]
    );
}

#[test]
fn the_first_configuration_of_the_pool_counts() {
    let store = registry_with_pool();
    let input = block(vec![trace(
        0,
        true,
        vec![
            config_log(0x02, 1, vec![9], vec![9]),
            deployed_log(0x01, 2),
            config_log(0x01, 3, vec![7], vec![]),
            config_log(0x01, 4, vec![8], vec![8]),
        ],
    )]);
    let deltas = map_relative_component_balance(&input, &store).unwrap();
    assert_eq!(deltas.balance_deltas, vec![delta(0, 2, 0xa0, vec![7])]);
}

#[test]
fn deployment_of_an_unregistered_pool_leaves_no_delta() {
    let store = registry_with_pool();
    let input = block(vec![trace(0, true, vec![deployed_log(0x02, 1)])]);
    assert_eq!(map_relative_component_balance(&input, &store).unwrap().balance_deltas, vec![]);
}

#[test]
fn deployment_without_configuration_fails_the_block() {
    let store = registry_with_pool();
    let input = block(vec![
        trace(0, true, vec![swap_log(0x01, 1, [vec![5], vec![], vec![], vec![]])]),
        trace(1, true, vec![deployed_log(0x01, 2), config_log(0x02, 3, vec![1], vec![1])]),
        trace(2, false, vec![config_log(0x01, 4, vec![1], vec![1])]),
    ]);
    assert_eq!(
        map_relative_component_balance(&input, &store),
        Err(MissingPoolConfig { pool: address(0x01) })
    );
}

#[test]
fn an_empty_block_has_no_deltas() {
    let store = registry_with_pool();
    assert_eq!(map_relative_component_balance(&block(vec![]), &store).unwrap().balance_deltas, vec![]);
}

#[test]
fn totals_start_at_zero_and_add_up() {
    let mut store = BalanceStore::new();
    assert_eq!(store.get_last(&pool_id_bytes(0x01), &address(0xa0)), None);
    assert_eq!(store.add(&pool_id_bytes(0x01), &address(0xa0), &[100]), vec![100]);
    assert_eq!(store.add(&pool_id_bytes(0x01), &address(0xa0), &[100]), vec![0x00, 200]);
    assert_eq!(store.add(&pool_id_bytes(0x01), &address(0xa0), &[0xff, 0x38]), vec![0]);
    assert_eq!(store.add(&pool_id_bytes(0x01), &address(0xa0), &[0xff]), vec![0xff]);
    assert_eq!(store.get_last(&pool_id_bytes(0x01), &address(0xa0)), Some(vec![0xff]));
    assert_eq!(store.get_last(&pool_id_bytes(0x01), &address(0xa1)), None);
    assert_eq!(store.add(&pool_id_bytes(0x01), &address(0xa1), &[]), vec![0]);
    assert_eq!(store.get_last(&pool_id_bytes(0x01), &address(0xa1)), Some(vec![0]));
}

#[test]
fn absolute_balance_is_never_below_zero() {
    assert_eq!(absolute_balance(&[100]), vec![100]);
    assert_eq!(absolute_balance(&[0x00, 0x80]), vec![0x80]);
    assert_eq!(absolute_balance(&[0x01, 0x00]), vec![0x01, 0x00]);
    assert_eq!(absolute_balance(&[0]), vec![0]);
    assert_eq!(absolute_balance(&[]), vec![0]);
    assert_eq!(absolute_balance(&[0xff]), vec![0]);
    assert_eq!(absolute_balance(&[0x80, 0x00]), vec![0]);
}

#[test]
fn every_delta_leaves_the_balance_after_it() {
    let mut store = BalanceStore::new();
    let deltas = BlockBalanceDeltas {
        balance_deltas: vec![
            delta(0, 1, 0xa0, vec![50]),
            delta(0, 2, 0xa1, vec![0xe2]),
            delta(3, 9, 0xa0, vec![0x00, 0xc8]),
            delta(3, 9, 0xa1, vec![40]),
        ],
    };
    let changed = store_balances(&deltas, &mut store);
    assert_eq!(
        changed,
        vec![
            record(0, 0xa0, vec![50]),
            record(0, 0xa1, vec![0]),
            record(3, 0xa0, vec![250]),
            record(3, 0xa1, vec![10]),
        ]
    );
    assert_eq!(store.get_last(&pool_id_bytes(0x01), &address(0xa0)), Some(vec![0x00, 250]));
    assert_eq!(store.get_last(&pool_id_bytes(0x01), &address(0xa1)), Some(vec![10]));
}

#[test]
fn totals_carry_over_from_block_to_block() {
    let mut store = BalanceStore::new();
    let first = BlockBalanceDeltas { balance_deltas: vec![delta(0, 1, 0xa0, vec![100])] };
    let second = BlockBalanceDeltas { balance_deltas: vec![delta(0, 1, 0xa0, vec![0xf6])] };
    store_balances(&first, &mut store);
    assert_eq!(store_balances(&second, &mut store), vec![record(0, 0xa0, vec![90])]);
}

#[test]
fn final_totals_do_not_depend_on_the_order_of_the_deltas() {
    let forward = vec![
        delta(0, 1, 0xa0, vec![50]),
        delta(0, 2, 0xa1, vec![0xe2]),
        delta(1, 3, 0xa0, vec![0x9c]),
        delta(1, 4, 0xa1, vec![77]),
    ];
    let mut backward = vec![
        delta(0, 1, 0xa0, vec![50]),
        delta(0, 2, 0xa1, vec![0xe2]),
        delta(1, 3, 0xa0, vec![0x9c]),
        delta(1, 4, 0xa1, vec![77]),
    ];
    backward.reverse();
    let mut first = BalanceStore::new();
    let mut second = BalanceStore::new();
    store_balances(&BlockBalanceDeltas { balance_deltas: forward }, &mut first);
    store_balances(&BlockBalanceDeltas { balance_deltas: backward }, &mut second);
    for token in [0xa0u8, 0xa1] {
        assert_eq!(
            first.get_last(&pool_id_bytes(0x01), &address(token)),
            second.get_last(&pool_id_bytes(0x01), &address(token))
        );
    }
    assert_eq!(first.get_last(&pool_id_bytes(0x01), &address(0xa0)), Some(vec![0xce]));
    assert_eq!(first.get_last(&pool_id_bytes(0x01), &address(0xa1)), Some(vec![47]));
}

#[test]
fn applying_a_block_in_two_parts_gives_the_same_totals() {
    let all = || {
        vec![
            delta(0, 1, 0xa0, vec![50]),
            delta(0, 2, 0xa0, vec![60]),
            delta(1, 3, 0xa0, vec![70]),
        ]
    };
    let mut whole = BalanceStore::new();
    store_balances(&BlockBalanceDeltas { balance_deltas: all() }, &mut whole);
    let mut parts = BalanceStore::new();
    let mut rest = all();
    let head = vec![rest.remove(0)];
    store_balances(&BlockBalanceDeltas { balance_deltas: head }, &mut parts);
    store_balances(&BlockBalanceDeltas { balance_deltas: rest }, &mut parts);
    assert_eq!(
        whole.get_last(&pool_id_bytes(0x01), &address(0xa0)),
        parts.get_last(&pool_id_bytes(0x01), &address(0xa0))
    );
    assert_eq!(whole.get_last(&pool_id_bytes(0x01), &address(0xa0)), Some(vec![0x00, 180]));
}

#[test]
fn applying_deltas_again_adds_them_again_unless_they_cancel() {
    let cancelling = || BlockBalanceDeltas {
        balance_deltas: vec![delta(0, 1, 0xa0, vec![50]), delta(0, 2, 0xa0, vec![0xce])],
    };
    let mut store = BalanceStore::new();
    store_balances(&cancelling(), &mut store);
    assert_eq!(store.get_last(&pool_id_bytes(0x01), &address(0xa0)), Some(vec![0]));
    store_balances(&cancelling(), &mut store);
    assert_eq!(store.get_last(&pool_id_bytes(0x01), &address(0xa0)), Some(vec![0]));
    let adding = || BlockBalanceDeltas { balance_deltas: vec![delta(0, 1, 0xa1, vec![1])] };
    store_balances(&adding(), &mut store);
    store_balances(&adding(), &mut store);
    assert_eq!(store.get_last(&pool_id_bytes(0x01), &address(0xa1)), Some(vec![2]));
}
