use ethereum_eulerswap::constants::{
    EULERSWAP_FACTORY, EULERSWAP_PERIPHERY, EVC_ADDRESS, EVK_GENERIC_FACTORY,
};
use ethereum_eulerswap::model::{
    Attribute, Block, Call, ChangeType, Event, FinancialType, Function, ImplementationType, Log,
    LogWithCall, MissingPoolConfig, PoolConfig, PoolDeployed, PoolParams, ProtocolType, Swap,
    Transaction, TransactionTrace,
};
use ethereum_eulerswap::pool_factories::{maybe_create_component, map_protocol_components};
use ethereum_eulerswap::pools_created::{get_pools, map_pools_created, Params};

fn address(byte: u8) -> Vec<u8> {
    vec![byte; 20]
}

fn text(byte: u8) -> String {
    format!("0x{}", format!("{byte:02x}").repeat(20))
}

fn factory_call() -> Call {
    Call {
        address: EULERSWAP_FACTORY.to_vec(),
        state_reverted: false,
        function: Function::DeployPool,
        storage_changes: vec![],
    }
}

fn deployed(pool: u8) -> PoolDeployed {
    PoolDeployed {
        asset0: address(0xa0),
        asset1: address(0xa1),
        euler_account: address(0xee),
        pool: address(pool),
        fee_multiplier: vec![0x03, 0xe8],
    }
}

fn deployed_log(pool: u8, ordinal: u64) -> Log {
    Log { address: EULERSWAP_FACTORY.to_vec(), ordinal, event: Event::PoolDeployed(deployed(pool)) }
}

fn config_log(pool: u8, ordinal: u64) -> Log {
    Log {
        address: EULERSWAP_FACTORY.to_vec(),
        ordinal,
        event: Event::PoolConfig(PoolConfig {
            pool: address(pool),
            params: PoolParams {
                vault0: address(0x11),
                vault1: address(0x12),
                price_x: vec![0x0d, 0xe0, 0xb6, 0xb3, 0xa7, 0x64, 0x00, 0x00],
                price_y: vec![0x01],
                concentration_x: vec![0x80],
                concentration_y: vec![],
                fee: vec![0x00, 0xff],
                protocol_fee: vec![0],
                protocol_fee_recipient: address(0xfe),
            },
            reserve0: vec![100],
            reserve1: vec![0],
        }),
    }
}

fn other_log(ordinal: u64) -> Log {
    Log { address: address(0x55), ordinal, event: Event::Unrecognized }
}

fn paired(log: Log) -> LogWithCall {
    LogWithCall { log, call: factory_call() }
}

fn trace(index: u32, succeeded: bool, logs: Vec<Log>) -> TransactionTrace {
    let logs_with_calls = logs
        .iter()
        .map(|log| match &log.event {
            Event::PoolDeployed(_) => paired(deployed_log(address_byte(log), log.ordinal)),
            Event::PoolConfig(_) => paired(config_log(address_byte(log), log.ordinal)),
            _ => LogWithCall { log: other_log(log.ordinal), call: factory_call() },
        })
        .collect();
    TransactionTrace {
        hash: vec![index as u8; 32],
        from: address(0xf0),
        to: EULERSWAP_FACTORY.to_vec(),
        index,
        succeeded,
        calls: vec![factory_call()],
        logs_with_calls,
        receipt_logs: logs,
    }
}

fn address_byte(log: &Log) -> u8 {
    match &log.event {
        Event::PoolDeployed(event) => event.pool[0],
        Event::PoolConfig(event) => event.pool[0],
        _ => 0,
    }
}

fn transaction(index: u32) -> Transaction {
    Transaction {
        hash: vec![index as u8; 32],
        from: address(0xf0),
        to: EULERSWAP_FACTORY.to_vec(),
        index: index as u64,
    }
}

fn block(transaction_traces: Vec<TransactionTrace>) -> Block {
    Block { hash: vec![1], parent_hash: vec![0], number: 7, ts: 1_700_000_000, transaction_traces }
}

fn creation(name: &str, value: Vec<u8>) -> Attribute {
    Attribute { name: name.to_string(), value, change: ChangeType::Creation }
}

#[test]
fn deployment_with_configuration_makes_the_component() {
    let tx = trace(0, true, vec![deployed_log(0x01, 1), config_log(0x01, 2)]);
    let component =
        maybe_create_component(&factory_call(), &deployed_log(0x01, 1), &tx).unwrap().unwrap();
    assert_eq!(component.id, text(0x01));
    assert_eq!(component.tokens, vec![address(0xa0), address(0xa1)]);
    assert_eq!(
        component.contracts,
        vec![
            address(0x01),
            address(0x11),
            address(0x12),
            EVC_ADDRESS.to_vec(),
            EULERSWAP_PERIPHERY.to_vec(),
            EVK_GENERIC_FACTORY.to_vec(),
        ]
    );
    assert_eq!(
        component.static_att,
        vec![
            creation("pool_type", b"EulerSwap".to_vec()),
            creation("euler_account", address(0xee)),
            creation("fee", vec![0x00, 0xff]),
            creation("protocolFee", vec![0x00]),
            creation("protocolFeeRecipient", address(0xfe)),
            creation("reserves", br#"["0x64","0x00"]"#.to_vec()),
            creation("prices", br#"["0x0de0b6b3a7640000","0x01"]"#.to_vec()),
            creation("concentrations", br#"["0x0080","0x00"]"#.to_vec()),
            creation("manual_updates", vec![1]),
        ]
    );
    assert_eq!(component.change, ChangeType::Creation);
    assert_eq!(
        component.protocol_type,
        Some(ProtocolType {
            name: "eulerswap".to_string(),
            financial_type: FinancialType::Swap,
            attribute_schema: vec![],
            implementation_type: ImplementationType::Vm,
        })
    );
}

#[test]
fn the_first_configuration_of_the_pool_in_the_transaction_is_used() {
    let mut second = config_log(0x01, 3);
    if let Event::PoolConfig(config) = &mut second.event {
        config.reserve0 = vec![7];
    }
    let mut tx = trace(0, true, vec![config_log(0x02, 1), deployed_log(0x01, 2), config_log(0x01, 3)]);
    tx.logs_with_calls.push(paired(second));
    let component =
        maybe_create_component(&factory_call(), &deployed_log(0x01, 2), &tx).unwrap().unwrap();
    assert_eq!(component.static_att[5], creation("reserves", br#"["0x64","0x00"]"#.to_vec()));
}

#[test]
fn a_call_to_another_address_creates_nothing() {
    let tx = trace(0, true, vec![deployed_log(0x01, 1), config_log(0x01, 2)]);
    let mut call = factory_call();
    call.address = address(0x77);
    assert_eq!(maybe_create_component(&call, &deployed_log(0x01, 1), &tx), Ok(None));
    call.address = EULERSWAP_FACTORY[..19].to_vec();
    assert_eq!(maybe_create_component(&call, &deployed_log(0x01, 1), &tx), Ok(None));
}

#[test]
fn a_call_that_deploys_nothing_creates_nothing() {
    let tx = trace(0, true, vec![deployed_log(0x01, 1), config_log(0x01, 2)]);
    let mut call = factory_call();
    call.function = Function::Unrecognized;
    assert_eq!(maybe_create_component(&call, &deployed_log(0x01, 1), &tx), Ok(None));
    call.function = Function::Deposit;
    assert_eq!(maybe_create_component(&call, &deployed_log(0x01, 1), &tx), Ok(None));
}

#[test]
fn a_log_that_is_no_deployment_creates_nothing() {
    let tx = trace(0, true, vec![deployed_log(0x01, 1), config_log(0x01, 2)]);
    assert_eq!(maybe_create_component(&factory_call(), &config_log(0x01, 2), &tx), Ok(None));
    assert_eq!(maybe_create_component(&factory_call(), &other_log(3), &tx), Ok(None));
    let swap = Log {
        address: address(0x01),
        ordinal: 4,
        event: Event::Swap(Swap {
            amount0_in: vec![1],
            amount1_in: vec![],
            amount0_out: vec![],
            amount1_out: vec![1],
        }),
    };
    assert_eq!(maybe_create_component(&factory_call(), &swap, &tx), Ok(None));
}

#[test]
fn deployment_without_configuration_is_an_error() {
    let tx = trace(0, true, vec![deployed_log(0x01, 1), config_log(0x02, 2)]);
    assert_eq!(
        maybe_create_component(&factory_call(), &deployed_log(0x01, 1), &tx),
        Err(MissingPoolConfig { pool: address(0x01) })
    );
}

#[test]
fn components_are_grouped_by_transaction() {
    let input = block(vec![
        trace(0, true, vec![other_log(1)]),
        trace(1, true, vec![deployed_log(0x01, 2), config_log(0x01, 3), deployed_log(0x02, 4), config_log(0x02, 5)]),
        trace(2, false, vec![deployed_log(0x03, 6), config_log(0x03, 7)]),
        trace(3, true, vec![deployed_log(0x04, 8), config_log(0x04, 9)]),
    ]);
    let created = map_protocol_components(&input).unwrap();
    assert_eq!(created.tx_components.len(), 2);
    assert_eq!(created.tx_components[0].tx, transaction(1));
    let ids: Vec<&str> =
        created.tx_components[0].components.iter().map(|c| c.id.as_str()).collect();
    assert_eq!(ids, vec![text(0x01), text(0x02)]);
    assert_eq!(created.tx_components[1].tx, transaction(3));
    assert_eq!(created.tx_components[1].components.len(), 1);
    assert_eq!(created.tx_components[1].components[0].id, text(0x04));
}

#[test]
fn a_block_without_deployments_creates_nothing() {
    assert_eq!(map_protocol_components(&block(vec![])).unwrap().tx_components, vec![]);
    let quiet = block(vec![trace(0, true, vec![other_log(1), config_log(0x01, 2)])]);
    assert_eq!(map_protocol_components(&quiet).unwrap().tx_components, vec![]);
}

#[test]
fn a_deployment_without_configuration_fails_the_block() {
    let input = block(vec![
        trace(0, true, vec![deployed_log(0x01, 1), config_log(0x01, 2)]),
        trace(1, true, vec![deployed_log(0x02, 3)]),
        trace(2, true, vec![config_log(0x02, 4)]),
    ]);
    assert_eq!(map_protocol_components(&input), Err(MissingPoolConfig { pool: address(0x02) }));
}

#[test]
fn the_factory_announces_its_pools() {
    let params =
        Params { factory_address: EULERSWAP_FACTORY.to_vec(), protocol_type_name: "eulerswap_pool".to_string() };
    let mut foreign = deployed_log(0x09, 5);
    foreign.address = address(0x99);
    let input = block(vec![
        trace(0, false, vec![deployed_log(0x03, 1)]),
        trace(1, true, vec![other_log(2), deployed_log(0x01, 3), config_log(0x01, 4), foreign]),
        trace(2, true, vec![deployed_log(0x02, 6)]),
    ]);
    let changes = map_pools_created(&params, &input);
    assert_eq!(changes.block.number, 7);
    assert_eq!(changes.block.hash, vec![1]);
    assert_eq!(changes.block.parent_hash, vec![0]);
    assert_eq!(changes.block.ts, 1_700_000_000);
    assert_eq!(changes.changes.len(), 2);

    let first = &changes.changes[0];
    assert_eq!(first.tx, transaction(1));
    assert!(first.contract_changes.is_empty());
    assert_eq!(first.entity_changes.len(), 1);
    assert_eq!(first.entity_changes[0].component_id, text(0x01));
    assert_eq!(
        first.entity_changes[0].attributes,
        vec![creation("reserve0", vec![0]), creation("reserve1", vec![0])]
    );
    assert_eq!(first.component_changes.len(), 1);
    let component = &first.component_changes[0];
    assert_eq!(component.id, text(0x01));
    assert_eq!(component.tokens, vec![address(0xa0), address(0xa1)]);
    assert!(component.contracts.is_empty());
    assert_eq!(
        component.static_att,
        vec![creation("feeMultiplier", vec![0x03, 0xe8]), creation("pool_address", address(0x01))]
    );
    assert_eq!(component.change, ChangeType::Creation);
    assert_eq!(
        component.protocol_type,
        Some(ProtocolType {
            name: "eulerswap_pool".to_string(),
            financial_type: FinancialType::Swap,
            attribute_schema: vec![],
            implementation_type: ImplementationType::Custom,
        })
    );
    assert_eq!(first.balance_changes.len(), 2);
    assert_eq!(first.balance_changes[0].token, address(0xa0));
    assert_eq!(first.balance_changes[0].balance, vec![0]);
    assert_eq!(first.balance_changes[0].component_id, text(0x01).into_bytes());
    assert_eq!(first.balance_changes[1].token, address(0xa1));
    assert_eq!(first.balance_changes[1].balance, vec![0]);

    assert_eq!(changes.changes[1].tx, transaction(2));
    assert_eq!(changes.changes[1].component_changes[0].id, text(0x02));
}

#[test]
fn pools_are_appended_to_those_found_before() {
    let params =
        Params { factory_address: EULERSWAP_FACTORY.to_vec(), protocol_type_name: "p".to_string() };
    let mut found = Vec::new();
    get_pools(&block(vec![trace(0, true, vec![deployed_log(0x01, 1)])]), &mut found, &params);
    get_pools(&block(vec![trace(5, true, vec![deployed_log(0x02, 1)])]), &mut found, &params);
    get_pools(&block(vec![]), &mut found, &params);
    let ids: Vec<&str> = found.iter().map(|c| c.component_changes[0].id.as_str()).collect();
    assert_eq!(ids, vec![text(0x01), text(0x02)]);
}

#[test]
fn another_factory_announces_nothing() {
    let params = Params { factory_address: address(0x42), protocol_type_name: "p".to_string() };
    let input = block(vec![trace(0, true, vec![deployed_log(0x01, 1)])]);
    assert!(map_pools_created(&params, &input).changes.is_empty());
}
