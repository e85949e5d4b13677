//! Recognition of pool deployments.
//!
//! A pool comes into being when the factory is called to deploy it and
//! answers with a deployment event. A second event of the same transaction
//! carries the pool's configuration; both together make the component.

use vstd::prelude::*;
use vstd::string::*;
use crate::address::{address_text, address_to_string_with_0x, text_bytes};
use crate::amount::{
    json_hex_list, json_serialize_bigint_list, magnitudes, signed_encoding, to_signed_bytes_be,
    unsigned_be,
};
use crate::constants::{EULERSWAP_FACTORY, EULERSWAP_PERIPHERY, EVC_ADDRESS, EVK_GENERIC_FACTORY};
use crate::model::{
    config_in_logs, copy_bytes, lemma_take_all, lemma_take_step, lemma_views_push, same_bytes,
    static_attribute, trace_transaction, views, Attribute, Block,
    BlockTransactionProtocolComponents, Call, ChangeType, Event, FinancialType, Function,
    ImplementationType, Log, LogWithCall, MissingPoolConfig, PoolConfig, PoolDeployed,
    ProtocolComponent, ProtocolComponentView, ProtocolType, ProtocolTypeView,
    TransactionProtocolComponents, TransactionProtocolComponentsView, TransactionTrace,
};

verus! {

/// The id of a pool: the canonical text of its address.
pub fn format_pool_id(pool_address: &[u8]) -> (pool_id: String)
    ensures
        pool_id@ == address_text(pool_address@),
{
    address_to_string_with_0x(pool_address)
}

/// The deployment that a call and a log of it announce: the call goes to the
/// factory and deploys a pool, and the log is the factory's deployment event.
pub open spec fn deployment_of(call: Call, log: Log) -> Option<PoolDeployed> {
    if call.address@ == EULERSWAP_FACTORY@ && call.function == Function::DeployPool
        && log.event is PoolDeployed {
        Some(log.event->PoolDeployed_0)
    } else {
        None
    }
}

/// The logs of a transaction's calls, in ordinal order.
pub open spec fn call_logs(entries: Seq<LogWithCall>) -> Seq<Log> {
    entries.map_values(|entry: LogWithCall| entry.log)
}

/// The configuration of a pool in the first log of the transaction that
/// carries it.
pub open spec fn config_in_transaction(tx: TransactionTrace, pool: Seq<u8>) -> Option<PoolConfig> {
    config_in_logs(call_logs(tx.logs_with_calls@), pool)
}

/// Two amounts as a JSON list.
pub open spec fn json_pair(first: Seq<u8>, second: Seq<u8>) -> Seq<u8> {
    text_bytes(json_hex_list(seq![unsigned_be(first) as int, unsigned_be(second) as int]))
}

/// The component that a deployment and its configuration make.
pub open spec fn created_component(
    deployed: PoolDeployed,
    config: PoolConfig,
) -> ProtocolComponentView {
    ProtocolComponentView {
        id: address_text(deployed.pool@),
        tokens: seq![deployed.asset0@, deployed.asset1@],
        contracts: seq![
            deployed.pool@,
            config.params.vault0@,
            config.params.vault1@,
            EVC_ADDRESS@,
            EULERSWAP_PERIPHERY@,
            EVK_GENERIC_FACTORY@,
        ],
        static_att: seq![
            static_attribute("pool_type"@, text_bytes("EulerSwap"@)),
            static_attribute("euler_account"@, deployed.euler_account@),
            static_attribute("fee"@, signed_encoding(unsigned_be(config.params.fee@) as int)),
            static_attribute(
                "protocolFee"@,
                signed_encoding(unsigned_be(config.params.protocol_fee@) as int),
            ),
            static_attribute("protocolFeeRecipient"@, config.params.protocol_fee_recipient@),
            static_attribute("reserves"@, json_pair(config.reserve0@, config.reserve1@)),
            static_attribute(
                "prices"@,
                json_pair(config.params.price_x@, config.params.price_y@),
            ),
            static_attribute(
                "concentrations"@,
                json_pair(config.params.concentration_x@, config.params.concentration_y@),
            ),
            static_attribute("manual_updates"@, seq![1u8]),
        ],
        change: ChangeType::Creation,
        protocol_type: Some(
            ProtocolTypeView {
                name: "eulerswap"@,
                financial_type: FinancialType::Swap,
                attribute_schema: Seq::empty(),
                implementation_type: ImplementationType::Vm,
            },
        ),
    }
}

/// The configuration of a pool in the first log of the transaction that
/// carries it.
fn find_config_in_transaction<'a>(tx: &'a TransactionTrace, pool: &[u8]) -> (found: Option<
    &'a PoolConfig,
>)
    ensures
        match found {
            Some(config) => config_in_transaction(*tx, pool@) == Some(*config),
            None => config_in_transaction(*tx, pool@) is None,
        },
{
    let entries = &tx.logs_with_calls;
    let ghost logs = call_logs(entries@);
    let mut i: usize = 0;
    assert(logs.skip(0) =~= logs);
    while i < entries.len()
        invariant
            i <= entries.len(),
            entries == &tx.logs_with_calls,
            logs == call_logs(entries@),
            config_in_logs(logs, pool@) == config_in_logs(logs.skip(i as int), pool@),
        decreases entries.len() - i,
    {
        proof {
            assert(logs.skip(i as int)[0] == entries@[i as int].log);
            assert(logs.skip(i as int).skip(1) =~= logs.skip(i + 1));
        }
        match &entries[i].log.event {
            Event::PoolConfig(config) => {
                if same_bytes(config.pool.as_slice(), pool) {
                    return Some(config);
                }
            },
            _ => {},
        }
        i += 1;
    }
    None
}

/// Two amounts as a JSON list.
fn json_of_pair(first: &Vec<u8>, second: &Vec<u8>) -> (json: Vec<u8>)
    ensures
        json@ == json_pair(first@, second@),
{
    let mut amounts: Vec<Vec<u8>> = Vec::new();
    amounts.push(copy_bytes(first.as_slice()));
    amounts.push(copy_bytes(second.as_slice()));
    assert(magnitudes(amounts@) =~= seq![unsigned_be(first@) as int, unsigned_be(second@) as int]);
    json_serialize_bigint_list(&amounts)
}

/// Makes the component of a pool if the call and the log announce its
/// deployment. Fails where they do and no log of the transaction carries the
/// pool's configuration.
pub fn maybe_create_component(call: &Call, log: &Log, tx: &TransactionTrace) -> (outcome: Result<
    Option<ProtocolComponent>,
    MissingPoolConfig,
>)
    ensures
        match outcome {
            Ok(Some(component)) => {
                &&& deployment_of(*call, *log) matches Some(deployed)
                &&& config_in_transaction(*tx, deployed.pool@) matches Some(config)
                &&& component@ == created_component(deployed, config)
            },
            Ok(None) => deployment_of(*call, *log) is None,
            Err(missing) => {
                &&& deployment_of(*call, *log) matches Some(deployed)
                &&& config_in_transaction(*tx, deployed.pool@) is None
                &&& missing.pool@ == deployed.pool@
            },
        },
{
    if !same_bytes(call.address.as_slice(), EULERSWAP_FACTORY.as_slice()) {
        return Ok(None);
    }
    if call.function != Function::DeployPool {
        return Ok(None);
    }
    let pool_deployed = match &log.event {
        Event::PoolDeployed(pool_deployed) => pool_deployed,
        _ => {
            return Ok(None);
        },
    };
    let pool_config = match find_config_in_transaction(tx, pool_deployed.pool.as_slice()) {
        Some(pool_config) => pool_config,
        None => {
            return Err(MissingPoolConfig { pool: copy_bytes(pool_deployed.pool.as_slice()) });
        },
    };

    let mut tokens: Vec<Vec<u8>> = Vec::new();
    tokens.push(copy_bytes(pool_deployed.asset0.as_slice()));
    tokens.push(copy_bytes(pool_deployed.asset1.as_slice()));

    let mut contracts: Vec<Vec<u8>> = Vec::new();
    contracts.push(copy_bytes(pool_deployed.pool.as_slice()));
    contracts.push(copy_bytes(pool_config.params.vault0.as_slice()));
    contracts.push(copy_bytes(pool_config.params.vault1.as_slice()));
    contracts.push(copy_bytes(EVC_ADDRESS.as_slice()));
    contracts.push(copy_bytes(EULERSWAP_PERIPHERY.as_slice()));
    contracts.push(copy_bytes(EVK_GENERIC_FACTORY.as_slice()));

    let mut static_att: Vec<Attribute> = Vec::new();
    static_att.push(Attribute::created("pool_type", "EulerSwap".as_bytes_vec()));
    static_att.push(Attribute::created("euler_account", copy_bytes(pool_deployed.euler_account.as_slice())));
    static_att.push(Attribute::created("fee", to_signed_bytes_be(pool_config.params.fee.as_slice())));
    static_att.push(
        Attribute::created("protocolFee", to_signed_bytes_be(pool_config.params.protocol_fee.as_slice())),
    );
    static_att.push(
        Attribute::created(
            "protocolFeeRecipient",
            copy_bytes(pool_config.params.protocol_fee_recipient.as_slice()),
        ),
    );
    static_att.push(Attribute::created("reserves", json_of_pair(&pool_config.reserve0, &pool_config.reserve1)));
    static_att.push(
        Attribute::created("prices", json_of_pair(&pool_config.params.price_x, &pool_config.params.price_y)),
    );
    static_att.push(
        Attribute::created(
            "concentrations",
            json_of_pair(&pool_config.params.concentration_x, &pool_config.params.concentration_y),
        ),
    );
    let mut manual: Vec<u8> = Vec::new();
    manual.push(1u8);
    static_att.push(Attribute::created("manual_updates", manual));

    let component = ProtocolComponent {
        id: format_pool_id(pool_deployed.pool.as_slice()),
        tokens,
        contracts,
        static_att,
        change: ChangeType::Creation,
        protocol_type: Some(
            ProtocolType {
                name: String::from_str("eulerswap"),
                financial_type: FinancialType::Swap,
                attribute_schema: Vec::new(),
                implementation_type: ImplementationType::Vm,
            },
        ),
    };
    proof {
        let made = created_component(*pool_deployed, *pool_config);
        assert(component@.tokens =~= made.tokens);
        assert(component@.contracts =~= made.contracts);
        assert(component@.static_att =~= made.static_att);
        assert(component@.protocol_type.unwrap().attribute_schema
            =~= made.protocol_type.unwrap().attribute_schema);
    }
    Ok(Some(component))
}

/// The components that the logs of a transaction create, in order, or
/// nothing at all where a deployment among them lacks its configuration.
pub open spec fn transaction_components(entries: Seq<LogWithCall>, tx: TransactionTrace) -> Option<
    Seq<ProtocolComponentView>,
>
    decreases entries.len(),
{
    if entries.len() == 0 {
        Some(Seq::empty())
    } else {
        match transaction_components(entries.drop_last(), tx) {
            None => None,
            Some(earlier) => match deployment_of(entries.last().call, entries.last().log) {
                None => Some(earlier),
                Some(deployed) => match config_in_transaction(tx, deployed.pool@) {
                    None => None,
                    Some(config) => Some(earlier.push(created_component(deployed, config))),
                },
            },
        }
    }
}

/// The components that the first transactions of a block create, grouped by
/// transaction. Only successful transactions count, and one that creates
/// nothing is not listed.
pub open spec fn block_components(visited: Seq<TransactionTrace>) -> Option<
    Seq<TransactionProtocolComponentsView>,
>
    decreases visited.len(),
{
    if visited.len() == 0 {
        Some(Seq::empty())
    } else {
        match block_components(visited.drop_last()) {
            None => None,
            Some(earlier) => if visited.last().succeeded {
                match transaction_components(visited.last().logs_with_calls@, visited.last()) {
                    None => None,
                    Some(components) => if components.len() > 0 {
                        Some(
                            earlier.push(
                                TransactionProtocolComponentsView {
                                    tx: trace_transaction(visited.last()),
                                    components,
                                },
                            ),
                        )
                    } else {
                        Some(earlier)
                    },
                }
            } else {
                Some(earlier)
            },
        }
    }
}

/// Whether a pool is deployed in a successful transaction of which no log
/// carries the pool's configuration.
pub open spec fn lacks_config(traces: Seq<TransactionTrace>, pool: Seq<u8>) -> bool {
    exists|t: int, e: int|
        {
            &&& 0 <= t < traces.len()
            &&& 0 <= e < traces[t].logs_with_calls@.len()
            &&& traces[t].succeeded
            &&& deploys(#[trigger] traces[t].logs_with_calls@[e], pool)
            &&& config_in_transaction(traces[t], pool) is None
        }
}

/// Whether a log and its call announce the deployment of a pool.
pub open spec fn deploys(entry: LogWithCall, pool: Seq<u8>) -> bool {
    deployment_of(entry.call, entry.log) matches Some(deployed) && deployed.pool@ == pool
}

/// Finds the pools that the transactions of a block create. Fails where a
/// deployment lacks its configuration.
pub fn map_protocol_components(block: &Block) -> (outcome: Result<
    BlockTransactionProtocolComponents,
    MissingPoolConfig,
>)
    ensures
        match outcome {
            Ok(created) => block_components(block.transaction_traces@) == Some(created@),
            Err(missing) => block_components(block.transaction_traces@) is None && lacks_config(
                block.transaction_traces@,
                missing.pool@,
            ),
        },
{
    let traces = &block.transaction_traces;
    let mut tx_components: Vec<TransactionProtocolComponents> = Vec::new();
    let mut t: usize = 0;
    proof {
        lemma_take_all(traces@);
    }
    assert(views(tx_components@) =~= Seq::<TransactionProtocolComponentsView>::empty());
    while t < traces.len()
        invariant
            t <= traces.len(),
            traces == &block.transaction_traces,
            block_components(traces@.take(t as int)) == Some(views(tx_components@)),
        decreases traces.len() - t,
    {
        let tx = &traces[t];
        proof {
            lemma_take_step(traces@, t as int);
        }
        if tx.succeeded {
            let entries = &tx.logs_with_calls;
            let mut components: Vec<ProtocolComponent> = Vec::new();
            let mut e: usize = 0;
            proof {
                lemma_take_all(entries@);
            }
            assert(views(components@) =~= Seq::<ProtocolComponentView>::empty());
            while e < entries.len()
                invariant
                    e <= entries.len(),
                    t < traces.len(),
                    traces == &block.transaction_traces,
                    *tx == traces@[t as int],
                    tx.succeeded,
                    entries == &tx.logs_with_calls,
                    transaction_components(entries@.take(e as int), *tx) == Some(
                        views(components@),
                    ),
                decreases entries.len() - e,
            {
                proof {
                    lemma_take_step(entries@, e as int);
                }
                match maybe_create_component(&entries[e].call, &entries[e].log, tx) {
                    Ok(Some(component)) => {
                        proof {
                            lemma_views_push(components@, component);
                        }
                        components.push(component);
                    },
                    Ok(None) => {},
                    Err(missing) => {
                        proof {
                            lemma_transaction_fails(entries@, e as int, *tx);
                            lemma_block_fails(traces@, t as int);
                            assert(deploys(traces@[t as int].logs_with_calls@[e as int], missing.pool@));
                        }
                        return Err(missing);
                    },
                }
                e += 1;
            }
            proof {
                lemma_take_all(entries@);
            }
            if components.len() > 0 {
                let created = TransactionProtocolComponents { tx: tx.transaction(), components };
                proof {
                    lemma_views_push(tx_components@, created);
                }
                tx_components.push(created);
            }
        }
        t += 1;
    }
    proof {
        lemma_take_all(traces@);
    }
    Ok(BlockTransactionProtocolComponents { tx_components })
}

/// Once the logs up to some position fail, so do all the logs.
proof fn lemma_transaction_fails(entries: Seq<LogWithCall>, position: int, tx: TransactionTrace)
    requires
        0 <= position < entries.len(),
        transaction_components(entries.take(position + 1), tx) is None,
    ensures
        transaction_components(entries, tx) is None,
    decreases entries.len(),
{
    if position < entries.len() - 1 {
        assert(entries.drop_last().take(position + 1) =~= entries.take(position + 1));
        lemma_transaction_fails(entries.drop_last(), position, tx);
    } else {
        assert(entries.take(position + 1) =~= entries);
    }
}

/// A successful transaction whose logs fail makes the block fail.
proof fn lemma_block_fails(visited: Seq<TransactionTrace>, position: int)
    requires
        0 <= position < visited.len(),
        visited[position].succeeded,
        transaction_components(visited[position].logs_with_calls@, visited[position]) is None,
    ensures
        block_components(visited) is None,
    decreases visited.len(),
{
    if position < visited.len() - 1 {
        assert(visited.drop_last()[position] == visited[position]);
        lemma_block_fails(visited.drop_last(), position);
    }
}

} // verus!
