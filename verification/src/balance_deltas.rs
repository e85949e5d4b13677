//! Balance deltas from events.
//!
//! A pool's balances move when it is deployed with initial reserves and on
//! every swap. Each movement becomes a signed delta for one token of the
//! pool: positive for what flows in, negative for what flows out. A movement
//! of zero leaves no delta.

use vstd::prelude::*;
use vstd::string::*;
use crate::address::{address_bytes, address_text, decode_address, text_bytes};
use crate::amount::{
    exceeds_zero, lemma_signed_encoding_value, negated_signed_bytes_be, signed_be,
    signed_encoding, to_signed_bytes_be, unsigned_be,
};
use crate::model::{
    config_in_logs, copy_bytes, lemma_take_all, lemma_take_step, lemma_views_push, same_bytes,
    trace_transaction, views, BalanceDelta, BalanceDeltaView, Block, BlockBalanceDeltas, Event,
    Log, MissingPoolConfig, PoolConfig, PoolDeployed, Swap, TransactionTrace, TransactionView,
};
use crate::pool_factories::format_pool_id;
use crate::registry::{latest, pool_asset_key, pool_asset_key_text, pool_key_text, RegistryStore};

verus! {

/// The configuration of a pool in the first receipt log that carries it,
/// over the successful transactions of a block in order.
pub open spec fn config_in_traces(traces: Seq<TransactionTrace>, pool: Seq<u8>) -> Option<
    PoolConfig,
>
    decreases traces.len(),
{
    if traces.len() == 0 {
        None
    } else if traces[0].succeeded && config_in_logs(traces[0].receipt_logs@, pool) is Some {
        config_in_logs(traces[0].receipt_logs@, pool)
    } else {
        config_in_traces(traces.skip(1), pool)
    }
}

/// The configuration of a pool in the first log of a list that carries it.
fn find_config_in_logs<'a>(logs: &'a Vec<Log>, pool: &[u8]) -> (found: Option<&'a PoolConfig>)
    ensures
        match found {
            Some(config) => config_in_logs(logs@, pool@) == Some(*config),
            None => config_in_logs(logs@, pool@) is None,
        },
{
    let mut i: usize = 0;
    assert(logs@.skip(0) =~= logs@);
    while i < logs.len()
        invariant
            i <= logs.len(),
            config_in_logs(logs@, pool@) == config_in_logs(logs@.skip(i as int), pool@),
        decreases logs.len() - i,
    {
        proof {
            assert(logs@.skip(i as int)[0] == logs@[i as int]);
            assert(logs@.skip(i as int).skip(1) =~= logs@.skip(i + 1));
        }
        match &logs[i].event {
            Event::PoolConfig(config) => {
                if same_bytes(config.pool.as_slice(), pool) {
                    return Some(config);
                }
            },
            _ => {},
        }
        i += 1;
    }
    None
}

/// The configuration of a pool in the first receipt log of the block that
/// carries it.
fn find_pool_config<'a>(traces: &'a Vec<TransactionTrace>, pool: &[u8]) -> (found: Option<
    &'a PoolConfig,
>)
    ensures
        match found {
            Some(config) => config_in_traces(traces@, pool@) == Some(*config),
            None => config_in_traces(traces@, pool@) is None,
        },
{
    let mut i: usize = 0;
    assert(traces@.skip(0) =~= traces@);
    while i < traces.len()
        invariant
            i <= traces.len(),
            config_in_traces(traces@, pool@) == config_in_traces(traces@.skip(i as int), pool@),
        decreases traces.len() - i,
    {
        proof {
            assert(traces@.skip(i as int)[0] == traces@[i as int]);
            assert(traces@.skip(i as int).skip(1) =~= traces@.skip(i + 1));
        }
        if traces[i].succeeded {
            match find_config_in_logs(&traces[i].receipt_logs, pool) {
                Some(config) => {
                    return Some(config);
                },
                None => {},
            }
        }
        i += 1;
    }
    None
}

/// The delta that a movement leaves: none if the amount is zero.
pub open spec fn with_movement(
    deltas: Seq<BalanceDeltaView>,
    amount: Seq<u8>,
    outflow: bool,
    ord: u64,
    tx: TransactionView,
    token: Seq<u8>,
    pool_id: Seq<char>,
) -> Seq<BalanceDeltaView> {
    if unsigned_be(amount) > 0 {
        deltas.push(
            BalanceDeltaView {
                ord,
                tx,
                token,
                delta: signed_encoding(
                    if outflow {
                        -(unsigned_be(amount) as int)
                    } else {
                        unsigned_be(amount) as int
                    },
                ),
                component_id: text_bytes(pool_id),
            },
        )
    } else {
        deltas
    }
}

/// The deltas of a deployment: each initial reserve flows into the pool.
pub open spec fn deployment_deltas(
    deployed: PoolDeployed,
    config: PoolConfig,
    ord: u64,
    tx: TransactionView,
) -> Seq<BalanceDeltaView> {
    let pool_id = address_text(deployed.pool@);
    let first = with_movement(
        Seq::empty(),
        config.reserve0@,
        false,
        ord,
        tx,
        deployed.asset0@,
        pool_id,
    );
    with_movement(first, config.reserve1@, false, ord, tx, deployed.asset1@, pool_id)
}

/// The deltas of a swap: what comes in of either asset, then what goes out.
pub open spec fn swap_deltas(
    swap: Swap,
    asset0: Seq<u8>,
    asset1: Seq<u8>,
    ord: u64,
    tx: TransactionView,
    pool_id: Seq<char>,
) -> Seq<BalanceDeltaView> {
    let first = with_movement(Seq::empty(), swap.amount0_in@, false, ord, tx, asset0, pool_id);
    let second = with_movement(first, swap.amount1_in@, false, ord, tx, asset1, pool_id);
    let third = with_movement(second, swap.amount0_out@, true, ord, tx, asset0, pool_id);
    with_movement(third, swap.amount1_out@, true, ord, tx, asset1, pool_id)
}

/// The deltas of one log, or nothing at all where the log deploys a
/// registered pool whose configuration no log of the block carries. A log of
/// a pool that is not registered, or of any other kind, leaves no delta.
pub open spec fn log_deltas(
    log: Log,
    tx: TransactionView,
    traces: Seq<TransactionTrace>,
    registry: Seq<(Seq<char>, Seq<char>)>,
) -> Option<Seq<BalanceDeltaView>> {
    match log.event {
        Event::PoolDeployed(deployed) => {
            if latest(registry, pool_key_text(address_text(deployed.pool@))) is Some {
                match config_in_traces(traces, deployed.pool@) {
                    Some(config) => Some(deployment_deltas(deployed, config, log.ordinal, tx)),
                    None => None,
                }
            } else {
                Some(Seq::empty())
            }
        },
        Event::Swap(swap) => {
            let pool_id = address_text(log.address@);
            if latest(registry, pool_key_text(pool_id)) is Some {
                match (
                    latest(registry, pool_asset_key_text(pool_id, true)),
                    latest(registry, pool_asset_key_text(pool_id, false)),
                ) {
                    (Some(asset0), Some(asset1)) => Some(
                        swap_deltas(
                            swap,
                            address_bytes(text_bytes(asset0)),
                            address_bytes(text_bytes(asset1)),
                            log.ordinal,
                            tx,
                            pool_id,
                        ),
                    ),
                    _ => Some(Seq::empty()),
                }
            } else {
                Some(Seq::empty())
            }
        },
        _ => Some(Seq::empty()),
    }
}

/// The deltas found so far, followed by those of one more log.
pub open spec fn followed_by(
    earlier: Option<Seq<BalanceDeltaView>>,
    further: Option<Seq<BalanceDeltaView>>,
) -> Option<Seq<BalanceDeltaView>> {
    match (earlier, further) {
        (Some(first), Some(second)) => Some(first + second),
        _ => None,
    }
}

/// The deltas of the receipt logs of one transaction, in order.
pub open spec fn logs_deltas(
    logs: Seq<Log>,
    tx: TransactionView,
    traces: Seq<TransactionTrace>,
    registry: Seq<(Seq<char>, Seq<char>)>,
) -> Option<Seq<BalanceDeltaView>>
    decreases logs.len(),
{
    if logs.len() == 0 {
        Some(Seq::empty())
    } else {
        followed_by(
            logs_deltas(logs.drop_last(), tx, traces, registry),
            log_deltas(logs.last(), tx, traces, registry),
        )
    }
}

/// The deltas of the first transactions of a block, in order. Only
/// successful transactions count.
pub open spec fn traces_deltas(
    visited: Seq<TransactionTrace>,
    traces: Seq<TransactionTrace>,
    registry: Seq<(Seq<char>, Seq<char>)>,
) -> Option<Seq<BalanceDeltaView>>
    decreases visited.len(),
{
    if visited.len() == 0 {
        Some(Seq::empty())
    } else if visited.last().succeeded {
        followed_by(
            traces_deltas(visited.drop_last(), traces, registry),
            logs_deltas(
                visited.last().receipt_logs@,
                trace_transaction(visited.last()),
                traces,
                registry,
            ),
        )
    } else {
        traces_deltas(visited.drop_last(), traces, registry)
    }
}

/// The balance deltas of a block, or nothing at all where a deployment in it
/// lacks its configuration.
pub open spec fn block_deltas(block: Block, registry: Seq<(Seq<char>, Seq<char>)>) -> Option<
    Seq<BalanceDeltaView>,
> {
    traces_deltas(block.transaction_traces@, block.transaction_traces@, registry)
}

/// Whether every delta of a list moves something.
pub open spec fn all_nonzero(deltas: Seq<BalanceDeltaView>) -> bool {
    forall|i: int| 0 <= i < deltas.len() ==> signed_be(#[trigger] deltas[i].delta) != 0
}

/// Appends the delta that a movement leaves, if it leaves one.
fn add_movement(
    deltas: &mut Vec<BalanceDelta>,
    amount: &[u8],
    outflow: bool,
    log: &Log,
    trace: &TransactionTrace,
    token: &[u8],
    pool_id: &str,
)
    requires
        all_nonzero(views(old(deltas)@)),
    ensures
        views(final(deltas)@) == with_movement(
            views(old(deltas)@),
            amount@,
            outflow,
            log.ordinal,
            trace_transaction(*trace),
            token@,
            pool_id@,
        ),
        all_nonzero(views(final(deltas)@)),
{
    if exceeds_zero(amount) {
        let delta = if outflow {
            negated_signed_bytes_be(amount)
        } else {
            to_signed_bytes_be(amount)
        };
        proof {
            lemma_signed_encoding_value(unsigned_be(amount@) as int);
            lemma_signed_encoding_value(-(unsigned_be(amount@) as int));
        }
        let record = BalanceDelta {
            ord: log.ordinal,
            tx: trace.transaction(),
            token: copy_bytes(token),
            delta,
            component_id: pool_id.as_bytes_vec(),
        };
        proof {
            lemma_views_push(deltas@, record);
        }
        deltas.push(record);
    }
}

/// Appends the deltas of one log.
fn add_log_deltas(
    deltas: &mut Vec<BalanceDelta>,
    log: &Log,
    trace: &TransactionTrace,
    block: &Block,
    store: &RegistryStore,
) -> (outcome: Result<(), MissingPoolConfig>)
    requires
        all_nonzero(views(old(deltas)@)),
    ensures
        match outcome {
            Ok(_) => {
                &&& log_deltas(
                    *log,
                    trace_transaction(*trace),
                    block.transaction_traces@,
                    store@,
                ) matches Some(added)
                &&& views(final(deltas)@) == views(old(deltas)@) + added
                &&& all_nonzero(views(final(deltas)@))
            },
            Err(missing) => {
                &&& log_deltas(
                    *log,
                    trace_transaction(*trace),
                    block.transaction_traces@,
                    store@,
                ) is None
                &&& is_unconfigured(missing.pool@, *block, store@)
            },
        },
{
    let ghost before = views(deltas@);
    match &log.event {
        Event::PoolDeployed(deploy_event) => {
            let pool_id = format_pool_id(deploy_event.pool.as_slice());
            if store.is_pool(pool_id.as_str()) {
                match find_pool_config(&block.transaction_traces, deploy_event.pool.as_slice()) {
                    Some(pool_config) => {
                        let mut added: Vec<BalanceDelta> = Vec::new();
                        assert(views(added@) =~= Seq::<BalanceDeltaView>::empty());
                        add_movement(
                            &mut added,
                            pool_config.reserve0.as_slice(),
                            false,
                            log,
                            trace,
                            deploy_event.asset0.as_slice(),
                            pool_id.as_str(),
                        );
                        add_movement(
                            &mut added,
                            pool_config.reserve1.as_slice(),
                            false,
                            log,
                            trace,
                            deploy_event.asset1.as_slice(),
                            pool_id.as_str(),
                        );
                        append_deltas(deltas, added);
                    },
                    None => {
                        return Err(
                            MissingPoolConfig { pool: copy_bytes(deploy_event.pool.as_slice()) },
                        );
                    },
                }
            } else {
                assert(views(deltas@) =~= before + Seq::<BalanceDeltaView>::empty());
            }
        },
        Event::Swap(swap_event) => {
            let pool_id = format_pool_id(log.address.as_slice());
            let mut added: Vec<BalanceDelta> = Vec::new();
            assert(views(added@) =~= Seq::<BalanceDeltaView>::empty());
            if store.is_pool(pool_id.as_str()) {
                let asset0 = store.get_last(pool_asset_key(pool_id.as_str(), true).as_str());
                let asset1 = store.get_last(pool_asset_key(pool_id.as_str(), false).as_str());
                match (asset0, asset1) {
                    (Some(asset0), Some(asset1)) => {
                        let asset0_bytes = decode_address(asset0.as_str());
                        let asset1_bytes = decode_address(asset1.as_str());
                        add_movement(
                            &mut added,
                            swap_event.amount0_in.as_slice(),
                            false,
                            log,
                            trace,
                            asset0_bytes.as_slice(),
                            pool_id.as_str(),
                        );
                        add_movement(
                            &mut added,
                            swap_event.amount1_in.as_slice(),
                            false,
                            log,
                            trace,
                            asset1_bytes.as_slice(),
                            pool_id.as_str(),
                        );
                        add_movement(
                            &mut added,
                            swap_event.amount0_out.as_slice(),
                            true,
                            log,
                            trace,
                            asset0_bytes.as_slice(),
                            pool_id.as_str(),
                        );
                        add_movement(
                            &mut added,
                            swap_event.amount1_out.as_slice(),
                            true,
                            log,
                            trace,
                            asset1_bytes.as_slice(),
                            pool_id.as_str(),
                        );
                    },
                    _ => {},
                }
            }
            append_deltas(deltas, added);
        },
        _ => {
            assert(views(deltas@) =~= before + Seq::<BalanceDeltaView>::empty());
        },
    }
    Ok(())
}

/// Whether a pool is registered while no receipt log of a successful
/// transaction of the block carries its configuration.
pub open spec fn is_unconfigured(
    pool: Seq<u8>,
    block: Block,
    registry: Seq<(Seq<char>, Seq<char>)>,
) -> bool {
    latest(registry, pool_key_text(address_text(pool))) is Some && config_in_traces(
        block.transaction_traces@,
        pool,
    ) is None
}

/// Appends a list of deltas to another.
fn append_deltas(deltas: &mut Vec<BalanceDelta>, added: Vec<BalanceDelta>)
    requires
        all_nonzero(views(old(deltas)@)),
        all_nonzero(views(added@)),
    ensures
        views(final(deltas)@) == views(old(deltas)@) + views(added@),
        all_nonzero(views(final(deltas)@)),
{
    let mut added = added;
    let ghost total = views(added@);
    let ghost before = views(deltas@);
    deltas.append(&mut added);
    assert(views(deltas@) =~= before + total);
}

/// The balance deltas that the events of a block leave, in the order of the
/// logs. Fails where a registered pool is deployed in the block without an
/// event that carries its configuration.
pub fn map_relative_component_balance(block: &Block, store: &RegistryStore) -> (outcome: Result<
    BlockBalanceDeltas,
    MissingPoolConfig,
>)
    ensures
        match outcome {
            Ok(deltas) => block_deltas(*block, store@) == Some(deltas@) && all_nonzero(deltas@),
            Err(missing) => block_deltas(*block, store@) is None && is_unconfigured(
                missing.pool@,
                *block,
                store@,
            ),
        },
{
    let traces = &block.transaction_traces;
    let mut deltas: Vec<BalanceDelta> = Vec::new();
    let mut t: usize = 0;
    proof {
        lemma_take_all(traces@);
    }
    assert(views(deltas@) =~= Seq::<BalanceDeltaView>::empty());
    while t < traces.len()
        invariant
            t <= traces.len(),
            traces == &block.transaction_traces,
            all_nonzero(views(deltas@)),
            traces_deltas(traces@.take(t as int), traces@, store@) == Some(views(deltas@)),
        decreases traces.len() - t,
    {
        let trace = &traces[t];
        proof {
            lemma_take_step(traces@, t as int);
        }
        if trace.succeeded {
            let logs = &trace.receipt_logs;
            let ghost before = views(deltas@);
            let ghost tx = trace_transaction(*trace);
            let mut l: usize = 0;
            proof {
                lemma_take_all(logs@);
                assert(before + Seq::<BalanceDeltaView>::empty() =~= before);
            }
            while l < logs.len()
                invariant
                    l <= logs.len(),
                    t < traces.len(),
                    traces == &block.transaction_traces,
                    *trace == traces@[t as int],
                    trace.succeeded,
                    logs == &trace.receipt_logs,
                    tx == trace_transaction(*trace),
                    all_nonzero(views(deltas@)),
                    logs_deltas(logs@.take(l as int), tx, traces@, store@) matches Some(found)
                        && views(deltas@) == before + found,
                decreases logs.len() - l,
            {
                proof {
                    lemma_take_step(logs@, l as int);
                }
                let ghost found = logs_deltas(logs@.take(l as int), tx, traces@, store@).unwrap();
                match add_log_deltas(&mut deltas, &logs[l], trace, block, store) {
                    Ok(_) => {
                        proof {
                            let added = log_deltas(logs@[l as int], tx, traces@, store@).unwrap();
                            assert(before + (found + added) =~= (before + found) + added);
                        }
                    },
                    Err(missing) => {
                        proof {
                            lemma_logs_fail(logs@, l as int, tx, traces@, store@);
                            lemma_traces_fail(traces@, t as int, traces@, store@);
                        }
                        return Err(missing);
                    },
                }
                l += 1;
            }
            proof {
                lemma_take_all(logs@);
            }
        }
        t += 1;
    }
    proof {
        lemma_take_all(traces@);
    }
    Ok(BlockBalanceDeltas { balance_deltas: deltas })
}

/// A log without deltas makes the logs of its transaction fail.
proof fn lemma_logs_fail(
    logs: Seq<Log>,
    position: int,
    tx: TransactionView,
    traces: Seq<TransactionTrace>,
    registry: Seq<(Seq<char>, Seq<char>)>,
)
    requires
        0 <= position < logs.len(),
        log_deltas(logs[position], tx, traces, registry) is None,
    ensures
        logs_deltas(logs, tx, traces, registry) is None,
    decreases logs.len(),
{
    if position < logs.len() - 1 {
        assert(logs.drop_last()[position] == logs[position]);
        lemma_logs_fail(logs.drop_last(), position, tx, traces, registry);
    }
}

/// A successful transaction whose logs fail makes the block fail.
proof fn lemma_traces_fail(
    visited: Seq<TransactionTrace>,
    position: int,
    traces: Seq<TransactionTrace>,
    registry: Seq<(Seq<char>, Seq<char>)>,
)
    requires
        0 <= position < visited.len(),
        visited[position].succeeded,
        logs_deltas(
            visited[position].receipt_logs@,
            trace_transaction(visited[position]),
            traces,
            registry,
        ) is None,
    ensures
        traces_deltas(visited, traces, registry) is None,
    decreases visited.len(),
{
    if position < visited.len() - 1 {
        assert(visited.drop_last()[position] == visited[position]);
        lemma_traces_fail(visited.drop_last(), position, traces, registry);
    }
}

} // verus!
