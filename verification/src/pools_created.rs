//! Pools as announced by a configurable factory.
//!
//! Every deployment event that the factory emits in a successful transaction
//! becomes a change-set of its own: the new pool with its two tokens, and
//! reserves and balances of zero.

use vstd::prelude::*;
use vstd::string::*;
use crate::address::{address_text, address_to_string_with_0x, text_bytes};
use crate::amount::{signed_encoding, to_signed_bytes_be, unsigned_be};
use crate::model::{
    block_header, copy_bytes, lemma_take_all, lemma_take_step, lemma_views_push, same_bytes,
    static_attribute, trace_transaction, views, Attribute, BalanceChange, BalanceChangeView, Block,
    BlockChanges, ChangeType, EntityChanges, EntityChangesView, Event, FinancialType,
    ImplementationType, Log, PoolDeployed, ProtocolComponent, ProtocolComponentView,
    ProtocolType, ProtocolTypeView, TransactionChanges, TransactionChangesView, TransactionTrace,
    TransactionView,
};

verus! {

/// What the stage is configured with.
#[derive(Debug, PartialEq, Eq)]
pub struct Params {
    pub factory_address: Vec<u8>,
    pub protocol_type_name: String,
}

/// The change-set that announces a pool.
pub open spec fn pool_announcement(
    deployed: PoolDeployed,
    tx: TransactionView,
    protocol_type_name: Seq<char>,
) -> TransactionChangesView {
    let id = address_text(deployed.pool@);
    TransactionChangesView {
        tx,
        contract_changes: Seq::empty(),
        entity_changes: seq![
            EntityChangesView {
                component_id: id,
                attributes: seq![
                    static_attribute("reserve0"@, signed_encoding(0)),
                    static_attribute("reserve1"@, signed_encoding(0)),
                ],
            },
        ],
        component_changes: seq![
            ProtocolComponentView {
                id,
                tokens: seq![deployed.asset0@, deployed.asset1@],
                contracts: Seq::empty(),
                static_att: seq![
                    static_attribute(
                        "feeMultiplier"@,
                        signed_encoding(unsigned_be(deployed.fee_multiplier@) as int),
                    ),
                    static_attribute("pool_address"@, deployed.pool@),
                ],
                change: ChangeType::Creation,
                protocol_type: Some(
                    ProtocolTypeView {
                        name: protocol_type_name,
                        financial_type: FinancialType::Swap,
                        attribute_schema: Seq::empty(),
                        implementation_type: ImplementationType::Custom,
                    },
                ),
            },
        ],
        balance_changes: seq![
            BalanceChangeView {
                token: deployed.asset0@,
                balance: signed_encoding(0),
                component_id: text_bytes(id),
            },
            BalanceChangeView {
                token: deployed.asset1@,
                balance: signed_encoding(0),
                component_id: text_bytes(id),
            },
        ],
    }
}

/// The pools that the receipt logs of one transaction announce: one for
/// every deployment event that the factory emitted.
pub open spec fn announced_in_logs(
    logs: Seq<Log>,
    tx: TransactionView,
    factory: Seq<u8>,
    protocol_type_name: Seq<char>,
) -> Seq<TransactionChangesView>
    decreases logs.len(),
{
    if logs.len() == 0 {
        Seq::empty()
    } else {
        let earlier = announced_in_logs(logs.drop_last(), tx, factory, protocol_type_name);
        if logs.last().address@ == factory && logs.last().event is PoolDeployed {
            earlier.push(
                pool_announcement(logs.last().event->PoolDeployed_0, tx, protocol_type_name),
            )
        } else {
            earlier
        }
    }
}

/// The pools that the successful transactions of a block announce, in order.
pub open spec fn announced_in_traces(
    traces: Seq<TransactionTrace>,
    factory: Seq<u8>,
    protocol_type_name: Seq<char>,
) -> Seq<TransactionChangesView>
    decreases traces.len(),
{
    if traces.len() == 0 {
        Seq::empty()
    } else {
        let earlier = announced_in_traces(traces.drop_last(), factory, protocol_type_name);
        if traces.last().succeeded {
            earlier + announced_in_logs(
                traces.last().receipt_logs@,
                trace_transaction(traces.last()),
                factory,
                protocol_type_name,
            )
        } else {
            earlier
        }
    }
}

/// The encoding of zero.
fn zero() -> (encoded: Vec<u8>)
    ensures
        encoded@ == signed_encoding(0),
{
    let nothing: Vec<u8> = Vec::new();
    to_signed_bytes_be(nothing.as_slice())
}

/// The change-set that announces a pool.
fn announce(event: &PoolDeployed, tx: &TransactionTrace, params: &Params) -> (changes:
    TransactionChanges)
    ensures
        changes@ == pool_announcement(*event, trace_transaction(*tx), params.protocol_type_name@),
{
    let id = address_to_string_with_0x(event.pool.as_slice());

    let mut attributes: Vec<Attribute> = Vec::new();
    attributes.push(Attribute::created("reserve0", zero()));
    attributes.push(Attribute::created("reserve1", zero()));
    let mut entity_changes: Vec<EntityChanges> = Vec::new();
    entity_changes.push(EntityChanges { component_id: id.clone(), attributes });

    let mut tokens: Vec<Vec<u8>> = Vec::new();
    tokens.push(copy_bytes(event.asset0.as_slice()));
    tokens.push(copy_bytes(event.asset1.as_slice()));
    let mut static_att: Vec<Attribute> = Vec::new();
    static_att.push(
        Attribute::created("feeMultiplier", to_signed_bytes_be(event.fee_multiplier.as_slice())),
    );
    static_att.push(Attribute::created("pool_address", copy_bytes(event.pool.as_slice())));
    let mut component_changes: Vec<ProtocolComponent> = Vec::new();
    component_changes.push(
        ProtocolComponent {
            id: id.clone(),
            tokens,
            contracts: Vec::new(),
            static_att,
            change: ChangeType::Creation,
            protocol_type: Some(
                ProtocolType {
                    name: params.protocol_type_name.clone(),
                    financial_type: FinancialType::Swap,
                    attribute_schema: Vec::new(),
                    implementation_type: ImplementationType::Custom,
                },
            ),
        },
    );

    let mut balance_changes: Vec<BalanceChange> = Vec::new();
    balance_changes.push(
        BalanceChange {
            token: copy_bytes(event.asset0.as_slice()),
            balance: zero(),
            component_id: id.as_str().as_bytes_vec(),
        },
    );
    balance_changes.push(
        BalanceChange {
            token: copy_bytes(event.asset1.as_slice()),
            balance: zero(),
            component_id: id.as_str().as_bytes_vec(),
        },
    );

    let changes = TransactionChanges {
        tx: tx.transaction(),
        contract_changes: Vec::new(),
        entity_changes,
        component_changes,
        balance_changes,
    };
    proof {
        let expected = pool_announcement(
            *event,
            trace_transaction(*tx),
            params.protocol_type_name@,
        );
        assert(changes@.contract_changes =~= expected.contract_changes);
        assert(changes@.entity_changes[0].attributes =~= expected.entity_changes[0].attributes);
        assert(changes@.entity_changes =~= expected.entity_changes);
        let made = changes@.component_changes[0];
        let wanted = expected.component_changes[0];
        assert(made.tokens =~= wanted.tokens);
        assert(made.contracts =~= wanted.contracts);
        assert(made.static_att =~= wanted.static_att);
        assert(made.protocol_type.unwrap().attribute_schema
            =~= wanted.protocol_type.unwrap().attribute_schema);
        assert(changes@.component_changes =~= expected.component_changes);
        assert(changes@.balance_changes =~= expected.balance_changes);
    }
    changes
}

/// Appends the pools that the factory announces in a block.
pub fn get_pools(block: &Block, new_pools: &mut Vec<TransactionChanges>, params: &Params)
    ensures
        views(final(new_pools)@) == views(old(new_pools)@) + announced_in_traces(
            block.transaction_traces@,
            params.factory_address@,
            params.protocol_type_name@,
        ),
{
    let traces = &block.transaction_traces;
    let ghost before = views(new_pools@);
    let ghost factory = params.factory_address@;
    let ghost name = params.protocol_type_name@;
    let mut t: usize = 0;
    proof {
        lemma_take_all(traces@);
        assert(before + Seq::<TransactionChangesView>::empty() =~= before);
    }
    while t < traces.len()
        invariant
            t <= traces.len(),
            traces == &block.transaction_traces,
            factory == params.factory_address@,
            name == params.protocol_type_name@,
            views(new_pools@) == before + announced_in_traces(traces@.take(t as int), factory, name),
        decreases traces.len() - t,
    {
        let trace = &traces[t];
        proof {
            lemma_take_step(traces@, t as int);
        }
        if trace.succeeded {
            let logs = &trace.receipt_logs;
            let ghost start = views(new_pools@);
            let ghost tx = trace_transaction(*trace);
            let mut l: usize = 0;
            proof {
                lemma_take_all(logs@);
                assert(start + Seq::<TransactionChangesView>::empty() =~= start);
            }
            while l < logs.len()
                invariant
                    l <= logs.len(),
                    factory == params.factory_address@,
                    name == params.protocol_type_name@,
                    tx == trace_transaction(*trace),
                    views(new_pools@) == start + announced_in_logs(
                        logs@.take(l as int),
                        tx,
                        factory,
                        name,
                    ),
                decreases logs.len() - l,
            {
                let log = &logs[l];
                proof {
                    lemma_take_step(logs@, l as int);
                }
                if same_bytes(log.address.as_slice(), params.factory_address.as_slice()) {
                    match &log.event {
                        Event::PoolDeployed(event) => {
                            let changes = announce(event, trace, params);
                            proof {
                                lemma_views_push(new_pools@, changes);
                                assert(views(new_pools@).push(changes@) =~= start
                                    + announced_in_logs(logs@.take(l + 1), tx, factory, name));
                            }
                            new_pools.push(changes);
                        },
                        _ => {},
                    }
                }
                l += 1;
            }
            proof {
                lemma_take_all(logs@);
                let earlier = announced_in_traces(traces@.take(t as int), factory, name);
                let added = announced_in_logs(logs@, tx, factory, name);
                assert((before + earlier) + added =~= before + (earlier + added));
            }
        }
        t += 1;
    }
    proof {
        lemma_take_all(traces@);
    }
}

/// The change-sets that announce the pools of a block.
pub fn map_pools_created(params: &Params, block: &Block) -> (changes: BlockChanges)
    ensures
        changes@.block == block_header(*block),
        changes@.changes == announced_in_traces(
            block.transaction_traces@,
            params.factory_address@,
            params.protocol_type_name@,
        ),
{
    let mut new_pools: Vec<TransactionChanges> = Vec::new();
    assert(views(new_pools@) =~= Seq::<TransactionChangesView>::empty());
    get_pools(block, &mut new_pools, params);
    assert(views(new_pools@) =~= announced_in_traces(
        block.transaction_traces@,
        params.factory_address@,
        params.protocol_type_name@,
    ));
    BlockChanges { block: block.header(), changes: new_pools }
}

} // verus!
