//! The change-sets of a block.
//!
//! Everything that the earlier stages found is merged per transaction: the
//! pools a transaction created, the absolute balances that changed in it, the
//! storage of followed contracts that it wrote, and the cash of the vaults it
//! touched. A change to a contract is then attributed to the pool that the
//! contract belongs to, and the change-sets that say something leave in the
//! order of their transactions.

use vstd::prelude::*;
use itertools::Itertools;
use crate::address::{
    address_bytes, address_text, address_to_bytes_with_0x, decode_address, store_address,
    text_bytes,
};
use crate::change_set::{
    contract_addresses, emitted, empty_changes, is_marked, lemma_marks_are_emitted, lemma_update_mark,
    lemma_update_mark_ids, with_balance_change, with_component, with_contract_change,
    with_entity_change, with_update_mark, TransactionChangesBuilder,
};
use crate::constants::{
    is_fixed_address, is_known_fixed_address, EULERSWAP_IMPLEMENTATION,
    EVK_BORROWING_MODULE_IMPL, EVK_EVAULT_IMPL, EVK_GOVERNANCE_MODULE_IMPL,
    EVK_VAULT_MODULE_IMPL, PERMIT_2,
};
use crate::keyed::{first_index, lemma_first_index, lemma_first_index_absent, lemma_first_index_found};
use crate::model::{
    block_header, copy_bytes, lemma_take_all, lemma_take_step, lemma_views_push,
    lemma_views_update, static_attribute, trace_transaction, views, AccountBalanceChange, AccountBalanceChangeView,
    Attribute, AttributeView, Block, BlockChanges, BlockTransactionProtocolComponents, ChangeType,
    ContractChange, ContractChangeView, EntityChanges, EntityChangesView, ProtocolComponent,
    ProtocolComponentView, Transaction, TransactionBalanceChanges, TransactionBalanceChangesView,
    TransactionChanges, TransactionChangesView, TransactionContractChanges,
    TransactionContractChangesView, TransactionProtocolComponents,
    TransactionProtocolComponentsView, TransactionTrace, TransactionView,
};
use crate::registry::{
    latest, owning_pools, pool_key_text, vault_key_text, RegistryStore,
};
use crate::vault_cash::{get_eulerswap_vaults_balances, scan_calls, VaultCash, VaultCashView};

verus! {

// ---------------------------------------------------------------------------
// One builder per transaction
// ---------------------------------------------------------------------------

/// The transaction index of every builder.
pub open spec fn builder_indices(builders: Seq<TransactionChangesView>) -> Seq<u64> {
    builders.map_values(|builder: TransactionChangesView| builder.tx.index)
}

/// The builders with one for the given transaction among them: a new, empty
/// one at the end unless one with the transaction's index is there already.
pub open spec fn with_builder(
    builders: Seq<TransactionChangesView>,
    tx: TransactionView,
) -> Seq<TransactionChangesView> {
    if first_index(builder_indices(builders), tx.index) is Some {
        builders
    } else {
        builders.push(empty_changes(tx))
    }
}

/// The position of the builder for a transaction index.
pub open spec fn builder_position(builders: Seq<TransactionChangesView>, index: u64) -> int {
    match first_index(builder_indices(builders), index) {
        Some(position) => position,
        None => 0,
    }
}

/// The position of the builder for a transaction index.
fn position_of_index(builders: &Vec<TransactionChangesBuilder>, index: u64) -> (found: Option<
    usize,
>)
    ensures
        match found {
            Some(at) => at < builders@.len() && first_index(
                builder_indices(views(builders@)),
                index,
            ) == Some(at as int),
            None => first_index(builder_indices(views(builders@)), index) is None,
        },
{
    let ghost keys = builder_indices(views(builders@));
    let mut p: usize = 0;
    while p < builders.len()
        invariant
            p <= builders.len(),
            keys == builder_indices(views(builders@)),
            forall|j: int| 0 <= j < p ==> keys[j] != index,
        decreases builders.len() - p,
    {
        assert(keys[p as int] == builders@[p as int]@.tx.index);
        if builders[p].index() == index {
            proof {
                lemma_first_index_found(keys, index, p as int);
            }
            return Some(p);
        }
        p += 1;
    }
    proof {
        lemma_first_index_absent(keys, index);
    }
    None
}

/// The position of the builder for a transaction, which is added if it is
/// not there yet.
fn builder_for(builders: &mut Vec<TransactionChangesBuilder>, tx: &Transaction) -> (position: usize)
    requires
        builder_indices(views(old(builders)@)).no_duplicates(),
    ensures
        views(final(builders)@) == with_builder(views(old(builders)@), tx@),
        position < final(builders)@.len(),
        position == builder_position(views(final(builders)@), tx.index),
        first_index(builder_indices(views(final(builders)@)), tx.index) == Some(position as int),
        builder_indices(views(final(builders)@)).no_duplicates(),
{
    let ghost keys = builder_indices(views(builders@));
    match position_of_index(builders, tx.index) {
        Some(position) => position,
        None => {
            let builder = TransactionChangesBuilder::new(tx);
            let position = builders.len();
            proof {
                lemma_views_push(builders@, builder);
                let longer = keys.push(tx.index);
                assert(builder_indices(views(builders@).push(builder@)) =~= longer);
                lemma_first_index(keys, tx.index);
                lemma_first_index_found(longer, tx.index, keys.len() as int);
            }
            builders.push(builder);
            position
        },
    }
}

/// Replacing a builder by one for the same transaction leaves the indices as
/// they were.
proof fn lemma_indices_kept(
    builders: Seq<TransactionChangesView>,
    position: int,
    builder: TransactionChangesView,
)
    requires
        0 <= position < builders.len(),
        builder.tx == builders[position].tx,
    ensures
        builder_indices(builders.update(position, builder)) == builder_indices(builders),
{
    assert(builder_indices(builders.update(position, builder)) =~= builder_indices(builders));
}

// ---------------------------------------------------------------------------
// Created components
// ---------------------------------------------------------------------------

/// The attributes that every created pool starts with: a marker that holds
/// the pool's address, and the addresses of the shared contracts that a
/// simulation of the pool needs, each as `0x` hexadecimal text.
pub open spec fn component_attributes(component: ProtocolComponentView) -> Seq<AttributeView> {
    seq![
        static_attribute("update_marker"@, address_bytes(text_bytes(component.id))),
        static_attribute("stateless_contract_addr_0"@, text_bytes(address_text(EVK_EVAULT_IMPL@))),
        static_attribute("stateless_contract_addr_1"@, text_bytes(address_text(EVK_VAULT_MODULE_IMPL@))),
        static_attribute("stateless_contract_addr_2"@, text_bytes(address_text(EVK_BORROWING_MODULE_IMPL@))),
        static_attribute("stateless_contract_addr_3"@, text_bytes(address_text(EVK_GOVERNANCE_MODULE_IMPL@))),
        static_attribute("stateless_contract_addr_4"@, text_bytes(address_text(PERMIT_2@))),
        static_attribute("stateless_contract_addr_5"@, text_bytes(address_text(EULERSWAP_IMPLEMENTATION@))),
    ]
}

/// A change-set after a created pool is added to it, with its starting
/// attributes.
pub open spec fn with_new_component(
    changes: TransactionChangesView,
    component: ProtocolComponentView,
) -> TransactionChangesView {
    TransactionChangesView {
        component_changes: with_component(changes.component_changes, component),
        entity_changes: with_entity_change(
            changes.entity_changes,
            EntityChangesView {
                component_id: component.id,
                attributes: component_attributes(component),
            },
        ),
        ..changes
    }
}

/// A change-set after several created pools are added to it.
pub open spec fn with_new_components(
    changes: TransactionChangesView,
    components: Seq<ProtocolComponentView>,
) -> TransactionChangesView
    decreases components.len(),
{
    if components.len() == 0 {
        changes
    } else {
        with_new_component(
            with_new_components(changes, components.drop_last()),
            components.last(),
        )
    }
}

/// The builders after the pools that one transaction created are added.
pub open spec fn with_tx_components(
    builders: Seq<TransactionChangesView>,
    created: TransactionProtocolComponentsView,
) -> Seq<TransactionChangesView> {
    let opened = with_builder(builders, created.tx);
    let position = builder_position(opened, created.tx.index);
    opened.update(position, with_new_components(opened[position], created.components))
}

/// The builders after the pools that a block created are added.
pub open spec fn with_block_components(
    builders: Seq<TransactionChangesView>,
    created: Seq<TransactionProtocolComponentsView>,
) -> Seq<TransactionChangesView>
    decreases created.len(),
{
    if created.len() == 0 {
        builders
    } else {
        with_tx_components(with_block_components(builders, created.drop_last()), created.last())
    }
}

/// The attributes that a created pool starts with.
fn default_attributes(component: &ProtocolComponent) -> (attributes: Vec<Attribute>)
    ensures
        views(attributes@) == component_attributes(component@),
{
    let mut attributes: Vec<Attribute> = Vec::new();
    attributes.push(Attribute::created("update_marker", decode_address(component.id.as_str())));
    attributes.push(
        Attribute::created(
            "stateless_contract_addr_0",
            address_to_bytes_with_0x(EVK_EVAULT_IMPL.as_slice()),
        ),
    );
    attributes.push(
        Attribute::created(
            "stateless_contract_addr_1",
            address_to_bytes_with_0x(EVK_VAULT_MODULE_IMPL.as_slice()),
        ),
    );
    attributes.push(
        Attribute::created(
            "stateless_contract_addr_2",
            address_to_bytes_with_0x(EVK_BORROWING_MODULE_IMPL.as_slice()),
        ),
    );
    attributes.push(
        Attribute::created(
            "stateless_contract_addr_3",
            address_to_bytes_with_0x(EVK_GOVERNANCE_MODULE_IMPL.as_slice()),
        ),
    );
    attributes.push(
        Attribute::created("stateless_contract_addr_4", address_to_bytes_with_0x(PERMIT_2.as_slice())),
    );
    attributes.push(
        Attribute::created(
            "stateless_contract_addr_5",
            address_to_bytes_with_0x(EULERSWAP_IMPLEMENTATION.as_slice()),
        ),
    );
    assert(views(attributes@) =~= component_attributes(component@));
    attributes
}

/// Adds the pools that one transaction created.
fn add_tx_components(
    builders: &mut Vec<TransactionChangesBuilder>,
    created: &TransactionProtocolComponents,
)
    requires
        builder_indices(views(old(builders)@)).no_duplicates(),
    ensures
        views(final(builders)@) == with_tx_components(views(old(builders)@), created@),
        builder_indices(views(final(builders)@)).no_duplicates(),
{
    let position = builder_for(builders, &created.tx);
    let ghost opened = views(builders@);
    let ghost listed = views(created.components@);
    let mut i: usize = 0;
    proof {
        lemma_take_all(listed);
        assert(opened.update(position as int, opened[position as int]) =~= opened);
    }
    while i < created.components.len()
        invariant
            i <= created.components.len(),
            position < builders@.len(),
            builders@.len() == opened.len(),
            listed == views(created.components@),
            builder_indices(opened).no_duplicates(),
            views(builders@) == opened.update(
                position as int,
                with_new_components(opened[position as int], listed.take(i as int)),
            ),
        decreases created.components.len() - i,
    {
        let component = &created.components[i];
        proof {
            lemma_take_step(listed, i as int);
            assert(listed[i as int] == component@);
        }
        let ghost before = builders@;
        assert(views(before)[position as int] == before[position as int]@);
        builders[position].add_protocol_component(component);
        let change = EntityChanges {
            component_id: component.id.clone(),
            attributes: default_attributes(component),
        };
        builders[position].add_entity_change(&change);
        proof {
            lemma_views_update(before, position as int, builders@[position as int]);
            assert(builders@ =~= before.update(position as int, builders@[position as int]));
            assert(views(builders@) =~= opened.update(
                position as int,
                with_new_components(opened[position as int], listed.take(i + 1)),
            ));
        }
        i += 1;
    }
    proof {
        lemma_take_all(listed);
        lemma_with_new_components_tx(opened[position as int], listed);
        lemma_indices_kept(
            opened,
            position as int,
            with_new_components(opened[position as int], listed),
        );
    }
}

/// Adding created pools leaves the transaction, the contracts and the
/// balances as they are.
proof fn lemma_with_new_components_tx(
    changes: TransactionChangesView,
    components: Seq<ProtocolComponentView>,
)
    ensures
        with_new_components(changes, components).tx == changes.tx,
        with_new_components(changes, components).contract_changes == changes.contract_changes,
        with_new_components(changes, components).balance_changes == changes.balance_changes,
    decreases components.len(),
{
    if components.len() > 0 {
        lemma_with_new_components_tx(changes, components.drop_last());
    }
}

/// Adds the pools that a block created.
fn add_block_components(
    builders: &mut Vec<TransactionChangesBuilder>,
    new_components: &BlockTransactionProtocolComponents,
)
    requires
        builder_indices(views(old(builders)@)).no_duplicates(),
    ensures
        views(final(builders)@) == with_block_components(views(old(builders)@), new_components@),
        builder_indices(views(final(builders)@)).no_duplicates(),
{
    let ghost listed = new_components@;
    let mut i: usize = 0;
    proof {
        lemma_take_all(listed);
    }
    while i < new_components.tx_components.len()
        invariant
            i <= new_components.tx_components.len(),
            listed == new_components@,
            builder_indices(views(builders@)).no_duplicates(),
            views(builders@) == with_block_components(views(old(builders)@), listed.take(i as int)),
        decreases new_components.tx_components.len() - i,
    {
        proof {
            lemma_take_step(listed, i as int);
            assert(listed[i as int] == new_components.tx_components@[i as int]@);
        }
        add_tx_components(builders, &new_components.tx_components[i]);
        i += 1;
    }
    proof {
        lemma_take_all(listed);
    }
}

// ---------------------------------------------------------------------------
// Balance changes
// ---------------------------------------------------------------------------

/// A change-set after several balance changes are added to it.
pub open spec fn with_balance_changes(
    changes: TransactionChangesView,
    added: Seq<crate::model::BalanceChangeView>,
) -> TransactionChangesView
    decreases added.len(),
{
    if added.len() == 0 {
        changes
    } else {
        let earlier = with_balance_changes(changes, added.drop_last());
        TransactionChangesView {
            balance_changes: with_balance_change(earlier.balance_changes, added.last()),
            ..earlier
        }
    }
}

/// The builders after the absolute balances that changed in one transaction
/// are added.
pub open spec fn with_tx_balances(
    builders: Seq<TransactionChangesView>,
    changed: TransactionBalanceChangesView,
) -> Seq<TransactionChangesView> {
    let opened = with_builder(builders, changed.tx);
    let position = builder_position(opened, changed.tx.index);
    opened.update(position, with_balance_changes(opened[position], changed.balance_changes))
}

/// The builders after the absolute balances that changed in a block are
/// added.
pub open spec fn with_block_balances(
    builders: Seq<TransactionChangesView>,
    changed: Seq<TransactionBalanceChangesView>,
) -> Seq<TransactionChangesView>
    decreases changed.len(),
{
    if changed.len() == 0 {
        builders
    } else {
        with_tx_balances(with_block_balances(builders, changed.drop_last()), changed.last())
    }
}

/// Adding balance changes leaves the transaction as it is.
proof fn lemma_with_balance_changes_tx(
    changes: TransactionChangesView,
    added: Seq<crate::model::BalanceChangeView>,
)
    ensures
        with_balance_changes(changes, added).tx == changes.tx,
    decreases added.len(),
{
    if added.len() > 0 {
        lemma_with_balance_changes_tx(changes, added.drop_last());
    }
}

/// Adds the absolute balances that changed in one transaction.
fn add_tx_balances(
    builders: &mut Vec<TransactionChangesBuilder>,
    changed: &TransactionBalanceChanges,
)
    requires
        builder_indices(views(old(builders)@)).no_duplicates(),
    ensures
        views(final(builders)@) == with_tx_balances(views(old(builders)@), changed@),
        builder_indices(views(final(builders)@)).no_duplicates(),
{
    let position = builder_for(builders, &changed.tx);
    let ghost opened = views(builders@);
    let ghost listed = views(changed.balance_changes@);
    let mut i: usize = 0;
    proof {
        lemma_take_all(listed);
        assert(opened.update(position as int, opened[position as int]) =~= opened);
    }
    while i < changed.balance_changes.len()
        invariant
            i <= changed.balance_changes.len(),
            position < builders@.len(),
            builders@.len() == opened.len(),
            listed == views(changed.balance_changes@),
            views(builders@) == opened.update(
                position as int,
                with_balance_changes(opened[position as int], listed.take(i as int)),
            ),
        decreases changed.balance_changes.len() - i,
    {
        let change = &changed.balance_changes[i];
        proof {
            lemma_take_step(listed, i as int);
            assert(listed[i as int] == change@);
        }
        let ghost before = builders@;
        assert(views(before)[position as int] == before[position as int]@);
        builders[position].add_balance_change(change);
        proof {
            lemma_views_update(before, position as int, builders@[position as int]);
            assert(builders@ =~= before.update(position as int, builders@[position as int]));
            assert(views(builders@) =~= opened.update(
                position as int,
                with_balance_changes(opened[position as int], listed.take(i + 1)),
            ));
        }
        i += 1;
    }
    proof {
        lemma_take_all(listed);
        lemma_with_balance_changes_tx(opened[position as int], listed);
        lemma_indices_kept(
            opened,
            position as int,
            with_balance_changes(opened[position as int], listed),
        );
    }
}

/// Adds the absolute balances that changed in a block.
fn add_block_balances(
    builders: &mut Vec<TransactionChangesBuilder>,
    changed: &Vec<TransactionBalanceChanges>,
)
    requires
        builder_indices(views(old(builders)@)).no_duplicates(),
    ensures
        views(final(builders)@) == with_block_balances(views(old(builders)@), views(changed@)),
        builder_indices(views(final(builders)@)).no_duplicates(),
{
    let ghost listed = views(changed@);
    let mut i: usize = 0;
    proof {
        lemma_take_all(listed);
    }
    while i < changed.len()
        invariant
            i <= changed.len(),
            listed == views(changed@),
            builder_indices(views(builders@)).no_duplicates(),
            views(builders@) == with_block_balances(views(old(builders)@), listed.take(i as int)),
        decreases changed.len() - i,
    {
        proof {
            lemma_take_step(listed, i as int);
            assert(listed[i as int] == changed@[i as int]@);
        }
        add_tx_balances(builders, &changed[i]);
        i += 1;
    }
    proof {
        lemma_take_all(listed);
    }
}

// ---------------------------------------------------------------------------
// Storage of followed contracts
// ---------------------------------------------------------------------------

/// Whether the storage of a contract is followed: the contract is a
/// registered pool, a registered vault, or one of the shared contracts.
pub open spec fn is_tracked(address: Seq<u8>, registry: Seq<(Seq<char>, Seq<char>)>) -> bool {
    ||| latest(registry, pool_key_text(address_text(address))) is Some
    ||| latest(registry, vault_key_text(address_text(address))) is Some
    ||| is_fixed_address(address)
}

/// Whether the storage of a contract is followed.
pub fn is_tracked_contract(components_store: &RegistryStore, address: &[u8]) -> (followed: bool)
    ensures
        followed == is_tracked(address@, components_store@),
{
    let text = store_address(address);
    let is_pool = components_store.is_pool(text.as_str());
    let is_vault = components_store.is_vault(text.as_str());
    let is_known_fixed_address = is_known_fixed_address(address);
    is_pool || is_vault || is_known_fixed_address
}

/// A change-set after the changes of followed contracts are merged in.
/// Changes of other contracts are dropped.
pub open spec fn with_tracked_changes(
    changes: TransactionChangesView,
    added: Seq<ContractChangeView>,
    registry: Seq<(Seq<char>, Seq<char>)>,
) -> TransactionChangesView
    decreases added.len(),
{
    if added.len() == 0 {
        changes
    } else {
        let earlier = with_tracked_changes(changes, added.drop_last(), registry);
        if is_tracked(added.last().address, registry) {
            TransactionChangesView {
                contract_changes: with_contract_change(earlier.contract_changes, added.last()),
                ..earlier
            }
        } else {
            earlier
        }
    }
}

/// Only followed contracts get in: every contract of the change-set was
/// there before or is followed.
pub proof fn lemma_tracked_changes_only(
    changes: TransactionChangesView,
    added: Seq<ContractChangeView>,
    registry: Seq<(Seq<char>, Seq<char>)>,
    position: int,
)
    requires
        0 <= position < with_tracked_changes(changes, added, registry).contract_changes.len(),
    ensures
        is_tracked(
            with_tracked_changes(changes, added, registry).contract_changes[position].address,
            registry,
        ) || (position < changes.contract_changes.len() && with_tracked_changes(
            changes,
            added,
            registry,
        ).contract_changes[position].address == changes.contract_changes[position].address),
    decreases added.len(),
{
    if added.len() > 0 {
        let earlier = with_tracked_changes(changes, added.drop_last(), registry);
        if is_tracked(added.last().address, registry) {
            let addresses = contract_addresses(earlier.contract_changes);
            lemma_first_index(addresses, added.last().address);
            match first_index(addresses, added.last().address) {
                Some(at) => {
                    assert(addresses[at] == earlier.contract_changes[at].address);
                    if position != at {
                        lemma_tracked_changes_only(changes, added.drop_last(), registry, position);
                    }
                },
                None => {
                    if position < earlier.contract_changes.len() {
                        lemma_tracked_changes_only(changes, added.drop_last(), registry, position);
                    }
                },
            }
        } else {
            lemma_tracked_changes_only(changes, added.drop_last(), registry, position);
        }
    }
}

/// The builders after the contract changes of one transaction are added.
pub open spec fn with_tx_storage(
    builders: Seq<TransactionChangesView>,
    changed: TransactionContractChangesView,
    registry: Seq<(Seq<char>, Seq<char>)>,
) -> Seq<TransactionChangesView> {
    let opened = with_builder(builders, changed.tx);
    let position = builder_position(opened, changed.tx.index);
    opened.update(
        position,
        with_tracked_changes(opened[position], changed.contract_changes, registry),
    )
}

/// The builders after the contract changes of a block are added.
pub open spec fn with_block_storage(
    builders: Seq<TransactionChangesView>,
    changed: Seq<TransactionContractChangesView>,
    registry: Seq<(Seq<char>, Seq<char>)>,
) -> Seq<TransactionChangesView>
    decreases changed.len(),
{
    if changed.len() == 0 {
        builders
    } else {
        with_tx_storage(
            with_block_storage(builders, changed.drop_last(), registry),
            changed.last(),
            registry,
        )
    }
}

/// Adding contract changes leaves the transaction as it is.
proof fn lemma_with_tracked_changes_tx(
    changes: TransactionChangesView,
    added: Seq<ContractChangeView>,
    registry: Seq<(Seq<char>, Seq<char>)>,
)
    ensures
        with_tracked_changes(changes, added, registry).tx == changes.tx,
    decreases added.len(),
{
    if added.len() > 0 {
        lemma_with_tracked_changes_tx(changes, added.drop_last(), registry);
    }
}

/// Adds the contract changes of one transaction.
fn add_tx_storage(
    builders: &mut Vec<TransactionChangesBuilder>,
    changed: &TransactionContractChanges,
    components_store: &RegistryStore,
)
    requires
        builder_indices(views(old(builders)@)).no_duplicates(),
    ensures
        views(final(builders)@) == with_tx_storage(
            views(old(builders)@),
            changed@,
            components_store@,
        ),
        builder_indices(views(final(builders)@)).no_duplicates(),
{
    let position = builder_for(builders, &changed.tx);
    let ghost opened = views(builders@);
    let ghost listed = views(changed.contract_changes@);
    let mut i: usize = 0;
    proof {
        lemma_take_all(listed);
        assert(opened.update(position as int, opened[position as int]) =~= opened);
    }
    while i < changed.contract_changes.len()
        invariant
            i <= changed.contract_changes.len(),
            position < builders@.len(),
            builders@.len() == opened.len(),
            listed == views(changed.contract_changes@),
            views(builders@) == opened.update(
                position as int,
                with_tracked_changes(
                    opened[position as int],
                    listed.take(i as int),
                    components_store@,
                ),
            ),
        decreases changed.contract_changes.len() - i,
    {
        let change = &changed.contract_changes[i];
        proof {
            lemma_take_step(listed, i as int);
            assert(listed[i as int] == change@);
        }
        if is_tracked_contract(components_store, change.address.as_slice()) {
            let ghost before = builders@;
            assert(views(before)[position as int] == before[position as int]@);
            builders[position].add_contract_changes(change);
            proof {
                lemma_views_update(before, position as int, builders@[position as int]);
                assert(builders@ =~= before.update(position as int, builders@[position as int]));
                assert(views(builders@) =~= opened.update(
                    position as int,
                    with_tracked_changes(
                        opened[position as int],
                        listed.take(i + 1),
                        components_store@,
                    ),
                ));
            }
        }
        i += 1;
    }
    proof {
        lemma_take_all(listed);
        lemma_with_tracked_changes_tx(opened[position as int], listed, components_store@);
        lemma_indices_kept(
            opened,
            position as int,
            with_tracked_changes(opened[position as int], listed, components_store@),
        );
    }
}

/// Adds the contract changes of a block.
fn add_block_storage(
    builders: &mut Vec<TransactionChangesBuilder>,
    changed: &Vec<TransactionContractChanges>,
    components_store: &RegistryStore,
)
    requires
        builder_indices(views(old(builders)@)).no_duplicates(),
    ensures
        views(final(builders)@) == with_block_storage(
            views(old(builders)@),
            views(changed@),
            components_store@,
        ),
        builder_indices(views(final(builders)@)).no_duplicates(),
{
    let ghost listed = views(changed@);
    let mut i: usize = 0;
    proof {
        lemma_take_all(listed);
    }
    while i < changed.len()
        invariant
            i <= changed.len(),
            listed == views(changed@),
            builder_indices(views(builders@)).no_duplicates(),
            views(builders@) == with_block_storage(
                views(old(builders)@),
                listed.take(i as int),
                components_store@,
            ),
        decreases changed.len() - i,
    {
        proof {
            lemma_take_step(listed, i as int);
            assert(listed[i as int] == changed@[i as int]@);
        }
        add_tx_storage(builders, &changed[i], components_store);
        i += 1;
    }
    proof {
        lemma_take_all(listed);
    }
}

// ---------------------------------------------------------------------------
// Vault cash
// ---------------------------------------------------------------------------

/// A vault's cash as a contract change: the vault's balance of its asset is
/// overwritten with the snapshot.
pub open spec fn cash_overwrite(cash: VaultCashView) -> ContractChangeView {
    ContractChangeView {
        address: cash.vault,
        balance: Seq::empty(),
        code: Seq::empty(),
        slots: Seq::empty(),
        change: ChangeType::Update,
        token_balances: seq![AccountBalanceChangeView { token: cash.token, balance: cash.value }],
    }
}

/// A change-set after the cash of several vaults is written into it.
pub open spec fn with_cash_overwrites(
    changes: TransactionChangesView,
    snapshots: Seq<VaultCashView>,
) -> TransactionChangesView
    decreases snapshots.len(),
{
    if snapshots.len() == 0 {
        changes
    } else {
        let earlier = with_cash_overwrites(changes, snapshots.drop_last());
        TransactionChangesView {
            contract_changes: with_contract_change(
                earlier.contract_changes,
                cash_overwrite(snapshots.last()),
            ),
            ..earlier
        }
    }
}

/// The builders after the vault cash of one transaction is added. A
/// transaction without a snapshot gets no builder on that account.
pub open spec fn with_trace_cash(
    builders: Seq<TransactionChangesView>,
    trace: TransactionTrace,
    registry: Seq<(Seq<char>, Seq<char>)>,
) -> Seq<TransactionChangesView> {
    let snapshots = scan_calls(Seq::empty(), trace.calls@, registry);
    if snapshots.len() == 0 {
        builders
    } else {
        let opened = with_builder(builders, trace_transaction(trace));
        let position = builder_position(opened, trace.index as u64);
        opened.update(position, with_cash_overwrites(opened[position], snapshots))
    }
}

/// The builders after the vault cash of a block is added.
pub open spec fn with_block_cash(
    builders: Seq<TransactionChangesView>,
    traces: Seq<TransactionTrace>,
    registry: Seq<(Seq<char>, Seq<char>)>,
) -> Seq<TransactionChangesView>
    decreases traces.len(),
{
    if traces.len() == 0 {
        builders
    } else {
        with_trace_cash(
            with_block_cash(builders, traces.drop_last(), registry),
            traces.last(),
            registry,
        )
    }
}

/// Writing vault cash leaves the transaction as it is.
proof fn lemma_with_cash_overwrites_tx(
    changes: TransactionChangesView,
    snapshots: Seq<VaultCashView>,
)
    ensures
        with_cash_overwrites(changes, snapshots).tx == changes.tx,
    decreases snapshots.len(),
{
    if snapshots.len() > 0 {
        lemma_with_cash_overwrites_tx(changes, snapshots.drop_last());
    }
}

/// A vault's cash as a contract change.
fn cash_overwrite_of(cash: &VaultCash) -> (change: ContractChange)
    ensures
        change@ == cash_overwrite(cash@),
{
    let mut token_balances: Vec<AccountBalanceChange> = Vec::new();
    token_balances.push(
        AccountBalanceChange {
            token: copy_bytes(cash.token.as_slice()),
            balance: copy_bytes(cash.balance.value.as_slice()),
        },
    );
    let change = ContractChange {
        address: copy_bytes(cash.vault.as_slice()),
        balance: Vec::new(),
        code: Vec::new(),
        slots: Vec::new(),
        change: ChangeType::Update,
        token_balances,
    };
    assert(change@.token_balances =~= cash_overwrite(cash@).token_balances);
    assert(change@.slots =~= cash_overwrite(cash@).slots);
    change
}

/// Adds the vault cash of one transaction.
fn add_trace_cash(
    builders: &mut Vec<TransactionChangesBuilder>,
    trace: &TransactionTrace,
    components_store: &RegistryStore,
)
    requires
        builder_indices(views(old(builders)@)).no_duplicates(),
    ensures
        views(final(builders)@) == with_trace_cash(views(old(builders)@), *trace, components_store@),
        builder_indices(views(final(builders)@)).no_duplicates(),
{
    let vault_balances = get_eulerswap_vaults_balances(trace, components_store);
    if vault_balances.is_empty() {
        return ;
    }
    let tycho_tx = trace.transaction();
    let position = builder_for(builders, &tycho_tx);
    let ghost opened = views(builders@);
    let ghost listed = vault_balances@;
    let mut i: usize = 0;
    proof {
        lemma_take_all(listed);
        assert(opened.update(position as int, opened[position as int]) =~= opened);
    }
    while i < vault_balances.len()
        invariant
            i <= vault_balances@.len(),
            position < builders@.len(),
            builders@.len() == opened.len(),
            listed == vault_balances@,
            views(builders@) == opened.update(
                position as int,
                with_cash_overwrites(opened[position as int], listed.take(i as int)),
            ),
        decreases vault_balances@.len() - i,
    {
        let change = cash_overwrite_of(vault_balances.snapshot(i));
        proof {
            lemma_take_step(listed, i as int);
        }
        let ghost before = builders@;
        assert(views(before)[position as int] == before[position as int]@);
        builders[position].add_contract_changes(&change);
        proof {
            lemma_views_update(before, position as int, builders@[position as int]);
            assert(builders@ =~= before.update(position as int, builders@[position as int]));
            assert(views(builders@) =~= opened.update(
                position as int,
                with_cash_overwrites(opened[position as int], listed.take(i + 1)),
            ));
        }
        i += 1;
    }
    proof {
        lemma_take_all(listed);
        lemma_with_cash_overwrites_tx(opened[position as int], listed);
        lemma_indices_kept(
            opened,
            position as int,
            with_cash_overwrites(opened[position as int], listed),
        );
    }
}

/// Adds the vault cash of a block.
fn add_block_cash(
    builders: &mut Vec<TransactionChangesBuilder>,
    block: &Block,
    components_store: &RegistryStore,
)
    requires
        builder_indices(views(old(builders)@)).no_duplicates(),
    ensures
        views(final(builders)@) == with_block_cash(
            views(old(builders)@),
            block.transaction_traces@,
            components_store@,
        ),
        builder_indices(views(final(builders)@)).no_duplicates(),
{
    let traces = &block.transaction_traces;
    let mut i: usize = 0;
    proof {
        lemma_take_all(traces@);
    }
    while i < traces.len()
        invariant
            i <= traces.len(),
            traces == &block.transaction_traces,
            builder_indices(views(builders@)).no_duplicates(),
            views(builders@) == with_block_cash(
                views(old(builders)@),
                traces@.take(i as int),
                components_store@,
            ),
        decreases traces.len() - i,
    {
        proof {
            lemma_take_step(traces@, i as int);
        }
        add_trace_cash(builders, &traces[i], components_store);
        i += 1;
    }
    proof {
        lemma_take_all(traces@);
    }
}

// ---------------------------------------------------------------------------
// Reconciliation
// ---------------------------------------------------------------------------

/// The entity changes after each of a list of pools is marked as updated.
pub open spec fn with_owner_marks(
    entities: Seq<EntityChangesView>,
    owners: Seq<Seq<char>>,
) -> Seq<EntityChangesView>
    decreases owners.len(),
{
    if owners.len() == 0 {
        entities
    } else {
        with_update_mark(with_owner_marks(entities, owners.drop_last()), owners.last())
    }
}

/// The entity changes after a changed contract is attributed. A registered
/// vault marks the pools that own it and is never itself taken for a pool;
/// any other contract marks the pool registered under its address, if there
/// is one.
pub open spec fn with_address_marks(
    entities: Seq<EntityChangesView>,
    address: Seq<u8>,
    registry: Seq<(Seq<char>, Seq<char>)>,
) -> Seq<EntityChangesView> {
    let text = address_text(address);
    if latest(registry, vault_key_text(text)) is Some {
        with_owner_marks(entities, owning_pools(registry, text))
    } else {
        match latest(registry, pool_key_text(text)) {
            Some(component_id) => with_update_mark(entities, component_id),
            None => entities,
        }
    }
}

/// The entity changes after several changed contracts are attributed, one
/// after the other.
pub open spec fn with_addresses_marks(
    entities: Seq<EntityChangesView>,
    addresses: Seq<Seq<u8>>,
    registry: Seq<(Seq<char>, Seq<char>)>,
) -> Seq<EntityChangesView>
    decreases addresses.len(),
{
    if addresses.len() == 0 {
        entities
    } else {
        with_address_marks(
            with_addresses_marks(entities, addresses.drop_last(), registry),
            addresses.last(),
            registry,
        )
    }
}

/// A change-set after every contract it changes is attributed to its pool.
pub open spec fn reconciled(
    changes: TransactionChangesView,
    registry: Seq<(Seq<char>, Seq<char>)>,
) -> TransactionChangesView {
    TransactionChangesView {
        entity_changes: with_addresses_marks(
            changes.entity_changes,
            contract_addresses(changes.contract_changes),
            registry,
        ),
        ..changes
    }
}

/// The builders after each of them is reconciled.
pub open spec fn all_reconciled(
    builders: Seq<TransactionChangesView>,
    registry: Seq<(Seq<char>, Seq<char>)>,
) -> Seq<TransactionChangesView> {
    builders.map_values(|changes: TransactionChangesView| reconciled(changes, registry))
}

/// Marking the owners of a vault marks each of them, and leaves every other
/// mark in place.
pub proof fn lemma_owner_marks(
    entities: Seq<EntityChangesView>,
    owners: Seq<Seq<char>>,
    component_id: Seq<char>,
)
    ensures
        owners.contains(component_id) ==> is_marked(with_owner_marks(entities, owners), component_id),
        is_marked(entities, component_id) ==> is_marked(
            with_owner_marks(entities, owners),
            component_id,
        ),
    decreases owners.len(),
{
    if owners.len() > 0 {
        let earlier = with_owner_marks(entities, owners.drop_last());
        lemma_owner_marks(entities, owners.drop_last(), component_id);
        lemma_update_mark(earlier, owners.last(), component_id);
        if owners.contains(component_id) {
            let i = owners.index_of(component_id);
            if i < owners.len() - 1 {
                assert(owners.drop_last()[i] == component_id);
            }
        }
    }
}

/// Attributing a changed contract leaves every mark in place.
pub proof fn lemma_address_marks_kept(
    entities: Seq<EntityChangesView>,
    address: Seq<u8>,
    registry: Seq<(Seq<char>, Seq<char>)>,
    component_id: Seq<char>,
)
    requires
        is_marked(entities, component_id),
    ensures
        is_marked(with_address_marks(entities, address, registry), component_id),
{
    let text = address_text(address);
    if latest(registry, vault_key_text(text)) is Some {
        lemma_owner_marks(entities, owning_pools(registry, text), component_id);
    } else {
        match latest(registry, pool_key_text(text)) {
            Some(marked) => {
                lemma_update_mark(entities, marked, component_id);
            },
            None => {},
        }
    }
}

/// A change to a vault marks every pool that owns the vault as updated.
pub proof fn lemma_vault_change_marks_owners(
    changes: TransactionChangesView,
    registry: Seq<(Seq<char>, Seq<char>)>,
    position: int,
    owner: Seq<char>,
)
    requires
        0 <= position < changes.contract_changes.len(),
        latest(
            registry,
            vault_key_text(address_text(changes.contract_changes[position].address)),
        ) is Some,
        owning_pools(
            registry,
            address_text(changes.contract_changes[position].address),
        ).contains(owner),
    ensures
        is_marked(reconciled(changes, registry).entity_changes, owner),
{
    lemma_addresses_marks(
        changes.entity_changes,
        contract_addresses(changes.contract_changes),
        registry,
        position,
        owner,
    );
}

/// A change to a vault is never emitted without its owners: the change-set
/// that holds it marks every pool that owns the vault as updated.
pub proof fn lemma_vault_change_is_attributed(
    changes: TransactionChangesView,
    registry: Seq<(Seq<char>, Seq<char>)>,
    position: int,
    owner: Seq<char>,
)
    requires
        0 <= position < changes.contract_changes.len(),
        latest(
            registry,
            vault_key_text(address_text(changes.contract_changes[position].address)),
        ) is Some,
        owning_pools(
            registry,
            address_text(changes.contract_changes[position].address),
        ).contains(owner),
    ensures
        emitted(reconciled(changes, registry)) matches Some(built) && is_marked(
            built.entity_changes,
            owner,
        ),
{
    lemma_vault_change_marks_owners(changes, registry, position, owner);
    lemma_marks_are_emitted(reconciled(changes, registry), owner);
}

/// A vault among the changed contracts marks every pool that owns it.
proof fn lemma_addresses_marks(
    entities: Seq<EntityChangesView>,
    addresses: Seq<Seq<u8>>,
    registry: Seq<(Seq<char>, Seq<char>)>,
    position: int,
    owner: Seq<char>,
)
    requires
        0 <= position < addresses.len(),
        latest(registry, vault_key_text(address_text(addresses[position]))) is Some,
        owning_pools(registry, address_text(addresses[position])).contains(owner),
    ensures
        is_marked(with_addresses_marks(entities, addresses, registry), owner),
    decreases addresses.len(),
{
    let earlier = with_addresses_marks(entities, addresses.drop_last(), registry);
    if position == addresses.len() - 1 {
        lemma_owner_marks(earlier, owning_pools(registry, address_text(addresses.last())), owner);
    } else {
        assert(addresses.drop_last()[position] == addresses[position]);
        lemma_addresses_marks(entities, addresses.drop_last(), registry, position, owner);
        lemma_address_marks_kept(earlier, addresses.last(), registry, owner);
    }
}

/// Whether an id is what the registry holds under some pool's own key.
pub open spec fn is_pool_id(registry: Seq<(Seq<char>, Seq<char>)>, component_id: Seq<char>) -> bool {
    exists|n: int, pool: Seq<char>|
        0 <= n < registry.len() && #[trigger] registry[n] == (
            #[trigger] pool_key_text(pool),
            component_id,
        )
}

/// Every owner of a vault is a pool of the registry.
proof fn lemma_owners_are_pools(
    registry: Seq<(Seq<char>, Seq<char>)>,
    count: int,
    vault: Seq<char>,
    position: int,
)
    requires
        0 <= count <= registry.len(),
        0 <= position < crate::registry::owners_among(registry, count, vault).len(),
    ensures
        is_pool_id(registry, crate::registry::owners_among(registry, count, vault)[position]),
    decreases count,
{
    if count > 0 {
        let entry = registry[count - 1];
        let earlier = crate::registry::owners_among(registry, count - 1, vault);
        if position < earlier.len() {
            lemma_owners_are_pools(registry, count - 1, vault, position);
        } else {
            assert(registry[count - 1] == (pool_key_text(entry.1), entry.1));
        }
    }
}

/// Marking owners adds no entity but those of the owners.
proof fn lemma_owner_marks_ids(
    entities: Seq<EntityChangesView>,
    owners: Seq<Seq<char>>,
    registry: Seq<(Seq<char>, Seq<char>)>,
    position: int,
)
    requires
        forall|i: int| 0 <= i < owners.len() ==> is_pool_id(registry, #[trigger] owners[i]),
        0 <= position < with_owner_marks(entities, owners).len(),
    ensures
        is_pool_id(registry, with_owner_marks(entities, owners)[position].component_id) || (
        position < entities.len() && with_owner_marks(entities, owners)[position].component_id
            == entities[position].component_id),
    decreases owners.len(),
{
    if owners.len() > 0 {
        let earlier = with_owner_marks(entities, owners.drop_last());
        lemma_update_mark_ids(earlier, owners.last(), position);
        assert(is_pool_id(registry, owners[owners.len() - 1]));
        if position < earlier.len() {
            assert forall|i: int| 0 <= i < owners.drop_last().len() implies is_pool_id(
                registry,
                #[trigger] owners.drop_last()[i],
            ) by {
                assert(owners.drop_last()[i] == owners[i]);
            }
            lemma_owner_marks_ids(entities, owners.drop_last(), registry, position);
        }
    }
}

/// Attribution never leaves a change without an owner: every entity that it
/// adds to a change-set is a pool of the registry. A vault is never marked as
/// though it were a pool itself.
pub proof fn lemma_marks_name_pools(
    entities: Seq<EntityChangesView>,
    addresses: Seq<Seq<u8>>,
    registry: Seq<(Seq<char>, Seq<char>)>,
    position: int,
)
    requires
        0 <= position < with_addresses_marks(entities, addresses, registry).len(),
    ensures
        is_pool_id(
            registry,
            with_addresses_marks(entities, addresses, registry)[position].component_id,
        ) || (position < entities.len() && with_addresses_marks(
            entities,
            addresses,
            registry,
        )[position].component_id == entities[position].component_id),
    decreases addresses.len(),
{
    if addresses.len() > 0 {
        let earlier = with_addresses_marks(entities, addresses.drop_last(), registry);
        let text = address_text(addresses.last());
        let after = with_address_marks(earlier, addresses.last(), registry);
        if latest(registry, vault_key_text(text)) is Some {
            let owners = owning_pools(registry, text);
            assert forall|i: int| 0 <= i < owners.len() implies is_pool_id(
                registry,
                #[trigger] owners[i],
            ) by {
                lemma_owners_are_pools(registry, registry.len() as int, text, i);
            }
            lemma_owner_marks_ids(earlier, owners, registry, position);
        } else {
            match latest(registry, pool_key_text(text)) {
                Some(marked) => {
                    crate::registry::lemma_latest(registry, pool_key_text(text));
                    let n = choose|n: int|
                        0 <= n < registry.len() && #[trigger] registry[n] == (
                            pool_key_text(text),
                            marked,
                        );
                    assert(registry[n] == (pool_key_text(text), marked));
                    assert(is_pool_id(registry, marked));
                    lemma_update_mark_ids(earlier, marked, position);
                },
                None => {},
            }
        }
        if position < earlier.len() {
            lemma_marks_name_pools(entities, addresses.drop_last(), registry, position);
        }
    }
}

/// Marks each of a list of pools as updated.
fn mark_owners(builder: &mut TransactionChangesBuilder, owners: &Vec<String>)
    ensures
        final(builder)@ == (TransactionChangesView {
            entity_changes: with_owner_marks(old(builder)@.entity_changes, views(owners@)),
            ..old(builder)@
        }),
{
    let ghost listed = views(owners@);
    let mut i: usize = 0;
    proof {
        lemma_take_all(listed);
    }
    while i < owners.len()
        invariant
            i <= owners.len(),
            listed == views(owners@),
            builder@ == (TransactionChangesView {
                entity_changes: with_owner_marks(old(builder)@.entity_changes, listed.take(i as int)),
                ..old(builder)@
            }),
        decreases owners.len() - i,
    {
        proof {
            lemma_take_step(listed, i as int);
            assert(listed[i as int] == owners@[i as int]@);
        }
        builder.mark_component_as_updated(owners[i].as_str());
        i += 1;
    }
    proof {
        lemma_take_all(listed);
    }
}

/// Attributes every contract that a builder changes to its pool.
fn reconcile(builder: &mut TransactionChangesBuilder, components_store: &RegistryStore)
    ensures
        final(builder)@ == reconciled(old(builder)@, components_store@),
{
    let addresses = builder.changed_contracts();
    let ghost listed = views(addresses@);
    let mut i: usize = 0;
    proof {
        lemma_take_all(listed);
    }
    while i < addresses.len()
        invariant
            i <= addresses.len(),
            listed == views(addresses@),
            listed == contract_addresses(old(builder)@.contract_changes),
            builder@ == (TransactionChangesView {
                entity_changes: with_addresses_marks(
                    old(builder)@.entity_changes,
                    listed.take(i as int),
                    components_store@,
                ),
                ..old(builder)@
            }),
        decreases addresses.len() - i,
    {
        proof {
            lemma_take_step(listed, i as int);
            assert(listed[i as int] == addresses@[i as int]@);
        }
        let address_str = store_address(addresses[i].as_slice());
        if components_store.is_vault(address_str.as_str()) {
            let owners = components_store.owning_pools(address_str.as_str());
            mark_owners(builder, &owners);
        } else {
            match components_store.get_last(
                crate::registry::pool_key(address_str.as_str()).as_str(),
            ) {
                Some(component_id) => {
                    builder.mark_component_as_updated(component_id.as_str());
                },
                None => {},
            }
        }
        i += 1;
    }
    proof {
        lemma_take_all(listed);
    }
}

/// Reconciles every builder.
fn reconcile_all(builders: &mut Vec<TransactionChangesBuilder>, components_store: &RegistryStore)
    ensures
        views(final(builders)@) == all_reconciled(views(old(builders)@), components_store@),
        builder_indices(views(final(builders)@)) == builder_indices(views(old(builders)@)),
{
    let ghost before = views(builders@);
    let mut i: usize = 0;
    while i < builders.len()
        invariant
            i <= builders.len(),
            builders@.len() == before.len(),
            forall|j: int| 0 <= j < i ==> (#[trigger] builders@[j])@ == reconciled(
                before[j],
                components_store@,
            ),
            forall|j: int| i <= j < before.len() ==> (#[trigger] builders@[j])@ == before[j],
        decreases builders.len() - i,
    {
        reconcile(&mut builders[i], components_store);
        i += 1;
    }
    assert(views(builders@) =~= all_reconciled(before, components_store@));
    assert(builder_indices(views(builders@)) =~= builder_indices(before));
}

// ---------------------------------------------------------------------------
// Emission
// ---------------------------------------------------------------------------

/// Whether a list of indices is in ascending order.
pub open spec fn is_ascending(order: Seq<u64>) -> bool {
    forall|i: int, j: int| 0 <= i <= j < order.len() ==> order[i] <= order[j]
}

/// `Itertools::sorted_unstable_by_key` with each index as its own key: the
/// same indices, each as often as before, in ascending order.
#[verifier::external_body]
fn sorted_indices(indices: Vec<u64>) -> (order: Vec<u64>)
    ensures
        order@.to_multiset() == indices@.to_multiset(),
        is_ascending(order@),
{
    indices.into_iter().sorted_unstable_by_key(|index| *index).collect()
}

/// What the builders emit when they are visited in a given order of
/// transaction indices: the change-sets of those that say something.
pub open spec fn emission(
    builders: Seq<TransactionChangesView>,
    order: Seq<u64>,
) -> Seq<TransactionChangesView>
    decreases order.len(),
{
    if order.len() == 0 {
        Seq::empty()
    } else {
        let earlier = emission(builders, order.drop_last());
        match first_index(builder_indices(builders), order.last()) {
            Some(position) => match emitted(builders[position]) {
                Some(changes) => earlier.push(changes),
                None => earlier,
            },
            None => earlier,
        }
    }
}

/// Whether an order visits every builder once, by ascending transaction
/// index.
pub open spec fn is_emission_order(order: Seq<u64>, builders: Seq<TransactionChangesView>) -> bool {
    order.to_multiset() == builder_indices(builders).to_multiset() && is_ascending(order)
}

/// Whether a list of change-sets is what the builders emit when every one
/// of them is visited once, by ascending transaction index.
pub open spec fn is_ordered_emission(
    changes: Seq<TransactionChangesView>,
    builders: Seq<TransactionChangesView>,
) -> bool {
    exists|order: Seq<u64>| #[trigger]
        is_emission_order(order, builders) && changes == emission(builders, order)
}

/// In an ascending order without repetition, a later index is greater.
pub proof fn lemma_emission_order_strict(order: Seq<u64>, builders: Seq<TransactionChangesView>)
    requires
        is_emission_order(order, builders),
        builder_indices(builders).no_duplicates(),
    ensures
        forall|i: int, j: int| 0 <= i < j < order.len() ==> order[i] < order[j],
        forall|position: int|
            0 <= position < builders.len() ==> order.contains(
                #[trigger] builder_indices(builders)[position],
            ),
{
    let indices = builder_indices(builders);
    indices.lemma_multiset_has_no_duplicates();
    order.lemma_multiset_has_no_duplicates_conv();
    assert forall|position: int| 0 <= position < builders.len() implies order.contains(
        #[trigger] indices[position],
    ) by {
        vstd::seq_lib::to_multiset_contains(indices, indices[position]);
        vstd::seq_lib::to_multiset_contains(order, indices[position]);
        assert(indices.contains(indices[position]));
    }
}

/// What an emission holds stems from a builder, and follows the order.
pub proof fn lemma_emission_origin(
    builders: Seq<TransactionChangesView>,
    order: Seq<u64>,
    position: int,
)
    requires
        0 <= position < emission(builders, order).len(),
    ensures
        exists|at: int, visit: int|
            0 <= at < builders.len() && 0 <= visit < order.len() && builders[at].tx.index
                == #[trigger] order[visit] && emitted(#[trigger] builders[at]) == Some(
                emission(builders, order)[position],
            ),
    decreases order.len(),
{
    let earlier = emission(builders, order.drop_last());
    if position < earlier.len() {
        lemma_emission_origin(builders, order.drop_last(), position);
        let (at, visit) = choose|at: int, visit: int|
            0 <= at < builders.len() && 0 <= visit < order.drop_last().len()
                && builders[at].tx.index == #[trigger] order.drop_last()[visit] && emitted(
                #[trigger] builders[at],
            ) == Some(earlier[position]);
        assert(order[visit] == order.drop_last()[visit]);
    } else {
        lemma_first_index(builder_indices(builders), order.last());
        let at = first_index(builder_indices(builders), order.last()).unwrap();
        assert(order[order.len() - 1] == order.last());
        assert(builders[at].tx.index == builder_indices(builders)[at]);
    }
}

/// Every transaction with something to say is emitted: the change-set of
/// each builder that says something is part of the emission.
pub proof fn lemma_emission_complete(
    builders: Seq<TransactionChangesView>,
    order: Seq<u64>,
    position: int,
)
    requires
        is_emission_order(order, builders),
        builder_indices(builders).no_duplicates(),
        0 <= position < builders.len(),
        emitted(builders[position]) is Some,
    ensures
        emission(builders, order).contains(emitted(builders[position]).unwrap()),
{
    lemma_emission_order_strict(order, builders);
    let index = builder_indices(builders)[position];
    assert(order.contains(index));
    let visit = order.index_of(index);
    lemma_emission_visit(builders, order, position, visit);
}

/// A builder that is visited and says something is part of the emission.
proof fn lemma_emission_visit(
    builders: Seq<TransactionChangesView>,
    order: Seq<u64>,
    position: int,
    visit: int,
)
    requires
        builder_indices(builders).no_duplicates(),
        0 <= position < builders.len(),
        emitted(builders[position]) is Some,
        0 <= visit < order.len(),
        order[visit] == builders[position].tx.index,
    ensures
        emission(builders, order).contains(emitted(builders[position]).unwrap()),
    decreases order.len(),
{
    let earlier = emission(builders, order.drop_last());
    let wanted = emitted(builders[position]).unwrap();
    let keys = builder_indices(builders);
    if visit == order.len() - 1 {
        lemma_first_index(keys, order.last());
        assert(keys[position] == order.last());
        let at = first_index(keys, order.last()).unwrap();
        if at != position {
            assert(keys[at] == keys[position]);
        }
        assert(earlier.push(wanted)[earlier.len() as int] == wanted);
    } else {
        assert(order.drop_last()[visit] == order[visit]);
        lemma_emission_visit(builders, order.drop_last(), position, visit);
        let at = earlier.index_of(wanted);
        assert(earlier[at] == wanted);
        assert(emission(builders, order)[at] == wanted);
    }
}

/// The change-sets that a list of builders emits, in the order of their
/// transactions.
fn emit_in_order(builders: &Vec<TransactionChangesBuilder>) -> (changes: Vec<TransactionChanges>)
    requires
        builder_indices(views(builders@)).no_duplicates(),
    ensures
        is_ordered_emission(views(changes@), views(builders@)),
        forall|i: int, j: int|
            0 <= i < j < changes@.len() ==> changes@[i]@.tx.index < changes@[j]@.tx.index,
{
    let ghost listed = views(builders@);
    let ghost keys = builder_indices(listed);
    let mut indices: Vec<u64> = Vec::new();
    let mut i: usize = 0;
    while i < builders.len()
        invariant
            i <= builders.len(),
            listed == views(builders@),
            keys == builder_indices(listed),
            indices@ == keys.take(i as int),
        decreases builders.len() - i,
    {
        indices.push(builders[i].index());
        i += 1;
        assert(indices@ =~= keys.take(i as int));
    }
    proof {
        lemma_take_all(keys);
    }
    let order = sorted_indices(indices);
    proof {
        lemma_emission_order_strict(order@, listed);
        lemma_take_all(order@);
    }
    let mut changes: Vec<TransactionChanges> = Vec::new();
    let mut k: usize = 0;
    assert(views(changes@) =~= emission(listed, order@.take(0)));
    while k < order.len()
        invariant
            k <= order.len(),
            listed == views(builders@),
            keys == builder_indices(listed),
            keys.len() == builders@.len(),
            forall|i: int, j: int| 0 <= i < j < order@.len() ==> order@[i] < order@[j],
            views(changes@) == emission(listed, order@.take(k as int)),
            forall|i: int, j: int|
                0 <= i < j < changes@.len() ==> changes@[i]@.tx.index < changes@[j]@.tx.index,
            forall|i: int, m: int|
                0 <= i < changes@.len() && k <= m < order@.len() ==> changes@[i]@.tx.index
                    < order@[m],
        decreases order.len() - k,
    {
        let index = order[k];
        proof {
            lemma_take_step(order@, k as int);
            lemma_first_index(keys, index);
        }
        let found = position_of_index(builders, index);
        match found {
            Some(at) => {
                assert(listed[at as int] == builders@[at as int]@);
                match builders[at].clone().build() {
                    Some(built) => {
                        proof {
                            lemma_views_push(changes@, built);
                            assert(built@.tx.index == index);
                        }
                        changes.push(built);
                    },
                    None => {},
                }
            },
            None => {},
        }
        k += 1;
    }
    proof {
        lemma_take_all(order@);
        assert(is_emission_order(order@, listed));
    }
    changes
}

// ---------------------------------------------------------------------------
// The block
// ---------------------------------------------------------------------------

/// The change-sets of a block as collected, one per transaction that any of
/// the inputs names, before the empty ones are dropped.
pub open spec fn collected(
    block: Block,
    new_components: Seq<TransactionProtocolComponentsView>,
    registry: Seq<(Seq<char>, Seq<char>)>,
    balances: Seq<TransactionBalanceChangesView>,
    storage: Seq<TransactionContractChangesView>,
) -> Seq<TransactionChangesView> {
    let created = with_block_components(Seq::empty(), new_components);
    let balanced = with_block_balances(created, balances);
    let stored = with_block_storage(balanced, storage, registry);
    let vaults = with_block_cash(stored, block.transaction_traces@, registry);
    all_reconciled(vaults, registry)
}

/// Merges everything that changed in a block into one change-set per
/// transaction.
///
/// `balances` holds the absolute balances that the additive store reports as
/// changed, by transaction; `storage` holds the contracts whose storage, code
/// or balance changed, by transaction. Of `storage` only the followed
/// contracts are kept.
pub fn map_protocol_changes(
    block: &Block,
    new_components: &BlockTransactionProtocolComponents,
    components_store: &RegistryStore,
    balances: &Vec<TransactionBalanceChanges>,
    storage: &Vec<TransactionContractChanges>,
) -> (changes: BlockChanges)
    ensures
        changes@.block == block_header(*block),
        builder_indices(
            collected(
                *block,
                new_components@,
                components_store@,
                views(balances@),
                views(storage@),
            ),
        ).no_duplicates(),
        is_ordered_emission(
            changes@.changes,
            collected(
                *block,
                new_components@,
                components_store@,
                views(balances@),
                views(storage@),
            ),
        ),
        forall|i: int, j: int|
            0 <= i < j < changes@.changes.len() ==> changes@.changes[i].tx.index
                < changes@.changes[j].tx.index,
{
    let mut transaction_changes: Vec<TransactionChangesBuilder> = Vec::new();
    assert(views(transaction_changes@) =~= Seq::<TransactionChangesView>::empty());
    add_block_components(&mut transaction_changes, new_components);
    add_block_balances(&mut transaction_changes, balances);
    add_block_storage(&mut transaction_changes, storage, components_store);
    add_block_cash(&mut transaction_changes, block, components_store);
    reconcile_all(&mut transaction_changes, components_store);
    let emitted_changes = emit_in_order(&transaction_changes);
    let changes = BlockChanges { block: block.header(), changes: emitted_changes };
    proof {
        assert forall|i: int, j: int| 0 <= i < j < changes@.changes.len() implies changes@.changes[i].tx.index
            < changes@.changes[j].tx.index by {
            assert(changes@.changes[i] == emitted_changes@[i]@);
            assert(changes@.changes[j] == emitted_changes@[j]@);
        }
    }
    changes
}

} // verus!
