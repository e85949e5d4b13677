//! The change-set of one transaction while it is being put together.
//!
//! A builder keeps at most one record per contract address, per component id
//! and per component and token. A record that arrives for a key already held
//! is merged into the held one; records leave in the order in which their
//! keys first arrived.

use vstd::prelude::*;
use vstd::string::*;
use crate::keyed::{first_index, lemma_first_index_absent, lemma_first_index_found};
use crate::model::{
    copy_attributes, copy_bytes, copy_slots, copy_token_balances, lemma_take_all, lemma_take_step,
    lemma_views_push, lemma_views_update, same_bytes, views, AccountBalanceChange,
    AccountBalanceChangeView, Attribute, AttributeView, BalanceChange, BalanceChangeView,
    ChangeType, ContractChange, ContractChangeView, ContractSlot, ContractSlotView, EntityChanges,
    EntityChangesView, ProtocolComponent, ProtocolComponentView, Transaction, TransactionChanges,
    TransactionChangesView, TransactionView,
};
use crate::registry::same_text;

verus! {

// ---------------------------------------------------------------------------
// Attributes of an entity, by name
// ---------------------------------------------------------------------------

/// The name of every attribute.
pub open spec fn attribute_names(attributes: Seq<AttributeView>) -> Seq<Seq<char>> {
    attributes.map_values(|attribute: AttributeView| attribute.name)
}

/// The attributes after one is set: it replaces the one held under its name,
/// or joins at the end.
pub open spec fn with_attribute(attributes: Seq<AttributeView>, attribute: AttributeView) -> Seq<
    AttributeView,
> {
    match first_index(attribute_names(attributes), attribute.name) {
        Some(i) => attributes.update(i, attribute),
        None => attributes.push(attribute),
    }
}

/// The attributes after several are set, one after the other.
pub open spec fn with_attributes(attributes: Seq<AttributeView>, added: Seq<AttributeView>) -> Seq<
    AttributeView,
>
    decreases added.len(),
{
    if added.len() == 0 {
        attributes
    } else {
        with_attribute(with_attributes(attributes, added.drop_last()), added.last())
    }
}

/// The position of the attribute of a name.
fn attribute_position(attributes: &Vec<Attribute>, name: &str) -> (position: Option<usize>)
    ensures
        match position {
            Some(i) => i < attributes.len() && first_index(
                attribute_names(views(attributes@)),
                name@,
            ) == Some(i as int),
            None => first_index(attribute_names(views(attributes@)), name@) is None,
        },
{
    let ghost keys = attribute_names(views(attributes@));
    let mut i: usize = 0;
    while i < attributes.len()
        invariant
            i <= attributes.len(),
            keys == attribute_names(views(attributes@)),
            forall|j: int| 0 <= j < i ==> keys[j] != name@,
        decreases attributes.len() - i,
    {
        assert(keys[i as int] == attributes@[i as int].name@);
        if same_text(attributes[i].name.as_str(), name) {
            proof {
                lemma_first_index_found(keys, name@, i as int);
            }
            return Some(i);
        }
        i += 1;
    }
    proof {
        lemma_first_index_absent(keys, name@);
    }
    None
}

/// Sets one attribute.
fn set_attribute(attributes: &mut Vec<Attribute>, attribute: Attribute)
    ensures
        views(final(attributes)@) == with_attribute(views(old(attributes)@), attribute@),
{
    match attribute_position(attributes, attribute.name.as_str()) {
        Some(i) => {
            proof {
                lemma_views_update(attributes@, i as int, attribute);
            }
            attributes.set(i, attribute);
        },
        None => {
            proof {
                lemma_views_push(attributes@, attribute);
            }
            attributes.push(attribute);
        },
    }
}

/// Sets several attributes, one after the other.
fn set_attributes(attributes: &mut Vec<Attribute>, added: &Vec<Attribute>)
    ensures
        views(final(attributes)@) == with_attributes(views(old(attributes)@), views(added@)),
{
    let ghost listed = views(added@);
    let mut i: usize = 0;
    proof {
        lemma_take_all(listed);
    }
    while i < added.len()
        invariant
            i <= added.len(),
            listed == views(added@),
            views(attributes@) == with_attributes(views(old(attributes)@), listed.take(i as int)),
        decreases added.len() - i,
    {
        proof {
            lemma_take_step(listed, i as int);
            assert(listed[i as int] == added@[i as int]@);
        }
        set_attribute(attributes, added[i].clone());
        i += 1;
    }
    proof {
        lemma_take_all(listed);
    }
}

// ---------------------------------------------------------------------------
// Entity changes, by component id
// ---------------------------------------------------------------------------

/// The component id of every entity.
pub open spec fn entity_ids(entities: Seq<EntityChangesView>) -> Seq<Seq<char>> {
    entities.map_values(|entity: EntityChangesView| entity.component_id)
}

/// The entity changes after one is added: its attributes are set on the
/// entity held under its component id, or on a new one at the end.
pub open spec fn with_entity_change(
    entities: Seq<EntityChangesView>,
    change: EntityChangesView,
) -> Seq<EntityChangesView> {
    match first_index(entity_ids(entities), change.component_id) {
        Some(i) => entities.update(
            i,
            EntityChangesView {
                component_id: change.component_id,
                attributes: with_attributes(entities[i].attributes, change.attributes),
            },
        ),
        None => entities.push(
            EntityChangesView {
                component_id: change.component_id,
                attributes: with_attributes(Seq::empty(), change.attributes),
            },
        ),
    }
}

/// The attribute that marks a component as updated.
pub open spec fn update_marker() -> AttributeView {
    AttributeView {
        name: "update_marker"@,
        value: seq![1u8],
        change: ChangeType::Update,
    }
}

/// The entity changes after a component is marked as updated.
pub open spec fn with_update_mark(entities: Seq<EntityChangesView>, component_id: Seq<char>) -> Seq<
    EntityChangesView,
> {
    with_entity_change(
        entities,
        EntityChangesView { component_id, attributes: seq![update_marker()] },
    )
}

/// The position of the entity of a component.
fn entity_position(entities: &Vec<EntityChanges>, component_id: &str) -> (position: Option<usize>)
    ensures
        match position {
            Some(i) => i < entities.len() && first_index(
                entity_ids(views(entities@)),
                component_id@,
            ) == Some(i as int),
            None => first_index(entity_ids(views(entities@)), component_id@) is None,
        },
{
    let ghost keys = entity_ids(views(entities@));
    let mut i: usize = 0;
    while i < entities.len()
        invariant
            i <= entities.len(),
            keys == entity_ids(views(entities@)),
            forall|j: int| 0 <= j < i ==> keys[j] != component_id@,
        decreases entities.len() - i,
    {
        assert(keys[i as int] == entities@[i as int].component_id@);
        if same_text(entities[i].component_id.as_str(), component_id) {
            proof {
                lemma_first_index_found(keys, component_id@, i as int);
            }
            return Some(i);
        }
        i += 1;
    }
    proof {
        lemma_first_index_absent(keys, component_id@);
    }
    None
}

/// Adds the attribute changes of one component to a list of entities.
fn add_entity_change_to(entities: &mut Vec<EntityChanges>, change: &EntityChanges)
    ensures
        views(final(entities)@) == with_entity_change(views(old(entities)@), change@),
{
    match entity_position(entities, change.component_id.as_str()) {
        Some(i) => {
            assert(views(entities@)[i as int] == entities@[i as int]@);
            let mut attributes = copy_attributes(&entities[i].attributes);
            set_attributes(&mut attributes, &change.attributes);
            let merged = EntityChanges { component_id: change.component_id.clone(), attributes };
            proof {
                lemma_views_update(entities@, i as int, merged);
            }
            entities.set(i, merged);
        },
        None => {
            let mut attributes: Vec<Attribute> = Vec::new();
            assert(views(attributes@) =~= Seq::<AttributeView>::empty());
            set_attributes(&mut attributes, &change.attributes);
            let added = EntityChanges { component_id: change.component_id.clone(), attributes };
            proof {
                lemma_views_push(entities@, added);
            }
            entities.push(added);
        },
    }
}

// ---------------------------------------------------------------------------
// Created components, by id
// ---------------------------------------------------------------------------

/// The id of every component.
pub open spec fn component_ids(components: Seq<ProtocolComponentView>) -> Seq<Seq<char>> {
    components.map_values(|component: ProtocolComponentView| component.id)
}

/// The created components after one is added: a component whose id is
/// already held is dropped, since components do not change once created.
pub open spec fn with_component(
    components: Seq<ProtocolComponentView>,
    component: ProtocolComponentView,
) -> Seq<ProtocolComponentView> {
    if first_index(component_ids(components), component.id) is Some {
        components
    } else {
        components.push(component)
    }
}

/// The position of the component of an id.
fn component_position(components: &Vec<ProtocolComponent>, id: &str) -> (position: Option<usize>)
    ensures
        match position {
            Some(i) => i < components.len() && first_index(
                component_ids(views(components@)),
                id@,
            ) == Some(i as int),
            None => first_index(component_ids(views(components@)), id@) is None,
        },
{
    let ghost keys = component_ids(views(components@));
    let mut i: usize = 0;
    while i < components.len()
        invariant
            i <= components.len(),
            keys == component_ids(views(components@)),
            forall|j: int| 0 <= j < i ==> keys[j] != id@,
        decreases components.len() - i,
    {
        assert(keys[i as int] == components@[i as int].id@);
        if same_text(components[i].id.as_str(), id) {
            proof {
                lemma_first_index_found(keys, id@, i as int);
            }
            return Some(i);
        }
        i += 1;
    }
    proof {
        lemma_first_index_absent(keys, id@);
    }
    None
}

// ---------------------------------------------------------------------------
// Balance changes, by component and token
// ---------------------------------------------------------------------------

/// The component and token of every balance change.
pub open spec fn balance_keys(balances: Seq<BalanceChangeView>) -> Seq<(Seq<u8>, Seq<u8>)> {
    balances.map_values(|balance: BalanceChangeView| (balance.component_id, balance.token))
}

/// The balance changes after one is added: it replaces the one held for its
/// component and token, or joins at the end.
pub open spec fn with_balance_change(
    balances: Seq<BalanceChangeView>,
    change: BalanceChangeView,
) -> Seq<BalanceChangeView> {
    match first_index(balance_keys(balances), (change.component_id, change.token)) {
        Some(i) => balances.update(i, change),
        None => balances.push(change),
    }
}

/// The position of the balance change of a component and token.
fn balance_position(balances: &Vec<BalanceChange>, component_id: &[u8], token: &[u8]) -> (position:
    Option<usize>)
    ensures
        match position {
            Some(i) => i < balances.len() && first_index(
                balance_keys(views(balances@)),
                (component_id@, token@),
            ) == Some(i as int),
            None => first_index(balance_keys(views(balances@)), (component_id@, token@)) is None,
        },
{
    let ghost keys = balance_keys(views(balances@));
    let mut i: usize = 0;
    while i < balances.len()
        invariant
            i <= balances.len(),
            keys == balance_keys(views(balances@)),
            forall|j: int| 0 <= j < i ==> keys[j] != (component_id@, token@),
        decreases balances.len() - i,
    {
        assert(keys[i as int] == (balances@[i as int].component_id@, balances@[i as int].token@));
        if same_bytes(balances[i].component_id.as_slice(), component_id) && same_bytes(
            balances[i].token.as_slice(),
            token,
        ) {
            proof {
                lemma_first_index_found(keys, (component_id@, token@), i as int);
            }
            return Some(i);
        }
        i += 1;
    }
    proof {
        lemma_first_index_absent(keys, (component_id@, token@));
    }
    None
}

// ---------------------------------------------------------------------------
// Contract changes, by address
// ---------------------------------------------------------------------------

/// The key of every slot.
pub open spec fn slot_keys(slots: Seq<ContractSlotView>) -> Seq<Seq<u8>> {
    slots.map_values(|slot: ContractSlotView| slot.slot)
}

/// The slots after one write is merged in: a slot already held takes the new
/// value and keeps the value it had before the transaction.
pub open spec fn with_slot(slots: Seq<ContractSlotView>, slot: ContractSlotView) -> Seq<
    ContractSlotView,
> {
    match first_index(slot_keys(slots), slot.slot) {
        Some(i) => slots.update(
            i,
            ContractSlotView {
                slot: slot.slot,
                value: slot.value,
                previous_value: slots[i].previous_value,
            },
        ),
        None => slots.push(slot),
    }
}

/// The slots after several writes are merged in, one after the other.
pub open spec fn with_slots(slots: Seq<ContractSlotView>, added: Seq<ContractSlotView>) -> Seq<
    ContractSlotView,
>
    decreases added.len(),
{
    if added.len() == 0 {
        slots
    } else {
        with_slot(with_slots(slots, added.drop_last()), added.last())
    }
}

/// The token of every token balance.
pub open spec fn balance_tokens(balances: Seq<AccountBalanceChangeView>) -> Seq<Seq<u8>> {
    balances.map_values(|balance: AccountBalanceChangeView| balance.token)
}

/// The token balances of a contract after one is merged in: it replaces the
/// one held for its token, or joins at the end.
pub open spec fn with_token_balance(
    balances: Seq<AccountBalanceChangeView>,
    balance: AccountBalanceChangeView,
) -> Seq<AccountBalanceChangeView> {
    match first_index(balance_tokens(balances), balance.token) {
        Some(i) => balances.update(i, balance),
        None => balances.push(balance),
    }
}

/// The token balances after several are merged in, one after the other.
pub open spec fn with_token_balances(
    balances: Seq<AccountBalanceChangeView>,
    added: Seq<AccountBalanceChangeView>,
) -> Seq<AccountBalanceChangeView>
    decreases added.len(),
{
    if added.len() == 0 {
        balances
    } else {
        with_token_balance(with_token_balances(balances, added.drop_last()), added.last())
    }
}

/// A held contract change after a further one for the same address is merged
/// in. A balance or code that the further one leaves empty keeps the held one.
pub open spec fn merged_contract_change(
    held: ContractChangeView,
    change: ContractChangeView,
) -> ContractChangeView {
    ContractChangeView {
        address: held.address,
        balance: if change.balance.len() > 0 {
            change.balance
        } else {
            held.balance
        },
        code: if change.code.len() > 0 {
            change.code
        } else {
            held.code
        },
        slots: with_slots(held.slots, change.slots),
        change: held.change,
        token_balances: with_token_balances(held.token_balances, change.token_balances),
    }
}

/// The record that a contract change starts as when its address is new: it
/// is a creation if it says so and an update otherwise.
pub open spec fn fresh_contract_change(change: ContractChangeView) -> ContractChangeView {
    ContractChangeView {
        address: change.address,
        balance: change.balance,
        code: change.code,
        slots: with_slots(Seq::empty(), change.slots),
        change: if change.change == ChangeType::Creation {
            ChangeType::Creation
        } else {
            ChangeType::Update
        },
        token_balances: with_token_balances(Seq::empty(), change.token_balances),
    }
}

/// The address of every contract change.
pub open spec fn contract_addresses(contracts: Seq<ContractChangeView>) -> Seq<Seq<u8>> {
    contracts.map_values(|contract: ContractChangeView| contract.address)
}

/// The contract changes after one is added.
pub open spec fn with_contract_change(
    contracts: Seq<ContractChangeView>,
    change: ContractChangeView,
) -> Seq<ContractChangeView> {
    match first_index(contract_addresses(contracts), change.address) {
        Some(i) => contracts.update(i, merged_contract_change(contracts[i], change)),
        None => contracts.push(fresh_contract_change(change)),
    }
}

/// The position of the slot of a key.
fn slot_position(slots: &Vec<ContractSlot>, key: &[u8]) -> (position: Option<usize>)
    ensures
        match position {
            Some(i) => i < slots.len() && first_index(slot_keys(views(slots@)), key@) == Some(
                i as int,
            ),
            None => first_index(slot_keys(views(slots@)), key@) is None,
        },
{
    let ghost keys = slot_keys(views(slots@));
    let mut i: usize = 0;
    while i < slots.len()
        invariant
            i <= slots.len(),
            keys == slot_keys(views(slots@)),
            forall|j: int| 0 <= j < i ==> keys[j] != key@,
        decreases slots.len() - i,
    {
        assert(keys[i as int] == slots@[i as int].slot@);
        if same_bytes(slots[i].slot.as_slice(), key) {
            proof {
                lemma_first_index_found(keys, key@, i as int);
            }
            return Some(i);
        }
        i += 1;
    }
    proof {
        lemma_first_index_absent(keys, key@);
    }
    None
}

/// Merges several writes into a list of slots.
fn upsert_slots(slots: &mut Vec<ContractSlot>, added: &Vec<ContractSlot>)
    ensures
        views(final(slots)@) == with_slots(views(old(slots)@), views(added@)),
{
    let ghost listed = views(added@);
    let mut i: usize = 0;
    proof {
        lemma_take_all(listed);
    }
    while i < added.len()
        invariant
            i <= added.len(),
            listed == views(added@),
            views(slots@) == with_slots(views(old(slots)@), listed.take(i as int)),
        decreases added.len() - i,
    {
        proof {
            lemma_take_step(listed, i as int);
            assert(listed[i as int] == added@[i as int]@);
        }
        let slot = &added[i];
        match slot_position(slots, slot.slot.as_slice()) {
            Some(k) => {
                assert(views(slots@)[k as int] == slots@[k as int]@);
                let merged = ContractSlot {
                    slot: copy_bytes(slot.slot.as_slice()),
                    value: copy_bytes(slot.value.as_slice()),
                    previous_value: copy_bytes(slots[k].previous_value.as_slice()),
                };
                proof {
                    lemma_views_update(slots@, k as int, merged);
                }
                slots.set(k, merged);
            },
            None => {
                let copy = slot.clone();
                proof {
                    lemma_views_push(slots@, copy);
                }
                slots.push(copy);
            },
        }
        i += 1;
    }
    proof {
        lemma_take_all(listed);
    }
}

/// The position of the balance of a token.
fn token_balance_position(balances: &Vec<AccountBalanceChange>, token: &[u8]) -> (position: Option<
    usize,
>)
    ensures
        match position {
            Some(i) => i < balances.len() && first_index(
                balance_tokens(views(balances@)),
                token@,
            ) == Some(i as int),
            None => first_index(balance_tokens(views(balances@)), token@) is None,
        },
{
    let ghost keys = balance_tokens(views(balances@));
    let mut i: usize = 0;
    while i < balances.len()
        invariant
            i <= balances.len(),
            keys == balance_tokens(views(balances@)),
            forall|j: int| 0 <= j < i ==> keys[j] != token@,
        decreases balances.len() - i,
    {
        assert(keys[i as int] == balances@[i as int].token@);
        if same_bytes(balances[i].token.as_slice(), token) {
            proof {
                lemma_first_index_found(keys, token@, i as int);
            }
            return Some(i);
        }
        i += 1;
    }
    proof {
        lemma_first_index_absent(keys, token@);
    }
    None
}

/// Merges several token balances into a list of them.
fn upsert_token_balances(balances: &mut Vec<AccountBalanceChange>, added: &Vec<AccountBalanceChange>)
    ensures
        views(final(balances)@) == with_token_balances(views(old(balances)@), views(added@)),
{
    let ghost listed = views(added@);
    let mut i: usize = 0;
    proof {
        lemma_take_all(listed);
    }
    while i < added.len()
        invariant
            i <= added.len(),
            listed == views(added@),
            views(balances@) == with_token_balances(views(old(balances)@), listed.take(i as int)),
        decreases added.len() - i,
    {
        proof {
            lemma_take_step(listed, i as int);
            assert(listed[i as int] == added@[i as int]@);
        }
        let copy = added[i].clone();
        match token_balance_position(balances, copy.token.as_slice()) {
            Some(k) => {
                proof {
                    lemma_views_update(balances@, k as int, copy);
                }
                balances.set(k, copy);
            },
            None => {
                proof {
                    lemma_views_push(balances@, copy);
                }
                balances.push(copy);
            },
        }
        i += 1;
    }
    proof {
        lemma_take_all(listed);
    }
}

/// The position of the change of a contract.
fn contract_position(contracts: &Vec<ContractChange>, address: &[u8]) -> (position: Option<usize>)
    ensures
        match position {
            Some(i) => i < contracts.len() && first_index(
                contract_addresses(views(contracts@)),
                address@,
            ) == Some(i as int),
            None => first_index(contract_addresses(views(contracts@)), address@) is None,
        },
{
    let ghost keys = contract_addresses(views(contracts@));
    let mut i: usize = 0;
    while i < contracts.len()
        invariant
            i <= contracts.len(),
            keys == contract_addresses(views(contracts@)),
            forall|j: int| 0 <= j < i ==> keys[j] != address@,
        decreases contracts.len() - i,
    {
        assert(keys[i as int] == contracts@[i as int].address@);
        if same_bytes(contracts[i].address.as_slice(), address) {
            proof {
                lemma_first_index_found(keys, address@, i as int);
            }
            return Some(i);
        }
        i += 1;
    }
    proof {
        lemma_first_index_absent(keys, address@);
    }
    None
}

/// Adds a contract change to a list of them.
fn add_contract_change_to(contracts: &mut Vec<ContractChange>, change: &ContractChange)
    ensures
        views(final(contracts)@) == with_contract_change(views(old(contracts)@), change@),
{
    match contract_position(contracts, change.address.as_slice()) {
        Some(i) => {
            assert(views(contracts@)[i as int] == contracts@[i as int]@);
            let held = &contracts[i];
            let balance = if change.balance.len() > 0 {
                copy_bytes(change.balance.as_slice())
            } else {
                copy_bytes(held.balance.as_slice())
            };
            let code = if change.code.len() > 0 {
                copy_bytes(change.code.as_slice())
            } else {
                copy_bytes(held.code.as_slice())
            };
            let mut slots = copy_slots(&held.slots);
            upsert_slots(&mut slots, &change.slots);
            let mut token_balances = copy_token_balances(&held.token_balances);
            upsert_token_balances(&mut token_balances, &change.token_balances);
            let merged = ContractChange {
                address: copy_bytes(held.address.as_slice()),
                balance,
                code,
                slots,
                change: held.change,
                token_balances,
            };
            proof {
                lemma_views_update(contracts@, i as int, merged);
            }
            contracts.set(i, merged);
        },
        None => {
            let mut slots: Vec<ContractSlot> = Vec::new();
            assert(views(slots@) =~= Seq::<ContractSlotView>::empty());
            upsert_slots(&mut slots, &change.slots);
            let mut token_balances: Vec<AccountBalanceChange> = Vec::new();
            assert(views(token_balances@) =~= Seq::<AccountBalanceChangeView>::empty());
            upsert_token_balances(&mut token_balances, &change.token_balances);
            let fresh = ContractChange {
                address: copy_bytes(change.address.as_slice()),
                balance: copy_bytes(change.balance.as_slice()),
                code: copy_bytes(change.code.as_slice()),
                slots,
                change: if change.change == ChangeType::Creation {
                    ChangeType::Creation
                } else {
                    ChangeType::Update
                },
                token_balances,
            };
            proof {
                lemma_views_push(contracts@, fresh);
            }
            contracts.push(fresh);
        },
    }
}

// ---------------------------------------------------------------------------
// The builder
// ---------------------------------------------------------------------------

/// A change-set with nothing in it.
pub open spec fn empty_changes(tx: TransactionView) -> TransactionChangesView {
    TransactionChangesView {
        tx,
        contract_changes: Seq::empty(),
        entity_changes: Seq::empty(),
        component_changes: Seq::empty(),
        balance_changes: Seq::empty(),
    }
}

/// The slots whose value differs from the one before the transaction.
pub open spec fn changed_slots(slots: Seq<ContractSlotView>) -> Seq<ContractSlotView>
    decreases slots.len(),
{
    if slots.len() == 0 {
        Seq::empty()
    } else if slots.last().value != slots.last().previous_value {
        changed_slots(slots.drop_last()).push(slots.last())
    } else {
        changed_slots(slots.drop_last())
    }
}

/// A contract change as it is emitted: without the slots that did not change.
pub open spec fn emitted_contract_change(contract: ContractChangeView) -> ContractChangeView {
    ContractChangeView {
        address: contract.address,
        balance: contract.balance,
        code: contract.code,
        slots: changed_slots(contract.slots),
        change: contract.change,
        token_balances: contract.token_balances,
    }
}

/// Whether a contract change says nothing: an update without balance, code,
/// slots or token balances.
pub open spec fn says_nothing(contract: ContractChangeView) -> bool {
    &&& contract.balance.len() == 0
    &&& contract.slots.len() == 0
    &&& contract.code.len() == 0
    &&& contract.token_balances.len() == 0
    &&& contract.change == ChangeType::Update
}

/// The contract changes as they are emitted: those that say something.
pub open spec fn emitted_contract_changes(contracts: Seq<ContractChangeView>) -> Seq<
    ContractChangeView,
>
    decreases contracts.len(),
{
    if contracts.len() == 0 {
        Seq::empty()
    } else if says_nothing(emitted_contract_change(contracts.last())) {
        emitted_contract_changes(contracts.drop_last())
    } else {
        emitted_contract_changes(contracts.drop_last()).push(
            emitted_contract_change(contracts.last()),
        )
    }
}

/// The entity changes as they are emitted: those with an attribute.
pub open spec fn emitted_entity_changes(entities: Seq<EntityChangesView>) -> Seq<EntityChangesView>
    decreases entities.len(),
{
    if entities.len() == 0 {
        Seq::empty()
    } else if entities.last().attributes.len() == 0 {
        emitted_entity_changes(entities.drop_last())
    } else {
        emitted_entity_changes(entities.drop_last()).push(entities.last())
    }
}

/// What a builder emits: its change-set without the records that say
/// nothing, or nothing at all where no record is left.
pub open spec fn emitted(changes: TransactionChangesView) -> Option<TransactionChangesView> {
    let contract_changes = emitted_contract_changes(changes.contract_changes);
    let entity_changes = emitted_entity_changes(changes.entity_changes);
    if contract_changes.len() == 0 && changes.component_changes.len() == 0
        && changes.balance_changes.len() == 0 && entity_changes.len() == 0 {
        None
    } else {
        Some(
            TransactionChangesView {
                tx: changes.tx,
                contract_changes,
                entity_changes,
                component_changes: changes.component_changes,
                balance_changes: changes.balance_changes,
            },
        )
    }
}

/// Collects the changes of one transaction. Its view is the change-set as
/// collected so far.
pub struct TransactionChangesBuilder {
    tx: Transaction,
    contract_changes: Vec<ContractChange>,
    entity_changes: Vec<EntityChanges>,
    component_changes: Vec<ProtocolComponent>,
    balance_changes: Vec<BalanceChange>,
}

impl View for TransactionChangesBuilder {
    type V = TransactionChangesView;

    closed spec fn view(&self) -> TransactionChangesView {
        TransactionChangesView {
            tx: self.tx@,
            contract_changes: views(self.contract_changes@),
            entity_changes: views(self.entity_changes@),
            component_changes: views(self.component_changes@),
            balance_changes: views(self.balance_changes@),
        }
    }
}

impl Clone for TransactionChangesBuilder {
    fn clone(&self) -> (copy: Self)
        ensures
            copy@ == self@,
    {
        TransactionChangesBuilder {
            tx: self.tx.clone(),
            contract_changes: copy_contract_changes(&self.contract_changes),
            entity_changes: copy_entity_changes(&self.entity_changes),
            component_changes: copy_components(&self.component_changes),
            balance_changes: copy_balance_changes(&self.balance_changes),
        }
    }
}

impl TransactionChangesBuilder {
    /// A builder for a transaction, with nothing collected.
    pub fn new(tx: &Transaction) -> (builder: Self)
        ensures
            builder@ == empty_changes(tx@),
    {
        let builder = TransactionChangesBuilder {
            tx: tx.clone(),
            contract_changes: Vec::new(),
            entity_changes: Vec::new(),
            component_changes: Vec::new(),
            balance_changes: Vec::new(),
        };
        assert(views(builder.contract_changes@) =~= Seq::<ContractChangeView>::empty());
        assert(views(builder.entity_changes@) =~= Seq::<EntityChangesView>::empty());
        assert(views(builder.component_changes@) =~= Seq::<ProtocolComponentView>::empty());
        assert(views(builder.balance_changes@) =~= Seq::<BalanceChangeView>::empty());
        builder
    }

    /// The index of the builder's transaction.
    pub fn index(&self) -> (index: u64)
        ensures
            index == self@.tx.index,
    {
        self.tx.index
    }

    /// Adds a contract change, merging it into the one held for its address.
    pub fn add_contract_changes(&mut self, change: &ContractChange)
        ensures
            final(self)@ == (TransactionChangesView {
                contract_changes: with_contract_change(old(self)@.contract_changes, change@),
                ..old(self)@
            }),
    {
        add_contract_change_to(&mut self.contract_changes, change);
    }

    /// The addresses of the contracts changed so far.
    pub fn changed_contracts(&self) -> (addresses: Vec<Vec<u8>>)
        ensures
            views(addresses@) == contract_addresses(self@.contract_changes),
    {
        let mut addresses: Vec<Vec<u8>> = Vec::new();
        let mut i: usize = 0;
        while i < self.contract_changes.len()
            invariant
                i <= self.contract_changes.len(),
                views(addresses@) == contract_addresses(self@.contract_changes).take(i as int),
            decreases self.contract_changes.len() - i,
        {
            let address = copy_bytes(self.contract_changes[i].address.as_slice());
            proof {
                lemma_views_push(addresses@, address);
                lemma_take_step(contract_addresses(self@.contract_changes), i as int);
                assert(contract_addresses(self@.contract_changes).take(i + 1)
                    =~= contract_addresses(self@.contract_changes).take(i as int).push(
                    address@,
                ));
            }
            addresses.push(address);
            i += 1;
        }
        proof {
            lemma_take_all(contract_addresses(self@.contract_changes));
        }
        addresses
    }

    /// Marks a component as updated.
    pub fn mark_component_as_updated(&mut self, component_id: &str)
        ensures
            final(self)@ == (TransactionChangesView {
                entity_changes: with_update_mark(old(self)@.entity_changes, component_id@),
                ..old(self)@
            }),
    {
        let name = String::from_str("update_marker");
        let mut value: Vec<u8> = Vec::new();
        value.push(1u8);
        assert(value@ =~= update_marker().value);
        let mut attributes: Vec<Attribute> = Vec::new();
        let attribute = Attribute { name, value, change: ChangeType::Update };
        attributes.push(attribute);
        assert(views(attributes@) =~= seq![update_marker()]);
        let change = EntityChanges { component_id: String::from_str(component_id), attributes };
        add_entity_change_to(&mut self.entity_changes, &change);
    }

    /// Adds the attribute changes of one component.
    pub fn add_entity_change(&mut self, change: &EntityChanges)
        ensures
            final(self)@ == (TransactionChangesView {
                entity_changes: with_entity_change(old(self)@.entity_changes, change@),
                ..old(self)@
            }),
    {
        add_entity_change_to(&mut self.entity_changes, change);
    }

    /// Adds a created component, unless one with its id is held already.
    pub fn add_protocol_component(&mut self, component: &ProtocolComponent)
        ensures
            final(self)@ == (TransactionChangesView {
                component_changes: with_component(old(self)@.component_changes, component@),
                ..old(self)@
            }),
    {
        if component_position(&self.component_changes, component.id.as_str()).is_none() {
            let copy = component.clone();
            proof {
                lemma_views_push(self.component_changes@, copy);
            }
            self.component_changes.push(copy);
        }
    }

    /// Sets the balance of a component's token.
    pub fn add_balance_change(&mut self, change: &BalanceChange)
        ensures
            final(self)@ == (TransactionChangesView {
                balance_changes: with_balance_change(old(self)@.balance_changes, change@),
                ..old(self)@
            }),
    {
        let copy = change.clone();
        match balance_position(
            &self.balance_changes,
            change.component_id.as_slice(),
            change.token.as_slice(),
        ) {
            Some(i) => {
                proof {
                    lemma_views_update(self.balance_changes@, i as int, copy);
                }
                self.balance_changes.set(i, copy);
            },
            None => {
                proof {
                    lemma_views_push(self.balance_changes@, copy);
                }
                self.balance_changes.push(copy);
            },
        }
    }

    /// The finished change-set, if anything in it says something.
    pub fn build(self) -> (changes: Option<TransactionChanges>)
        ensures
            match changes {
                Some(built) => emitted(self@) == Some(built@),
                None => emitted(self@) is None,
            },
    {
        let contract_changes = emit_contract_changes(&self.contract_changes);
        let entity_changes = emit_entity_changes(&self.entity_changes);
        if contract_changes.len() == 0 && self.component_changes.len() == 0
            && self.balance_changes.len() == 0 && entity_changes.len() == 0 {
            None
        } else {
            Some(
                TransactionChanges {
                    tx: self.tx,
                    contract_changes,
                    entity_changes,
                    component_changes: self.component_changes,
                    balance_changes: self.balance_changes,
                },
            )
        }
    }
}

/// The slots that changed.
fn emit_slots(slots: &Vec<ContractSlot>) -> (kept: Vec<ContractSlot>)
    ensures
        views(kept@) == changed_slots(views(slots@)),
{
    let ghost listed = views(slots@);
    let mut kept: Vec<ContractSlot> = Vec::new();
    let mut i: usize = 0;
    proof {
        lemma_take_all(listed);
    }
    assert(views(kept@) =~= changed_slots(listed.take(0)));
    while i < slots.len()
        invariant
            i <= slots.len(),
            listed == views(slots@),
            views(kept@) == changed_slots(listed.take(i as int)),
        decreases slots.len() - i,
    {
        proof {
            lemma_take_step(listed, i as int);
            assert(listed[i as int] == slots@[i as int]@);
        }
        if !same_bytes(slots[i].value.as_slice(), slots[i].previous_value.as_slice()) {
            let copy = slots[i].clone();
            proof {
                lemma_views_push(kept@, copy);
            }
            kept.push(copy);
        }
        i += 1;
    }
    proof {
        lemma_take_all(listed);
    }
    kept
}

/// The contract changes that say something.
fn emit_contract_changes(contracts: &Vec<ContractChange>) -> (kept: Vec<ContractChange>)
    ensures
        views(kept@) == emitted_contract_changes(views(contracts@)),
{
    let ghost listed = views(contracts@);
    let mut kept: Vec<ContractChange> = Vec::new();
    let mut i: usize = 0;
    proof {
        lemma_take_all(listed);
    }
    assert(views(kept@) =~= emitted_contract_changes(listed.take(0)));
    while i < contracts.len()
        invariant
            i <= contracts.len(),
            listed == views(contracts@),
            views(kept@) == emitted_contract_changes(listed.take(i as int)),
        decreases contracts.len() - i,
    {
        proof {
            lemma_take_step(listed, i as int);
            assert(listed[i as int] == contracts@[i as int]@);
        }
        let held = &contracts[i];
        let slots = emit_slots(&held.slots);
        let says_nothing = held.balance.len() == 0 && slots.len() == 0 && held.code.len() == 0
            && held.token_balances.len() == 0 && held.change == ChangeType::Update;
        if !says_nothing {
            let change = ContractChange {
                address: copy_bytes(held.address.as_slice()),
                balance: copy_bytes(held.balance.as_slice()),
                code: copy_bytes(held.code.as_slice()),
                slots,
                change: held.change,
                token_balances: copy_token_balances(&held.token_balances),
            };
            proof {
                lemma_views_push(kept@, change);
            }
            kept.push(change);
        }
        i += 1;
    }
    proof {
        lemma_take_all(listed);
    }
    kept
}

/// The entity changes with an attribute.
fn emit_entity_changes(entities: &Vec<EntityChanges>) -> (kept: Vec<EntityChanges>)
    ensures
        views(kept@) == emitted_entity_changes(views(entities@)),
{
    let ghost listed = views(entities@);
    let mut kept: Vec<EntityChanges> = Vec::new();
    let mut i: usize = 0;
    proof {
        lemma_take_all(listed);
    }
    assert(views(kept@) =~= emitted_entity_changes(listed.take(0)));
    while i < entities.len()
        invariant
            i <= entities.len(),
            listed == views(entities@),
            views(kept@) == emitted_entity_changes(listed.take(i as int)),
        decreases entities.len() - i,
    {
        proof {
            lemma_take_step(listed, i as int);
            assert(listed[i as int] == entities@[i as int]@);
        }
        if entities[i].attributes.len() != 0 {
            let copy = entities[i].clone();
            proof {
                lemma_views_push(kept@, copy);
            }
            kept.push(copy);
        }
        i += 1;
    }
    proof {
        lemma_take_all(listed);
    }
    kept
}

/// A copy of a list of contract changes.
fn copy_contract_changes(items: &Vec<ContractChange>) -> (copy: Vec<ContractChange>)
    ensures
        views(copy@) == views(items@),
{
    let mut copy: Vec<ContractChange> = Vec::new();
    let mut i: usize = 0;
    proof {
        lemma_take_all(views(items@));
    }
    assert(views(copy@) =~= views(items@).take(0));
    while i < items.len()
        invariant
            i <= items.len(),
            views(copy@) == views(items@).take(i as int),
        decreases items.len() - i,
    {
        let item = items[i].clone();
        proof {
            lemma_views_push(copy@, item);
            assert(views(items@).take(i + 1) =~= views(items@).take(i as int).push(item@));
        }
        copy.push(item);
        i += 1;
    }
    proof {
        lemma_take_all(views(items@));
    }
    copy
}

/// A copy of a list of entity changes.
fn copy_entity_changes(items: &Vec<EntityChanges>) -> (copy: Vec<EntityChanges>)
    ensures
        views(copy@) == views(items@),
{
    let mut copy: Vec<EntityChanges> = Vec::new();
    let mut i: usize = 0;
    proof {
        lemma_take_all(views(items@));
    }
    assert(views(copy@) =~= views(items@).take(0));
    while i < items.len()
        invariant
            i <= items.len(),
            views(copy@) == views(items@).take(i as int),
        decreases items.len() - i,
    {
        let item = items[i].clone();
        proof {
            lemma_views_push(copy@, item);
            assert(views(items@).take(i + 1) =~= views(items@).take(i as int).push(item@));
        }
        copy.push(item);
        i += 1;
    }
    proof {
        lemma_take_all(views(items@));
    }
    copy
}

/// A copy of a list of components.
fn copy_components(items: &Vec<ProtocolComponent>) -> (copy: Vec<ProtocolComponent>)
    ensures
        views(copy@) == views(items@),
{
    let mut copy: Vec<ProtocolComponent> = Vec::new();
    let mut i: usize = 0;
    proof {
        lemma_take_all(views(items@));
    }
    assert(views(copy@) =~= views(items@).take(0));
    while i < items.len()
        invariant
            i <= items.len(),
            views(copy@) == views(items@).take(i as int),
        decreases items.len() - i,
    {
        let item = items[i].clone();
        proof {
            lemma_views_push(copy@, item);
            assert(views(items@).take(i + 1) =~= views(items@).take(i as int).push(item@));
        }
        copy.push(item);
        i += 1;
    }
    proof {
        lemma_take_all(views(items@));
    }
    copy
}

/// A copy of a list of balance changes.
fn copy_balance_changes(items: &Vec<BalanceChange>) -> (copy: Vec<BalanceChange>)
    ensures
        views(copy@) == views(items@),
{
    let mut copy: Vec<BalanceChange> = Vec::new();
    let mut i: usize = 0;
    proof {
        lemma_take_all(views(items@));
    }
    assert(views(copy@) =~= views(items@).take(0));
    while i < items.len()
        invariant
            i <= items.len(),
            views(copy@) == views(items@).take(i as int),
        decreases items.len() - i,
    {
        let item = items[i].clone();
        proof {
            lemma_views_push(copy@, item);
            assert(views(items@).take(i + 1) =~= views(items@).take(i as int).push(item@));
        }
        copy.push(item);
        i += 1;
    }
    proof {
        lemma_take_all(views(items@));
    }
    copy
}

// ---------------------------------------------------------------------------
// Update marks
// ---------------------------------------------------------------------------

/// Whether a component is marked as updated: its entity holds the update
/// marker under the marker's name.
pub open spec fn is_marked(entities: Seq<EntityChangesView>, component_id: Seq<char>) -> bool {
    match first_index(entity_ids(entities), component_id) {
        Some(i) => match first_index(
            attribute_names(entities[i].attributes),
            update_marker().name,
        ) {
            Some(k) => entities[i].attributes[k] == update_marker(),
            None => false,
        },
        None => false,
    }
}

/// Where a key is found once one more key is listed.
proof fn lemma_first_index_push<K>(keys: Seq<K>, added: K, key: K)
    ensures
        first_index(keys.push(added), key) == (if first_index(keys, key) is Some {
            first_index(keys, key)
        } else if added == key {
            Some(keys.len() as int)
        } else {
            None
        }),
{
    assert(keys.push(added).drop_last() =~= keys);
}

/// Once the update marker is set, it is held under its name.
proof fn lemma_marker_set(attributes: Seq<AttributeView>)
    ensures
        first_index(
            attribute_names(with_attribute(attributes, update_marker())),
            update_marker().name,
        ) matches Some(k) && with_attribute(attributes, update_marker())[k] == update_marker(),
{
    let name = update_marker().name;
    let names = attribute_names(attributes);
    crate::keyed::lemma_first_index(names, name);
    match first_index(names, name) {
        Some(k) => {
            assert(attribute_names(attributes.update(k, update_marker())) =~= names);
        },
        None => {
            assert(attribute_names(attributes.push(update_marker())) =~= names.push(name));
            lemma_first_index_push(names, name, name);
        },
    }
}

/// Marking a component marks it, and leaves every other mark in place.
pub proof fn lemma_update_mark(
    entities: Seq<EntityChangesView>,
    component_id: Seq<char>,
    other: Seq<char>,
)
    ensures
        is_marked(with_update_mark(entities, component_id), component_id),
        is_marked(entities, other) ==> is_marked(with_update_mark(entities, component_id), other),
{
    let ids = entity_ids(entities);
    let after = with_update_mark(entities, component_id);
    crate::keyed::lemma_first_index(ids, component_id);
    crate::keyed::lemma_first_index(ids, other);
    match first_index(ids, component_id) {
        Some(i) => {
            let attributes = entities[i].attributes;
            assert(with_attributes(attributes, seq![update_marker()]) == with_attribute(
                attributes,
                update_marker(),
            )) by {
                let added = seq![update_marker()];
                assert(added.drop_last() =~= Seq::<AttributeView>::empty());
                assert(added.last() == update_marker());
                assert(with_attributes(attributes, added.drop_last()) == attributes);
            }
            lemma_marker_set(attributes);
            assert(entity_ids(after) =~= ids);
        },
        None => {
            let attributes = Seq::<AttributeView>::empty();
            assert(with_attributes(attributes, seq![update_marker()]) == with_attribute(
                attributes,
                update_marker(),
            )) by {
                let added = seq![update_marker()];
                assert(added.drop_last() =~= Seq::<AttributeView>::empty());
                assert(added.last() == update_marker());
                assert(with_attributes(attributes, added.drop_last()) == attributes);
            }
            lemma_marker_set(attributes);
            assert(entity_ids(after) =~= ids.push(component_id));
            lemma_first_index_push(ids, component_id, component_id);
            lemma_first_index_push(ids, component_id, other);
        },
    }
}

/// Marking a component adds no entity but, at most, the component's own.
pub proof fn lemma_update_mark_ids(
    entities: Seq<EntityChangesView>,
    component_id: Seq<char>,
    position: int,
)
    requires
        0 <= position < with_update_mark(entities, component_id).len(),
    ensures
        with_update_mark(entities, component_id)[position].component_id == component_id || (
        position < entities.len() && with_update_mark(entities, component_id)[position]
            == entities[position]),
{
    let ids = entity_ids(entities);
    crate::keyed::lemma_first_index(ids, component_id);
}

/// The entity that stands first for a component is, if it has an attribute,
/// the one that stands first for the component among the emitted ones; a
/// component without an entity has none among the emitted ones either.
proof fn lemma_emitted_entities_first(entities: Seq<EntityChangesView>, component_id: Seq<char>)
    ensures
        match first_index(entity_ids(entities), component_id) {
            Some(i) => if entities[i].attributes.len() > 0 {
                first_index(entity_ids(emitted_entity_changes(entities)), component_id) matches Some(
                    k,
                ) && emitted_entity_changes(entities)[k] == entities[i]
            } else {
                true
            },
            None => first_index(entity_ids(emitted_entity_changes(entities)), component_id) is None,
        },
    decreases entities.len(),
{
    if entities.len() > 0 {
        let earlier = entities.drop_last();
        let kept = emitted_entity_changes(earlier);
        let last = entities.last();
        lemma_emitted_entities_first(earlier, component_id);
        assert(entity_ids(entities).drop_last() =~= entity_ids(earlier));
        crate::keyed::lemma_first_index(entity_ids(earlier), component_id);
        crate::keyed::lemma_first_index(entity_ids(kept), component_id);
        if last.attributes.len() > 0 {
            assert(entity_ids(kept.push(last)) =~= entity_ids(kept).push(last.component_id));
            lemma_first_index_push(entity_ids(kept), last.component_id, component_id);
        }
        match first_index(entity_ids(earlier), component_id) {
            Some(i) => {
                assert(entities[i] == earlier[i]);
                if earlier[i].attributes.len() > 0 {
                    let k = first_index(entity_ids(kept), component_id).unwrap();
                    assert(0 <= k < kept.len());
                    assert(emitted_entity_changes(entities)[k] == kept[k]);
                }
            },
            None => {
                if last.component_id == component_id && last.attributes.len() > 0 {
                    assert(emitted_entity_changes(entities)[kept.len() as int] == last);
                }
            },
        }
    }
}

/// A mark is emitted: a component that is marked as updated in a builder is
/// marked as updated in the change-set that the builder emits.
pub proof fn lemma_marks_are_emitted(changes: TransactionChangesView, component_id: Seq<char>)
    requires
        is_marked(changes.entity_changes, component_id),
    ensures
        emitted(changes) matches Some(built) && is_marked(built.entity_changes, component_id),
{
    let entities = changes.entity_changes;
    lemma_emitted_entities_first(entities, component_id);
    crate::keyed::lemma_first_index(entity_ids(entities), component_id);
    let i = first_index(entity_ids(entities), component_id).unwrap();
    crate::keyed::lemma_first_index(attribute_names(entities[i].attributes), update_marker().name);
}

} // verus!
