//! The data that flows through the pipeline.
//!
//! Block input is held as plain values: addresses and storage words are byte
//! strings, amounts are unsigned big-endian magnitudes, and every log and call
//! carries what its interface decoder made of it. Everything the pipeline
//! emits has a view that the contracts are stated over.

use vstd::prelude::*;
use vstd::string::*;

verus! {

/// The views of the items of a sequence.
pub open spec fn views<T: View>(items: Seq<T>) -> Seq<T::V> {
    items.map_values(|item: T| item@)
}

/// The views of a sequence grow with it.
pub proof fn lemma_views_push<T: View>(items: Seq<T>, item: T)
    ensures
        views(items.push(item)) == views(items).push(item@),
{
    assert(views(items.push(item)) =~= views(items).push(item@));
}

/// The views of a prefix that is one item longer.
pub proof fn lemma_views_prefix<T: View>(items: Seq<T>, end: int)
    requires
        0 <= end < items.len(),
    ensures
        views(items.subrange(0, end + 1)) == views(items.subrange(0, end)).push(items[end]@),
        items.subrange(0, end + 1) == items.subrange(0, end).push(items[end]),
{
    assert(items.subrange(0, end + 1) =~= items.subrange(0, end).push(items[end]));
    lemma_views_push(items.subrange(0, end), items[end]);
}

/// The prefix that is one item longer ends in that item.
pub proof fn lemma_take_step<T>(items: Seq<T>, end: int)
    requires
        0 <= end < items.len(),
    ensures
        items.take(end + 1).drop_last() == items.take(end),
        items.take(end + 1).last() == items[end],
        items.take(end + 1).len() == end + 1,
{
    assert(items.take(end + 1).drop_last() =~= items.take(end));
}

/// The prefix of full length is the whole.
pub proof fn lemma_take_all<T>(items: Seq<T>)
    ensures
        items.take(items.len() as int) == items,
        items.take(0) == Seq::<T>::empty(),
{
    assert(items.take(items.len() as int) =~= items);
    assert(items.take(0) =~= Seq::<T>::empty());
}

/// Taking views and replacing an item commute.
pub proof fn lemma_views_update<T: View>(items: Seq<T>, position: int, item: T)
    requires
        0 <= position < items.len(),
    ensures
        views(items.update(position, item)) == views(items).update(position, item@),
{
    assert(views(items.update(position, item)) =~= views(items).update(position, item@));
}

/// A copy of a byte string.
pub fn copy_bytes(bytes: &[u8]) -> (copy: Vec<u8>)
    ensures
        copy@ == bytes@,
{
    let mut copy: Vec<u8> = Vec::new();
    let mut i: usize = 0;
    while i < bytes.len()
        invariant
            i <= bytes.len(),
            copy@ == bytes@.subrange(0, i as int),
        decreases bytes.len() - i,
    {
        copy.push(bytes[i]);
        i += 1;
        assert(copy@ =~= bytes@.subrange(0, i as int));
    }
    assert(bytes@.subrange(0, bytes.len() as int) =~= bytes@);
    copy
}

/// Whether two byte strings are equal.
pub fn same_bytes(left: &[u8], right: &[u8]) -> (same: bool)
    ensures
        same == (left@ == right@),
{
    if left.len() != right.len() {
        return false;
    }
    let mut i: usize = 0;
    while i < left.len()
        invariant
            i <= left.len(),
            left.len() == right.len(),
            left@.subrange(0, i as int) == right@.subrange(0, i as int),
        decreases left.len() - i,
    {
        if left[i] != right[i] {
            return false;
        }
        i += 1;
        assert(left@.subrange(0, i as int) =~= left@.subrange(0, i - 1).push(left@[i - 1]));
        assert(right@.subrange(0, i as int) =~= right@.subrange(0, i - 1).push(right@[i - 1]));
    }
    assert(left@.subrange(0, left.len() as int) =~= left@);
    assert(right@.subrange(0, right.len() as int) =~= right@);
    true
}

/// A copy of a list of byte strings.
pub fn copy_byte_lists(lists: &Vec<Vec<u8>>) -> (copy: Vec<Vec<u8>>)
    ensures
        views(copy@) == views(lists@),
{
    let mut copy: Vec<Vec<u8>> = Vec::new();
    let mut i: usize = 0;
    while i < lists.len()
        invariant
            i <= lists.len(),
            views(copy@) == views(lists@.subrange(0, i as int)),
        decreases lists.len() - i,
    {
        let item = copy_bytes(lists[i].as_slice());
        proof {
            lemma_views_push(copy@, item);
            lemma_views_prefix(lists@, i as int);
        }
        copy.push(item);
        i += 1;
    }
    assert(lists@.subrange(0, lists.len() as int) =~= lists@);
    copy
}

// ---------------------------------------------------------------------------
// Block input
// ---------------------------------------------------------------------------

/// One write to a contract's storage.
#[derive(Debug, PartialEq, Eq)]
pub struct StorageChange {
    pub address: Vec<u8>,
    pub key: Vec<u8>,
    pub new_value: Vec<u8>,
    pub ordinal: u64,
}

/// The factory's event for a deployed pool.
#[derive(Debug, PartialEq, Eq)]
pub struct PoolDeployed {
    pub asset0: Vec<u8>,
    pub asset1: Vec<u8>,
    pub euler_account: Vec<u8>,
    pub pool: Vec<u8>,
    pub fee_multiplier: Vec<u8>,
}

/// The parameters a pool was configured with.
#[derive(Debug, PartialEq, Eq)]
pub struct PoolParams {
    pub vault0: Vec<u8>,
    pub vault1: Vec<u8>,
    pub price_x: Vec<u8>,
    pub price_y: Vec<u8>,
    pub concentration_x: Vec<u8>,
    pub concentration_y: Vec<u8>,
    pub fee: Vec<u8>,
    pub protocol_fee: Vec<u8>,
    pub protocol_fee_recipient: Vec<u8>,
}

/// The factory's event that carries a pool's configuration and its initial
/// reserves.
#[derive(Debug, PartialEq, Eq)]
pub struct PoolConfig {
    pub pool: Vec<u8>,
    pub params: PoolParams,
    pub reserve0: Vec<u8>,
    pub reserve1: Vec<u8>,
}

/// A pool's swap event.
#[derive(Debug, PartialEq, Eq)]
pub struct Swap {
    pub amount0_in: Vec<u8>,
    pub amount1_in: Vec<u8>,
    pub amount0_out: Vec<u8>,
    pub amount1_out: Vec<u8>,
}

/// What the event decoders made of a log.
#[derive(Debug, PartialEq, Eq)]
pub enum Event {
    PoolDeployed(PoolDeployed),
    PoolConfig(PoolConfig),
    Swap(Swap),
    Unrecognized,
}

/// An emitted log.
#[derive(Debug, PartialEq, Eq)]
pub struct Log {
    pub address: Vec<u8>,
    pub ordinal: u64,
    pub event: Event,
}

/// Whether a log carries the configuration of a pool.
pub open spec fn is_config_of(log: Log, pool: Seq<u8>) -> bool {
    log.event matches Event::PoolConfig(config) && config.pool@ == pool
}

/// The configuration of a pool in the first log of a list that carries it.
pub open spec fn config_in_logs(logs: Seq<Log>, pool: Seq<u8>) -> Option<PoolConfig>
    decreases logs.len(),
{
    if logs.len() == 0 {
        None
    } else if is_config_of(logs[0], pool) {
        Some(logs[0].event->PoolConfig_0)
    } else {
        config_in_logs(logs.skip(1), pool)
    }
}

/// What the function decoders made of a call's input.
#[derive(Clone, Copy, Debug, PartialEq, Eq, Structural)]
pub enum Function {
    DeployPool,
    Deposit,
    Withdraw,
    Borrow,
    RepayWithShares,
    Unrecognized,
}

/// A contract call.
#[derive(Debug, PartialEq, Eq)]
pub struct Call {
    pub address: Vec<u8>,
    pub state_reverted: bool,
    pub function: Function,
    pub storage_changes: Vec<StorageChange>,
}

/// A log together with the call that emitted it.
#[derive(Debug, PartialEq, Eq)]
pub struct LogWithCall {
    pub log: Log,
    pub call: Call,
}

/// A transaction with everything it did. `logs_with_calls` holds the logs of
/// the calls whose state was kept, in ordinal order; `receipt_logs` holds the
/// logs of the receipt.
#[derive(Debug, PartialEq, Eq)]
pub struct TransactionTrace {
    pub hash: Vec<u8>,
    pub from: Vec<u8>,
    pub to: Vec<u8>,
    pub index: u32,
    pub succeeded: bool,
    pub calls: Vec<Call>,
    pub logs_with_calls: Vec<LogWithCall>,
    pub receipt_logs: Vec<Log>,
}

/// A block with its transactions in execution order.
#[derive(Debug, PartialEq, Eq)]
pub struct Block {
    pub hash: Vec<u8>,
    pub parent_hash: Vec<u8>,
    pub number: u64,
    pub ts: u64,
    pub transaction_traces: Vec<TransactionTrace>,
}

/// A pool was deployed, but no event carries its configuration. A pool
/// cannot be made of half its data, so the block fails.
#[derive(Debug, PartialEq, Eq)]
pub struct MissingPoolConfig {
    pub pool: Vec<u8>,
}

// ---------------------------------------------------------------------------
// Pipeline output
// ---------------------------------------------------------------------------

/// How a record changes what the consumer holds.
#[derive(Clone, Copy, Debug, PartialEq, Eq, Structural)]
pub enum ChangeType {
    Unspecified,
    Update,
    Creation,
    Deletion,
}

/// What a protocol does with its tokens.
#[derive(Clone, Copy, Debug, PartialEq, Eq, Structural)]
pub enum FinancialType {
    Swap,
    Lend,
    Leverage,
    Psm,
}

/// How a protocol's state is simulated.
#[derive(Clone, Copy, Debug, PartialEq, Eq, Structural)]
pub enum ImplementationType {
    Vm,
    Custom,
}

/// The transaction that a change belongs to.
#[derive(Debug, PartialEq, Eq)]
pub struct Transaction {
    pub hash: Vec<u8>,
    pub from: Vec<u8>,
    pub to: Vec<u8>,
    pub index: u64,
}

/// The view of a [`Transaction`].
pub struct TransactionView {
    pub hash: Seq<u8>,
    pub from: Seq<u8>,
    pub to: Seq<u8>,
    pub index: u64,
}

impl View for Transaction {
    type V = TransactionView;

    open spec fn view(&self) -> TransactionView {
        TransactionView { hash: self.hash@, from: self.from@, to: self.to@, index: self.index }
    }
}

impl Clone for Transaction {
    fn clone(&self) -> (copy: Self)
        ensures
            copy@ == self@,
    {
        Transaction {
            hash: copy_bytes(self.hash.as_slice()),
            from: copy_bytes(self.from.as_slice()),
            to: copy_bytes(self.to.as_slice()),
            index: self.index,
        }
    }
}

/// The transaction record of a trace.
pub open spec fn trace_transaction(trace: TransactionTrace) -> TransactionView {
    TransactionView {
        hash: trace.hash@,
        from: trace.from@,
        to: trace.to@,
        index: trace.index as u64,
    }
}

impl TransactionTrace {
    /// The transaction record of this trace.
    pub fn transaction(&self) -> (tx: Transaction)
        ensures
            tx@ == trace_transaction(*self),
    {
        Transaction {
            hash: copy_bytes(self.hash.as_slice()),
            from: copy_bytes(self.from.as_slice()),
            to: copy_bytes(self.to.as_slice()),
            index: self.index as u64,
        }
    }
}

/// A named value of a component.
#[derive(Debug, PartialEq, Eq)]
pub struct Attribute {
    pub name: String,
    pub value: Vec<u8>,
    pub change: ChangeType,
}

/// The view of an [`Attribute`].
pub struct AttributeView {
    pub name: Seq<char>,
    pub value: Seq<u8>,
    pub change: ChangeType,
}

impl View for Attribute {
    type V = AttributeView;

    open spec fn view(&self) -> AttributeView {
        AttributeView { name: self.name@, value: self.value@, change: self.change }
    }
}

impl Clone for Attribute {
    fn clone(&self) -> (copy: Self)
        ensures
            copy@ == self@,
    {
        Attribute {
            name: self.name.clone(),
            value: copy_bytes(self.value.as_slice()),
            change: self.change,
        }
    }
}

/// An attribute that is created with its component.
pub open spec fn static_attribute(name: Seq<char>, value: Seq<u8>) -> AttributeView {
    AttributeView { name, value, change: ChangeType::Creation }
}

impl Attribute {
    /// An attribute that is created with its component.
    pub fn created(name: &str, value: Vec<u8>) -> (attribute: Self)
        ensures
            attribute@ == static_attribute(name@, value@),
    {
        Attribute { name: String::from_str(name), value, change: ChangeType::Creation }
    }
}

/// A copy of a list of attributes.
pub fn copy_attributes(attributes: &Vec<Attribute>) -> (copy: Vec<Attribute>)
    ensures
        views(copy@) == views(attributes@),
{
    let mut copy: Vec<Attribute> = Vec::new();
    let mut i: usize = 0;
    while i < attributes.len()
        invariant
            i <= attributes.len(),
            views(copy@) == views(attributes@.subrange(0, i as int)),
        decreases attributes.len() - i,
    {
        let item = attributes[i].clone();
        proof {
            lemma_views_push(copy@, item);
            lemma_views_prefix(attributes@, i as int);
        }
        copy.push(item);
        i += 1;
    }
    assert(attributes@.subrange(0, attributes.len() as int) =~= attributes@);
    copy
}

/// The kind of protocol a component belongs to.
#[derive(Debug, PartialEq, Eq)]
pub struct ProtocolType {
    pub name: String,
    pub financial_type: FinancialType,
    pub attribute_schema: Vec<Attribute>,
    pub implementation_type: ImplementationType,
}

/// The view of a [`ProtocolType`].
pub struct ProtocolTypeView {
    pub name: Seq<char>,
    pub financial_type: FinancialType,
    pub attribute_schema: Seq<AttributeView>,
    pub implementation_type: ImplementationType,
}

impl View for ProtocolType {
    type V = ProtocolTypeView;

    open spec fn view(&self) -> ProtocolTypeView {
        ProtocolTypeView {
            name: self.name@,
            financial_type: self.financial_type,
            attribute_schema: views(self.attribute_schema@),
            implementation_type: self.implementation_type,
        }
    }
}

impl Clone for ProtocolType {
    fn clone(&self) -> (copy: Self)
        ensures
            copy@ == self@,
    {
        ProtocolType {
            name: self.name.clone(),
            financial_type: self.financial_type,
            attribute_schema: copy_attributes(&self.attribute_schema),
            implementation_type: self.implementation_type,
        }
    }
}

/// A pool as the consumer sees it.
#[derive(Debug, PartialEq, Eq)]
pub struct ProtocolComponent {
    pub id: String,
    pub tokens: Vec<Vec<u8>>,
    pub contracts: Vec<Vec<u8>>,
    pub static_att: Vec<Attribute>,
    pub change: ChangeType,
    pub protocol_type: Option<ProtocolType>,
}

/// The view of a [`ProtocolComponent`].
pub struct ProtocolComponentView {
    pub id: Seq<char>,
    pub tokens: Seq<Seq<u8>>,
    pub contracts: Seq<Seq<u8>>,
    pub static_att: Seq<AttributeView>,
    pub change: ChangeType,
    pub protocol_type: Option<ProtocolTypeView>,
}

impl View for ProtocolComponent {
    type V = ProtocolComponentView;

    open spec fn view(&self) -> ProtocolComponentView {
        ProtocolComponentView {
            id: self.id@,
            tokens: views(self.tokens@),
            contracts: views(self.contracts@),
            static_att: views(self.static_att@),
            change: self.change,
            protocol_type: match self.protocol_type {
                Some(protocol_type) => Some(protocol_type@),
                None => None,
            },
        }
    }
}

impl Clone for ProtocolComponent {
    fn clone(&self) -> (copy: Self)
        ensures
            copy@ == self@,
    {
        ProtocolComponent {
            id: self.id.clone(),
            tokens: copy_byte_lists(&self.tokens),
            contracts: copy_byte_lists(&self.contracts),
            static_att: copy_attributes(&self.static_att),
            change: self.change,
            protocol_type: match &self.protocol_type {
                Some(protocol_type) => Some(protocol_type.clone()),
                None => None,
            },
        }
    }
}

/// The components that one transaction created.
#[derive(Debug, PartialEq, Eq)]
pub struct TransactionProtocolComponents {
    pub tx: Transaction,
    pub components: Vec<ProtocolComponent>,
}

/// The view of a [`TransactionProtocolComponents`].
pub struct TransactionProtocolComponentsView {
    pub tx: TransactionView,
    pub components: Seq<ProtocolComponentView>,
}

impl View for TransactionProtocolComponents {
    type V = TransactionProtocolComponentsView;

    open spec fn view(&self) -> TransactionProtocolComponentsView {
        TransactionProtocolComponentsView { tx: self.tx@, components: views(self.components@) }
    }
}

/// The components that a block created, by transaction.
#[derive(Debug, PartialEq, Eq)]
pub struct BlockTransactionProtocolComponents {
    pub tx_components: Vec<TransactionProtocolComponents>,
}

impl View for BlockTransactionProtocolComponents {
    type V = Seq<TransactionProtocolComponentsView>;

    open spec fn view(&self) -> Seq<TransactionProtocolComponentsView> {
        views(self.tx_components@)
    }
}

/// A signed change of a component's balance of one token. `delta` is the
/// shortest two's-complement big-endian encoding of the change.
#[derive(Debug, PartialEq, Eq)]
pub struct BalanceDelta {
    pub ord: u64,
    pub tx: Transaction,
    pub token: Vec<u8>,
    pub delta: Vec<u8>,
    pub component_id: Vec<u8>,
}

/// The view of a [`BalanceDelta`].
pub struct BalanceDeltaView {
    pub ord: u64,
    pub tx: TransactionView,
    pub token: Seq<u8>,
    pub delta: Seq<u8>,
    pub component_id: Seq<u8>,
}

impl View for BalanceDelta {
    type V = BalanceDeltaView;

    open spec fn view(&self) -> BalanceDeltaView {
        BalanceDeltaView {
            ord: self.ord,
            tx: self.tx@,
            token: self.token@,
            delta: self.delta@,
            component_id: self.component_id@,
        }
    }
}

/// The balance deltas of a block, in the order they were found.
#[derive(Debug, PartialEq, Eq)]
pub struct BlockBalanceDeltas {
    pub balance_deltas: Vec<BalanceDelta>,
}

impl View for BlockBalanceDeltas {
    type V = Seq<BalanceDeltaView>;

    open spec fn view(&self) -> Seq<BalanceDeltaView> {
        views(self.balance_deltas@)
    }
}

/// The absolute balance that a component holds of one token.
#[derive(Debug, PartialEq, Eq)]
pub struct BalanceChange {
    pub token: Vec<u8>,
    pub balance: Vec<u8>,
    pub component_id: Vec<u8>,
}

/// The view of a [`BalanceChange`].
pub struct BalanceChangeView {
    pub token: Seq<u8>,
    pub balance: Seq<u8>,
    pub component_id: Seq<u8>,
}

impl View for BalanceChange {
    type V = BalanceChangeView;

    open spec fn view(&self) -> BalanceChangeView {
        BalanceChangeView {
            token: self.token@,
            balance: self.balance@,
            component_id: self.component_id@,
        }
    }
}

impl Clone for BalanceChange {
    fn clone(&self) -> (copy: Self)
        ensures
            copy@ == self@,
    {
        BalanceChange {
            token: copy_bytes(self.token.as_slice()),
            balance: copy_bytes(self.balance.as_slice()),
            component_id: copy_bytes(self.component_id.as_slice()),
        }
    }
}

/// The attribute changes of one component.
#[derive(Debug, PartialEq, Eq)]
pub struct EntityChanges {
    pub component_id: String,
    pub attributes: Vec<Attribute>,
}

/// The view of an [`EntityChanges`].
pub struct EntityChangesView {
    pub component_id: Seq<char>,
    pub attributes: Seq<AttributeView>,
}

impl View for EntityChanges {
    type V = EntityChangesView;

    open spec fn view(&self) -> EntityChangesView {
        EntityChangesView {
            component_id: self.component_id@,
            attributes: views(self.attributes@),
        }
    }
}

impl Clone for EntityChanges {
    fn clone(&self) -> (copy: Self)
        ensures
            copy@ == self@,
    {
        EntityChanges {
            component_id: self.component_id.clone(),
            attributes: copy_attributes(&self.attributes),
        }
    }
}

/// One storage slot of a contract, before and after.
#[derive(Debug, PartialEq, Eq)]
pub struct ContractSlot {
    pub slot: Vec<u8>,
    pub value: Vec<u8>,
    pub previous_value: Vec<u8>,
}

/// The view of a [`ContractSlot`].
pub struct ContractSlotView {
    pub slot: Seq<u8>,
    pub value: Seq<u8>,
    pub previous_value: Seq<u8>,
}

impl View for ContractSlot {
    type V = ContractSlotView;

    open spec fn view(&self) -> ContractSlotView {
        ContractSlotView {
            slot: self.slot@,
            value: self.value@,
            previous_value: self.previous_value@,
        }
    }
}

impl Clone for ContractSlot {
    fn clone(&self) -> (copy: Self)
        ensures
            copy@ == self@,
    {
        ContractSlot {
            slot: copy_bytes(self.slot.as_slice()),
            value: copy_bytes(self.value.as_slice()),
            previous_value: copy_bytes(self.previous_value.as_slice()),
        }
    }
}

/// The balance that a contract holds of one token.
#[derive(Debug, PartialEq, Eq)]
pub struct AccountBalanceChange {
    pub token: Vec<u8>,
    pub balance: Vec<u8>,
}

/// The view of an [`AccountBalanceChange`].
pub struct AccountBalanceChangeView {
    pub token: Seq<u8>,
    pub balance: Seq<u8>,
}

impl View for AccountBalanceChange {
    type V = AccountBalanceChangeView;

    open spec fn view(&self) -> AccountBalanceChangeView {
        AccountBalanceChangeView { token: self.token@, balance: self.balance@ }
    }
}

impl Clone for AccountBalanceChange {
    fn clone(&self) -> (copy: Self)
        ensures
            copy@ == self@,
    {
        AccountBalanceChange {
            token: copy_bytes(self.token.as_slice()),
            balance: copy_bytes(self.balance.as_slice()),
        }
    }
}

/// What changed in one contract.
#[derive(Debug, PartialEq, Eq)]
pub struct ContractChange {
    pub address: Vec<u8>,
    pub balance: Vec<u8>,
    pub code: Vec<u8>,
    pub slots: Vec<ContractSlot>,
    pub change: ChangeType,
    pub token_balances: Vec<AccountBalanceChange>,
}

/// The view of a [`ContractChange`].
pub struct ContractChangeView {
    pub address: Seq<u8>,
    pub balance: Seq<u8>,
    pub code: Seq<u8>,
    pub slots: Seq<ContractSlotView>,
    pub change: ChangeType,
    pub token_balances: Seq<AccountBalanceChangeView>,
}

impl View for ContractChange {
    type V = ContractChangeView;

    open spec fn view(&self) -> ContractChangeView {
        ContractChangeView {
            address: self.address@,
            balance: self.balance@,
            code: self.code@,
            slots: views(self.slots@),
            change: self.change,
            token_balances: views(self.token_balances@),
        }
    }
}

/// A copy of a list of slots.
pub fn copy_slots(slots: &Vec<ContractSlot>) -> (copy: Vec<ContractSlot>)
    ensures
        views(copy@) == views(slots@),
{
    let mut copy: Vec<ContractSlot> = Vec::new();
    let mut i: usize = 0;
    while i < slots.len()
        invariant
            i <= slots.len(),
            views(copy@) == views(slots@.subrange(0, i as int)),
        decreases slots.len() - i,
    {
        let item = slots[i].clone();
        proof {
            lemma_views_push(copy@, item);
            lemma_views_prefix(slots@, i as int);
        }
        copy.push(item);
        i += 1;
    }
    assert(slots@.subrange(0, slots.len() as int) =~= slots@);
    copy
}

/// A copy of a list of token balances.
pub fn copy_token_balances(balances: &Vec<AccountBalanceChange>) -> (copy: Vec<
    AccountBalanceChange,
>)
    ensures
        views(copy@) == views(balances@),
{
    let mut copy: Vec<AccountBalanceChange> = Vec::new();
    let mut i: usize = 0;
    while i < balances.len()
        invariant
            i <= balances.len(),
            views(copy@) == views(balances@.subrange(0, i as int)),
        decreases balances.len() - i,
    {
        let item = balances[i].clone();
        proof {
            lemma_views_push(copy@, item);
            lemma_views_prefix(balances@, i as int);
        }
        copy.push(item);
        i += 1;
    }
    assert(balances@.subrange(0, balances.len() as int) =~= balances@);
    copy
}

impl Clone for ContractChange {
    fn clone(&self) -> (copy: Self)
        ensures
            copy@ == self@,
    {
        ContractChange {
            address: copy_bytes(self.address.as_slice()),
            balance: copy_bytes(self.balance.as_slice()),
            code: copy_bytes(self.code.as_slice()),
            slots: copy_slots(&self.slots),
            change: self.change,
            token_balances: copy_token_balances(&self.token_balances),
        }
    }
}

/// Everything one transaction changed.
#[derive(Debug, PartialEq, Eq)]
pub struct TransactionChanges {
    pub tx: Transaction,
    pub contract_changes: Vec<ContractChange>,
    pub entity_changes: Vec<EntityChanges>,
    pub component_changes: Vec<ProtocolComponent>,
    pub balance_changes: Vec<BalanceChange>,
}

/// The view of a [`TransactionChanges`].
pub struct TransactionChangesView {
    pub tx: TransactionView,
    pub contract_changes: Seq<ContractChangeView>,
    pub entity_changes: Seq<EntityChangesView>,
    pub component_changes: Seq<ProtocolComponentView>,
    pub balance_changes: Seq<BalanceChangeView>,
}

impl View for TransactionChanges {
    type V = TransactionChangesView;

    open spec fn view(&self) -> TransactionChangesView {
        TransactionChangesView {
            tx: self.tx@,
            contract_changes: views(self.contract_changes@),
            entity_changes: views(self.entity_changes@),
            component_changes: views(self.component_changes@),
            balance_changes: views(self.balance_changes@),
        }
    }
}

/// The absolute balances that changed in one transaction.
#[derive(Debug, PartialEq, Eq)]
pub struct TransactionBalanceChanges {
    pub tx: Transaction,
    pub balance_changes: Vec<BalanceChange>,
}

/// The view of a [`TransactionBalanceChanges`].
pub struct TransactionBalanceChangesView {
    pub tx: TransactionView,
    pub balance_changes: Seq<BalanceChangeView>,
}

impl View for TransactionBalanceChanges {
    type V = TransactionBalanceChangesView;

    open spec fn view(&self) -> TransactionBalanceChangesView {
        TransactionBalanceChangesView {
            tx: self.tx@,
            balance_changes: views(self.balance_changes@),
        }
    }
}

/// The contracts whose storage, code or balance changed in one transaction.
#[derive(Debug, PartialEq, Eq)]
pub struct TransactionContractChanges {
    pub tx: Transaction,
    pub contract_changes: Vec<ContractChange>,
}

/// The view of a [`TransactionContractChanges`].
pub struct TransactionContractChangesView {
    pub tx: TransactionView,
    pub contract_changes: Seq<ContractChangeView>,
}

impl View for TransactionContractChanges {
    type V = TransactionContractChangesView;

    open spec fn view(&self) -> TransactionContractChangesView {
        TransactionContractChangesView {
            tx: self.tx@,
            contract_changes: views(self.contract_changes@),
        }
    }
}

/// The block that a list of changes belongs to.
#[derive(Debug, PartialEq, Eq)]
pub struct BlockHeader {
    pub hash: Vec<u8>,
    pub parent_hash: Vec<u8>,
    pub number: u64,
    pub ts: u64,
}

/// The view of a [`BlockHeader`].
pub struct BlockHeaderView {
    pub hash: Seq<u8>,
    pub parent_hash: Seq<u8>,
    pub number: u64,
    pub ts: u64,
}

impl View for BlockHeader {
    type V = BlockHeaderView;

    open spec fn view(&self) -> BlockHeaderView {
        BlockHeaderView {
            hash: self.hash@,
            parent_hash: self.parent_hash@,
            number: self.number,
            ts: self.ts,
        }
    }
}

/// The header of a block.
pub open spec fn block_header(block: Block) -> BlockHeaderView {
    BlockHeaderView {
        hash: block.hash@,
        parent_hash: block.parent_hash@,
        number: block.number,
        ts: block.ts,
    }
}

impl Block {
    /// The header of this block.
    pub fn header(&self) -> (header: BlockHeader)
        ensures
            header@ == block_header(*self),
    {
        BlockHeader {
            hash: copy_bytes(self.hash.as_slice()),
            parent_hash: copy_bytes(self.parent_hash.as_slice()),
            number: self.number,
            ts: self.ts,
        }
    }
}

/// The change-sets of a block, one per transaction that changed anything.
#[derive(Debug, PartialEq, Eq)]
pub struct BlockChanges {
    pub block: BlockHeader,
    pub changes: Vec<TransactionChanges>,
}

/// The view of a [`BlockChanges`].
pub struct BlockChangesView {
    pub block: BlockHeaderView,
    pub changes: Seq<TransactionChangesView>,
}

impl View for BlockChanges {
    type V = BlockChangesView;

    open spec fn view(&self) -> BlockChangesView {
        BlockChangesView { block: self.block@, changes: views(self.changes@) }
    }
}

} // verus!
