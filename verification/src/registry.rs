//! The component registry: a forward-only index from keys to values that
//! later stages consult to learn what role an address plays.
//!
//! Every pool contributes eleven entries: its own id, its two assets, its two
//! vaults, a marker for each token and vault, and each vault's asset. Entries
//! are only ever appended; a lookup returns the value written last.

use vstd::prelude::*;
use vstd::string::*;
use crate::address::{address_text, colon_free, lemma_address_text_plain, store_address};
use crate::model::{
    same_bytes, views, BlockTransactionProtocolComponents, ProtocolComponent, ProtocolComponentView,
    TransactionProtocolComponentsView,
};

verus! {

/// `pool:`
pub open spec fn pool_prefix() -> Seq<char> {
    seq!['p', 'o', 'o', 'l', ':']
}

/// `token:`
pub open spec fn token_prefix() -> Seq<char> {
    seq!['t', 'o', 'k', 'e', 'n', ':']
}

/// `vault:`
pub open spec fn vault_prefix() -> Seq<char> {
    seq!['v', 'a', 'u', 'l', 't', ':']
}

/// `:asset`
pub open spec fn asset_suffix() -> Seq<char> {
    seq![':', 'a', 's', 's', 'e', 't']
}

/// `:asset0`
pub open spec fn asset0_suffix() -> Seq<char> {
    seq![':', 'a', 's', 's', 'e', 't', '0']
}

/// `:asset1`
pub open spec fn asset1_suffix() -> Seq<char> {
    seq![':', 'a', 's', 's', 'e', 't', '1']
}

/// `:vault0`
pub open spec fn vault0_suffix() -> Seq<char> {
    seq![':', 'v', 'a', 'u', 'l', 't', '0']
}

/// `:vault1`
pub open spec fn vault1_suffix() -> Seq<char> {
    seq![':', 'v', 'a', 'u', 'l', 't', '1']
}

/// `pool:<id>`
pub open spec fn pool_key_text(pool_id: Seq<char>) -> Seq<char> {
    pool_prefix() + pool_id
}

/// `pool:<id>:asset0` or `pool:<id>:asset1`
pub open spec fn pool_asset_key_text(pool_id: Seq<char>, is_asset0: bool) -> Seq<char> {
    pool_prefix() + pool_id + if is_asset0 {
        asset0_suffix()
    } else {
        asset1_suffix()
    }
}

/// `pool:<id>:vault0` or `pool:<id>:vault1`
pub open spec fn pool_vault_key_text(pool_id: Seq<char>, is_vault0: bool) -> Seq<char> {
    pool_prefix() + pool_id + if is_vault0 {
        vault0_suffix()
    } else {
        vault1_suffix()
    }
}

/// `vault:<address>:asset`
pub open spec fn vault_asset_key_text(vault_id: Seq<char>) -> Seq<char> {
    vault_prefix() + vault_id + asset_suffix()
}

/// `token:<address>`
pub open spec fn token_key_text(token_addr: Seq<char>) -> Seq<char> {
    token_prefix() + token_addr
}

/// `vault:<address>`
pub open spec fn vault_key_text(vault_addr: Seq<char>) -> Seq<char> {
    vault_prefix() + vault_addr
}

/// The text of a literal followed by a further text.
fn joined(head: &str, tail: &str) -> (text: String)
    ensures
        text@ == head@ + tail@,
{
    let mut text = String::from_str(head);
    text.append(tail);
    text
}

/// The key of a pool.
pub fn pool_key(pool_id: &str) -> (key: String)
    ensures
        key@ == pool_key_text(pool_id@),
{
    proof {
        reveal_strlit("pool:");
    }
    assert("pool:"@ =~= pool_prefix());
    joined("pool:", pool_id)
}

/// The key of one of a pool's two assets.
pub fn pool_asset_key(pool_id: &str, is_asset0: bool) -> (key: String)
    ensures
        key@ == pool_asset_key_text(pool_id@, is_asset0),
{
    proof {
        reveal_strlit("pool:");
        reveal_strlit(":asset0");
        reveal_strlit(":asset1");
    }
    assert("pool:"@ =~= pool_prefix());
    assert(":asset0"@ =~= asset0_suffix());
    assert(":asset1"@ =~= asset1_suffix());
    let mut key = joined("pool:", pool_id);
    if is_asset0 {
        key.append(":asset0");
    } else {
        key.append(":asset1");
    }
    key
}

/// The key of one of a pool's two vaults.
pub fn pool_vault_key(pool_id: &str, is_vault0: bool) -> (key: String)
    ensures
        key@ == pool_vault_key_text(pool_id@, is_vault0),
{
    proof {
        reveal_strlit("pool:");
        reveal_strlit(":vault0");
        reveal_strlit(":vault1");
    }
    assert("pool:"@ =~= pool_prefix());
    assert(":vault0"@ =~= vault0_suffix());
    assert(":vault1"@ =~= vault1_suffix());
    let mut key = joined("pool:", pool_id);
    if is_vault0 {
        key.append(":vault0");
    } else {
        key.append(":vault1");
    }
    key
}

/// The key of a vault's asset.
pub fn vault_asset_key(vault_id: &str) -> (key: String)
    ensures
        key@ == vault_asset_key_text(vault_id@),
{
    proof {
        reveal_strlit("vault:");
        reveal_strlit(":asset");
    }
    assert("vault:"@ =~= vault_prefix());
    assert(":asset"@ =~= asset_suffix());
    let mut key = joined("vault:", vault_id);
    key.append(":asset");
    key
}

/// The key that marks a token.
pub fn token_key(token_addr: &str) -> (key: String)
    ensures
        key@ == token_key_text(token_addr@),
{
    proof {
        reveal_strlit("token:");
    }
    assert("token:"@ =~= token_prefix());
    joined("token:", token_addr)
}

/// The key that marks a vault.
pub fn vault_key(vault_addr: &str) -> (key: String)
    ensures
        key@ == vault_key_text(vault_addr@),
{
    proof {
        reveal_strlit("vault:");
    }
    assert("vault:"@ =~= vault_prefix());
    joined("vault:", vault_addr)
}

/// Whether two texts are equal.
pub fn same_text(left: &str, right: &str) -> (same: bool)
    ensures
        same == (left@ == right@),
{
    broadcast use vstd::utf8::encode_utf8_decode_utf8;

    let same = same_bytes(left.as_bytes(), right.as_bytes());
    proof {
        if same {
            assert(vstd::utf8::decode_utf8(vstd::utf8::encode_utf8(left@)) == left@);
            assert(vstd::utf8::decode_utf8(vstd::utf8::encode_utf8(right@)) == right@);
        }
    }
    same
}

/// One write to the registry.
pub struct RegistryEntry {
    pub key: String,
    pub value: String,
}

impl View for RegistryEntry {
    type V = (Seq<char>, Seq<char>);

    open spec fn view(&self) -> (Seq<char>, Seq<char>) {
        (self.key@, self.value@)
    }
}

/// The value written last under a key, if any was.
pub open spec fn latest(log: Seq<(Seq<char>, Seq<char>)>, key: Seq<char>) -> Option<Seq<char>>
    decreases log.len(),
{
    if log.len() == 0 {
        None
    } else if log.last().0 == key {
        Some(log.last().1)
    } else {
        latest(log.drop_last(), key)
    }
}

/// The writes that a reader at a position sees: the first `position` of
/// them, and all of them from a position behind the last.
pub open spec fn seen_at(log: Seq<(Seq<char>, Seq<char>)>, position: int) -> Seq<
    (Seq<char>, Seq<char>),
> {
    if position < log.len() {
        log.take(position)
    } else {
        log
    }
}

/// The registry. Its view is the log of all writes, oldest first.
pub struct RegistryStore {
    entries: Vec<RegistryEntry>,
}

impl View for RegistryStore {
    type V = Seq<(Seq<char>, Seq<char>)>;

    closed spec fn view(&self) -> Seq<(Seq<char>, Seq<char>)> {
        views(self.entries@)
    }
}

impl RegistryStore {
    /// An empty registry.
    pub fn new() -> (store: Self)
        ensures
            store@ == Seq::<(Seq<char>, Seq<char>)>::empty(),
    {
        let store = RegistryStore { entries: Vec::new() };
        assert(store@ =~= Seq::<(Seq<char>, Seq<char>)>::empty());
        store
    }

    /// The number of writes so far.
    pub fn len(&self) -> (len: usize)
        ensures
            len == self@.len(),
    {
        self.entries.len()
    }

    /// The write at a position, if there are that many.
    pub fn entry(&self, position: usize) -> (entry: Option<&RegistryEntry>)
        ensures
            match entry {
                Some(found) => position < self@.len() && found@ == self@[position as int],
                None => position >= self@.len(),
            },
    {
        if position < self.entries.len() {
            Some(&self.entries[position])
        } else {
            None
        }
    }

    /// Appends one write.
    pub fn set(&mut self, key: String, value: &str)
        ensures
            final(self)@ == old(self)@.push((key@, value@)),
    {
        let entry = RegistryEntry { key, value: String::from_str(value) };
        proof {
            crate::model::lemma_views_push(self.entries@, entry);
        }
        self.entries.push(entry);
    }

    /// The value that was current under `key` after the first `position`
    /// writes; a position behind the last write sees all of them.
    pub fn get_at(&self, position: usize, key: &str) -> (value: Option<String>)
        ensures
            match value {
                Some(text) => latest(seen_at(self@, position as int), key@) == Some(text@),
                None => latest(seen_at(self@, position as int), key@) is None,
            },
    {
        let end = if position < self.entries.len() {
            position
        } else {
            self.entries.len()
        };
        let mut i: usize = end;
        assert(self@.take(self@.len() as int) =~= self@);
        while i > 0
            invariant
                i <= end <= self.entries.len(),
                seen_at(self@, position as int) == self@.take(end as int),
                latest(self@.take(end as int), key@) == latest(self@.take(i as int), key@),
            decreases i,
        {
            i -= 1;
            let entry = &self.entries[i];
            proof {
                let longer = self@.take(i + 1);
                assert(longer.drop_last() =~= self@.take(i as int));
                assert(longer.last() == self.entries@[i as int]@);
            }
            if same_text(entry.key.as_str(), key) {
                return Some(entry.value.clone());
            }
        }
        None
    }

    /// The value written last under `key`.
    pub fn get_last(&self, key: &str) -> (value: Option<String>)
        ensures
            match value {
                Some(text) => latest(self@, key@) == Some(text@),
                None => latest(self@, key@) is None,
            },
    {
        assert(seen_at(self@, self@.len() as int) =~= self@);
        self.get_at(self.entries.len(), key)
    }
}

/// The eleven writes that register a pool, in the order they are made.
pub open spec fn component_entries(component: ProtocolComponentView) -> Seq<(Seq<char>, Seq<char>)> {
    let id = component.id;
    let token0 = address_text(component.tokens[0]);
    let token1 = address_text(component.tokens[1]);
    let vault0 = address_text(component.contracts[1]);
    let vault1 = address_text(component.contracts[2]);
    seq![
        (pool_key_text(id), id),
        (pool_asset_key_text(id, true), token0),
        (token_key_text(token0), token0),
        (pool_asset_key_text(id, false), token1),
        (token_key_text(token1), token1),
        (pool_vault_key_text(id, true), vault0),
        (vault_key_text(vault0), vault0),
        (vault_asset_key_text(vault0), token0),
        (pool_vault_key_text(id, false), vault1),
        (vault_key_text(vault1), vault1),
        (vault_asset_key_text(vault1), token1),
    ]
}

/// The writes that register a list of pools.
pub open spec fn components_entries(components: Seq<ProtocolComponentView>) -> Seq<
    (Seq<char>, Seq<char>),
>
    decreases components.len(),
{
    if components.len() == 0 {
        Seq::empty()
    } else {
        components_entries(components.drop_last()) + component_entries(components.last())
    }
}

/// The writes that register the pools of a block.
pub open spec fn block_entries(tx_components: Seq<TransactionProtocolComponentsView>) -> Seq<
    (Seq<char>, Seq<char>),
>
    decreases tx_components.len(),
{
    if tx_components.len() == 0 {
        Seq::empty()
    } else {
        block_entries(tx_components.drop_last()) + components_entries(
            tx_components.last().components,
        )
    }
}

/// Whether a component names the two tokens and the two vaults that its
/// registration reads.
pub open spec fn registrable(component: ProtocolComponentView) -> bool {
    component.tokens.len() >= 2 && component.contracts.len() >= 3
}

/// Registers one pool.
pub fn store_protocol_component(component: &ProtocolComponent, store: &mut RegistryStore)
    requires
        registrable(component@),
    ensures
        final(store)@ == old(store)@ + component_entries(component@),
{
    let pool_id = component.id.as_str();
    assert(views(component.tokens@)[0] == component.tokens@[0]@);
    assert(views(component.tokens@)[1] == component.tokens@[1]@);
    assert(views(component.contracts@)[1] == component.contracts@[1]@);
    assert(views(component.contracts@)[2] == component.contracts@[2]@);
    store.set(pool_key(pool_id), pool_id);

    let token0_addr = store_address(component.tokens[0].as_slice());
    store.set(pool_asset_key(pool_id, true), token0_addr.as_str());
    store.set(token_key(token0_addr.as_str()), token0_addr.as_str());

    let token1_addr = store_address(component.tokens[1].as_slice());
    store.set(pool_asset_key(pool_id, false), token1_addr.as_str());
    store.set(token_key(token1_addr.as_str()), token1_addr.as_str());

    let vault0_addr = store_address(component.contracts[1].as_slice());
    store.set(pool_vault_key(pool_id, true), vault0_addr.as_str());
    store.set(vault_key(vault0_addr.as_str()), vault0_addr.as_str());
    store.set(vault_asset_key(vault0_addr.as_str()), token0_addr.as_str());

    let vault1_addr = store_address(component.contracts[2].as_slice());
    store.set(pool_vault_key(pool_id, false), vault1_addr.as_str());
    store.set(vault_key(vault1_addr.as_str()), vault1_addr.as_str());
    store.set(vault_asset_key(vault1_addr.as_str()), token1_addr.as_str());
    assert(store@ =~= old(store)@ + component_entries(component@));
}

/// Registers every pool that a block created, transaction by transaction.
pub fn store_protocol_components(
    map_protocol_components: &BlockTransactionProtocolComponents,
    store: &mut RegistryStore,
)
    requires
        forall|t: int, c: int|
            0 <= t < map_protocol_components@.len() && 0 <= c
                < map_protocol_components@[t].components.len() ==> registrable(
                #[trigger] map_protocol_components@[t].components[c],
            ),
    ensures
        final(store)@ == old(store)@ + block_entries(map_protocol_components@),
{
    let txs = &map_protocol_components.tx_components;
    let mut t: usize = 0;
    assert(block_entries(map_protocol_components@.take(0)) =~= Seq::empty());
    assert(store@ =~= old(store)@ + block_entries(map_protocol_components@.take(0)));
    while t < txs.len()
        invariant
            t <= txs.len(),
            txs == &map_protocol_components.tx_components,
            forall|t: int, c: int|
                0 <= t < map_protocol_components@.len() && 0 <= c
                    < map_protocol_components@[t].components.len() ==> registrable(
                    #[trigger] map_protocol_components@[t].components[c],
                ),
            store@ == old(store)@ + block_entries(map_protocol_components@.take(t as int)),
        decreases txs.len() - t,
    {
        let components = &txs[t].components;
        let ghost before = store@;
        let ghost listed = map_protocol_components@[t as int].components;
        assert(listed == views(components@));
        let mut c: usize = 0;
        assert(components_entries(listed.take(0)) =~= Seq::empty());
        assert(store@ =~= before + components_entries(listed.take(0)));
        while c < components.len()
            invariant
                c <= components.len(),
                0 <= t < map_protocol_components@.len(),
                listed == map_protocol_components@[t as int].components,
                listed == views(components@),
                forall|c: int| 0 <= c < listed.len() ==> registrable(#[trigger] listed[c]),
                store@ == before + components_entries(listed.take(c as int)),
            decreases components.len() - c,
        {
            assert(listed[c as int] == components@[c as int]@);
            store_protocol_component(&components[c], store);
            proof {
                let longer = listed.take(c + 1);
                assert(longer.drop_last() =~= listed.take(c as int));
                assert(longer.last() == listed[c as int]);
                assert(store@ =~= before + components_entries(longer));
            }
            c += 1;
        }
        proof {
            assert(listed.take(listed.len() as int) =~= listed);
            let longer = map_protocol_components@.take(t + 1);
            assert(longer.drop_last() =~= map_protocol_components@.take(t as int));
            assert(longer.last() == map_protocol_components@[t as int]);
            assert(store@ =~= old(store)@ + block_entries(longer));
        }
        t += 1;
    }
    assert(map_protocol_components@.take(map_protocol_components@.len() as int)
        =~= map_protocol_components@);
}

/// Whether the registry names a vault as one of a pool's two vaults.
pub open spec fn owns_vault(
    log: Seq<(Seq<char>, Seq<char>)>,
    pool_id: Seq<char>,
    vault: Seq<char>,
) -> bool {
    latest(log, pool_vault_key_text(pool_id, true)) == Some(vault) || latest(
        log,
        pool_vault_key_text(pool_id, false),
    ) == Some(vault)
}

/// The pools that own a vault, as far as the first `count` writes name
/// pools: for every write of a pool's own key the pool's id, if the registry
/// names the vault as one of the pool's vaults. A pool written twice is listed
/// twice.
pub open spec fn owners_among(
    log: Seq<(Seq<char>, Seq<char>)>,
    count: int,
    vault: Seq<char>,
) -> Seq<Seq<char>>
    decreases count,
{
    if count <= 0 {
        Seq::empty()
    } else {
        let entry = log[count - 1];
        let earlier = owners_among(log, count - 1, vault);
        if entry.0 == pool_key_text(entry.1) && owns_vault(log, entry.1, vault) {
            earlier.push(entry.1)
        } else {
            earlier
        }
    }
}

/// The pools that own a vault.
pub open spec fn owning_pools(log: Seq<(Seq<char>, Seq<char>)>, vault: Seq<char>) -> Seq<Seq<char>> {
    owners_among(log, log.len() as int, vault)
}

impl RegistryStore {
    /// Whether a pool is registered under an id.
    pub fn is_pool(&self, pool_id: &str) -> (known: bool)
        ensures
            known == (latest(self@, pool_key_text(pool_id@)) is Some),
    {
        self.get_last(pool_key(pool_id).as_str()).is_some()
    }

    /// Whether a vault is registered under an address text.
    pub fn is_vault(&self, vault: &str) -> (known: bool)
        ensures
            known == (latest(self@, vault_key_text(vault@)) is Some),
    {
        self.get_last(vault_key(vault).as_str()).is_some()
    }

    /// Whether the registry names a vault as the given one of a pool's two
    /// vaults.
    fn names_vault(&self, pool_id: &str, is_vault0: bool, vault: &str) -> (named: bool)
        ensures
            named == (latest(self@, pool_vault_key_text(pool_id@, is_vault0)) == Some(vault@)),
    {
        match self.get_last(pool_vault_key(pool_id, is_vault0).as_str()) {
            Some(held) => same_text(held.as_str(), vault),
            None => false,
        }
    }

    /// The pools that own a vault.
    pub fn owning_pools(&self, vault: &str) -> (owners: Vec<String>)
        ensures
            views(owners@) == owning_pools(self@, vault@),
    {
        let mut owners: Vec<String> = Vec::new();
        let mut i: usize = 0;
        assert(views(owners@) =~= owners_among(self@, 0, vault@));
        while i < self.entries.len()
            invariant
                i <= self.entries.len(),
                views(owners@) == owners_among(self@, i as int, vault@),
            decreases self.entries.len() - i,
        {
            let entry = &self.entries[i];
            assert(self@[i as int] == entry@);
            let own_key = pool_key(entry.value.as_str());
            if same_text(entry.key.as_str(), own_key.as_str()) && (self.names_vault(
                entry.value.as_str(),
                true,
                vault,
            ) || self.names_vault(entry.value.as_str(), false, vault)) {
                let owner = entry.value.clone();
                proof {
                    crate::model::lemma_views_push(owners@, owner);
                }
                owners.push(owner);
            }
            i += 1;
        }
        owners
    }
}

// ---------------------------------------------------------------------------
// What the registry knows of pools
// ---------------------------------------------------------------------------

/// Whether the registry holds a pool under an id: the pool's own key leads
/// to the id.
pub open spec fn holds_pool(log: Seq<(Seq<char>, Seq<char>)>, pool_id: Seq<char>) -> bool {
    latest(log, pool_key_text(pool_id)) == Some(pool_id)
}

/// Whether a component is a pool as the registry expects it: it names its
/// tokens and vaults, and its id is the canonical text of its first contract,
/// the pool itself.
pub open spec fn is_pool_component(component: ProtocolComponentView) -> bool {
    registrable(component) && component.id == address_text(component.contracts[0])
}

/// What a lookup finds, in terms of the writes.
pub proof fn lemma_latest(log: Seq<(Seq<char>, Seq<char>)>, key: Seq<char>)
    ensures
        match latest(log, key) {
            Some(value) => exists|n: int| 0 <= n < log.len() && #[trigger] log[n] == (key, value),
            None => forall|n: int| 0 <= n < log.len() ==> (#[trigger] log[n]).0 != key,
        },
    decreases log.len(),
{
    if log.len() > 0 {
        if log.last().0 == key {
            assert(log[log.len() - 1] == (key, log.last().1));
        } else {
            lemma_latest(log.drop_last(), key);
            match latest(log.drop_last(), key) {
                Some(value) => {
                    let n = choose|n: int|
                        0 <= n < log.drop_last().len() && #[trigger] log.drop_last()[n] == (
                            key,
                            value,
                        );
                    assert(log[n] == (key, value));
                },
                None => {
                    assert forall|n: int| 0 <= n < log.len() implies (#[trigger] log[n]).0
                        != key by {
                        if n < log.len() - 1 {
                            assert(log.drop_last()[n] == log[n]);
                        }
                    }
                },
            }
        }
    }
}

/// A key that is written, and always with the same value, leads to that
/// value.
pub proof fn lemma_latest_uniform(
    log: Seq<(Seq<char>, Seq<char>)>,
    key: Seq<char>,
    value: Seq<char>,
    written: int,
)
    requires
        0 <= written < log.len(),
        log[written].0 == key,
        forall|n: int| 0 <= n < log.len() && (#[trigger] log[n]).0 == key ==> log[n].1 == value,
    ensures
        latest(log, key) == Some(value),
{
    lemma_latest(log, key);
    match latest(log, key) {
        Some(found) => {
            let n = choose|n: int| 0 <= n < log.len() && #[trigger] log[n] == (key, found);
            assert(log[n].0 == key);
        },
        None => {
            assert(log[written].0 != key);
        },
    }
}

/// Every write of a registration stems from one of the components, and
/// every component's own key is written.
pub proof fn lemma_components_entries(components: Seq<ProtocolComponentView>)
    ensures
        components_entries(components).len() == 11 * components.len(),
        forall|n: int|
            0 <= n < 11 * components.len() ==> #[trigger] components_entries(components)[n]
                == component_entries(components[n / 11])[n % 11],
    decreases components.len(),
{
    if components.len() > 0 {
        lemma_components_entries(components.drop_last());
        let earlier = components_entries(components.drop_last());
        assert forall|n: int| 0 <= n < 11 * components.len() implies #[trigger] components_entries(
            components,
        )[n] == component_entries(components[n / 11])[n % 11] by {
            if n < earlier.len() {
                assert(components.drop_last()[n / 11] == components[n / 11]);
                assert(components_entries(components)[n] == earlier[n]);
            } else {
                assert(n / 11 == components.len() - 1);
                assert(n % 11 == n - earlier.len());
            }
        }
    }
}

/// Texts that are equal behind a common prefix are equal.
proof fn lemma_prefix_cancel(prefix: Seq<char>, left: Seq<char>, right: Seq<char>)
    requires
        prefix + left == prefix + right,
    ensures
        left == right,
{
    assert(left =~= (prefix + left).skip(prefix.len() as int));
    assert(right =~= (prefix + right).skip(prefix.len() as int));
}

/// A text that ends in a suffix that starts with a colon holds a colon.
proof fn lemma_suffixed_has_colon(id: Seq<char>, stem: Seq<char>, suffix: Seq<char>)
    requires
        id == stem + suffix,
        suffix.len() > 0,
        suffix[0] == ':',
    ensures
        !colon_free(id),
{
    assert(id[stem.len() as int] == ':');
}

/// What a write under a pool's own key says: it was made for a pool of that
/// id, or its value holds no colon while the id does.
proof fn lemma_write_under_pool_key(component: ProtocolComponentView, slot: int, id: Seq<char>)
    requires
        is_pool_component(component),
        0 <= slot < 11,
        component_entries(component)[slot].0 == pool_key_text(id),
    ensures
        colon_free(component_entries(component)[slot].1),
        slot == 0 ==> component.id == id,
        slot != 0 ==> !colon_free(id),
{
    let entry = component_entries(component)[slot];
    let cid = component.id;
    lemma_address_text_plain(component.contracts[0]);
    lemma_address_text_plain(component.tokens[0]);
    lemma_address_text_plain(component.tokens[1]);
    lemma_address_text_plain(component.contracts[1]);
    lemma_address_text_plain(component.contracts[2]);
    let key = pool_key_text(id);
    assert(key[0] == 'p');
    if slot == 0 {
        lemma_prefix_cancel(pool_prefix(), cid, id);
    } else if slot == 1 || slot == 3 || slot == 5 || slot == 8 {
        let suffix = if slot == 1 {
            asset0_suffix()
        } else if slot == 3 {
            asset1_suffix()
        } else if slot == 5 {
            vault0_suffix()
        } else {
            vault1_suffix()
        };
        assert(entry.0 =~= pool_prefix() + (cid + suffix));
        lemma_prefix_cancel(pool_prefix(), cid + suffix, id);
        lemma_suffixed_has_colon(id, cid, suffix);
    } else if slot == 2 || slot == 4 {
        assert(entry.0[0] == 't');
    } else {
        assert(entry.0[0] == 'v');
    }
}

/// The registry holds a pool under an id exactly if a component with that id
/// was registered: no id gets there on any other way.
pub proof fn lemma_registered_pools(components: Seq<ProtocolComponentView>, pool_id: Seq<char>)
    requires
        forall|j: int| 0 <= j < components.len() ==> is_pool_component(#[trigger] components[j]),
    ensures
        holds_pool(components_entries(components), pool_id) <==> exists|j: int|
            0 <= j < components.len() && (#[trigger] components[j]).id == pool_id,
{
    let log = components_entries(components);
    let key = pool_key_text(pool_id);
    lemma_components_entries(components);
    lemma_latest(log, key);
    if holds_pool(log, pool_id) {
        let n = choose|n: int| 0 <= n < log.len() && #[trigger] log[n] == (key, pool_id);
        let component = components[n / 11];
        assert(is_pool_component(component));
        lemma_write_under_pool_key(component, n % 11, pool_id);
        assert(components[n / 11].id == pool_id);
    }
    if exists|j: int| 0 <= j < components.len() && (#[trigger] components[j]).id == pool_id {
        let j = choose|j: int| 0 <= j < components.len() && (#[trigger] components[j]).id == pool_id;
        assert(is_pool_component(components[j]));
        lemma_address_text_plain(components[j].contracts[0]);
        assert(log[11 * j] == component_entries(components[(11 * j) / 11])[(11 * j) % 11]);
        assert forall|n: int| 0 <= n < log.len() && (#[trigger] log[n]).0 == key implies log[n].1
            == pool_id by {
            assert(is_pool_component(components[n / 11]));
            lemma_write_under_pool_key(components[n / 11], n % 11, pool_id);
        }
        lemma_latest_uniform(log, key, pool_id, 11 * j);
    }
}

/// The components of a block, transaction after transaction.
pub open spec fn block_listing(tx_components: Seq<TransactionProtocolComponentsView>) -> Seq<
    ProtocolComponentView,
>
    decreases tx_components.len(),
{
    if tx_components.len() == 0 {
        Seq::empty()
    } else {
        block_listing(tx_components.drop_last()) + tx_components.last().components
    }
}

/// Registering two lists of components one after the other writes what
/// registering them joined writes.
proof fn lemma_components_entries_joined(
    first: Seq<ProtocolComponentView>,
    second: Seq<ProtocolComponentView>,
)
    ensures
        components_entries(first + second) == components_entries(first) + components_entries(
            second,
        ),
    decreases second.len(),
{
    if second.len() == 0 {
        assert(first + second =~= first);
        assert(components_entries(first) + components_entries(second) =~= components_entries(
            first,
        ));
    } else {
        assert((first + second).drop_last() =~= first + second.drop_last());
        assert((first + second).last() == second.last());
        lemma_components_entries_joined(first, second.drop_last());
        assert(components_entries(first + second) =~= components_entries(first)
            + components_entries(second));
    }
}

/// Registering a block writes what registering its components one after the
/// other writes.
pub proof fn lemma_block_entries(tx_components: Seq<TransactionProtocolComponentsView>)
    ensures
        block_entries(tx_components) == components_entries(block_listing(tx_components)),
    decreases tx_components.len(),
{
    if tx_components.len() > 0 {
        lemma_block_entries(tx_components.drop_last());
        lemma_components_entries_joined(
            block_listing(tx_components.drop_last()),
            tx_components.last().components,
        );
    }
}

/// A qualifying write among the first `count` puts its pool among the
/// owners.
proof fn lemma_owner_listed(
    log: Seq<(Seq<char>, Seq<char>)>,
    count: int,
    vault: Seq<char>,
    written: int,
)
    requires
        0 <= written < count <= log.len(),
        log[written].0 == pool_key_text(log[written].1),
        owns_vault(log, log[written].1, vault),
    ensures
        owners_among(log, count, vault).contains(log[written].1),
    decreases count,
{
    let earlier = owners_among(log, count - 1, vault);
    if written == count - 1 {
        assert(earlier.push(log[written].1)[earlier.len() as int] == log[written].1);
    } else {
        lemma_owner_listed(log, count - 1, vault, written);
        let at = earlier.index_of(log[written].1);
        assert(earlier[at] == log[written].1);
        let entry = log[count - 1];
        if entry.0 == pool_key_text(entry.1) && owns_vault(log, entry.1, vault) {
            assert(earlier.push(entry.1)[at] == log[written].1);
        }
    }
}

/// What a write under the key of a pool's vault says: it was made for a pool
/// of that id, and for that vault of it.
proof fn lemma_write_under_vault_key(
    component: ProtocolComponentView,
    slot: int,
    id: Seq<char>,
    is_vault0: bool,
)
    requires
        is_pool_component(component),
        colon_free(id),
        0 <= slot < 11,
        component_entries(component)[slot].0 == pool_vault_key_text(id, is_vault0),
    ensures
        component.id == id,
        slot == (if is_vault0 {
            5int
        } else {
            8int
        }),
{
    let entry = component_entries(component)[slot];
    let cid = component.id;
    lemma_address_text_plain(component.contracts[0]);
    let suffix = if is_vault0 {
        vault0_suffix()
    } else {
        vault1_suffix()
    };
    let key = pool_vault_key_text(id, is_vault0);
    assert(key =~= pool_prefix() + (id + suffix));
    assert(key[0] == 'p');
    if slot == 0 {
        lemma_prefix_cancel(pool_prefix(), cid, id + suffix);
        lemma_suffixed_has_colon(cid, id, suffix);
    } else if slot == 1 || slot == 3 || slot == 5 || slot == 8 {
        let other = if slot == 1 {
            asset0_suffix()
        } else if slot == 3 {
            asset1_suffix()
        } else if slot == 5 {
            vault0_suffix()
        } else {
            vault1_suffix()
        };
        assert(entry.0 =~= pool_prefix() + (cid + other));
        lemma_prefix_cancel(pool_prefix(), cid + other, id + suffix);
        assert((cid + other).len() == (id + suffix).len());
        assert(cid.len() == id.len());
        assert((cid + other)[(cid.len() + 1) as int] == other[1]);
        assert((id + suffix)[(id.len() + 1) as int] == suffix[1]);
        assert((cid + other)[(cid.len() + 6) as int] == other[6]);
        assert((id + suffix)[(id.len() + 6) as int] == suffix[6]);
        assert(cid =~= (cid + other).subrange(0, cid.len() as int));
        assert(id =~= (id + suffix).subrange(0, id.len() as int));
    } else if slot == 2 || slot == 4 {
        assert(entry.0[0] == 't');
    } else {
        assert(entry.0[0] == 'v');
    }
}

/// A registered pool owns its vaults: where no two components share an id,
/// each of a component's two vaults is owned by the component.
pub proof fn lemma_registered_pool_owns_its_vaults(
    components: Seq<ProtocolComponentView>,
    position: int,
    is_vault0: bool,
)
    requires
        0 <= position < components.len(),
        forall|j: int| 0 <= j < components.len() ==> is_pool_component(#[trigger] components[j]),
        forall|i: int, j: int|
            0 <= i < j < components.len() ==> (#[trigger] components[i]).id
                != (#[trigger] components[j]).id,
    ensures
        owning_pools(
            components_entries(components),
            address_text(
                components[position].contracts[if is_vault0 {
                    1int
                } else {
                    2int
                }],
            ),
        ).contains(components[position].id),
{
    let log = components_entries(components);
    let component = components[position];
    let id = component.id;
    let vault = address_text(
        component.contracts[if is_vault0 {
            1int
        } else {
            2int
        }],
    );
    let key = pool_vault_key_text(id, is_vault0);
    let slot = if is_vault0 {
        5int
    } else {
        8int
    };
    lemma_components_entries(components);
    assert(is_pool_component(component));
    lemma_address_text_plain(component.contracts[0]);
    let own = 11 * position;
    let written = 11 * position + slot;
    assert(own / 11 == position && own % 11 == 0);
    assert(written / 11 == position && written % 11 == slot);
    assert(log[own] == component_entries(components[own / 11])[own % 11]);
    assert(log[written] == component_entries(components[written / 11])[written % 11]);
    assert forall|n: int| 0 <= n < log.len() && (#[trigger] log[n]).0 == key implies log[n].1
        == vault by {
        assert(is_pool_component(components[n / 11]));
        lemma_write_under_vault_key(components[n / 11], n % 11, id, is_vault0);
        if n / 11 < position {
            assert(components[n / 11].id != components[position].id);
        }
        if n / 11 > position {
            assert(components[position].id != components[n / 11].id);
        }
    }
    lemma_latest_uniform(log, key, vault, written);
    lemma_owner_listed(log, log.len() as int, vault, own);
}

} // verus!
