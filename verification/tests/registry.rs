use ethereum_eulerswap::model::{
    BlockTransactionProtocolComponents, ChangeType, ProtocolComponent, Transaction,
    TransactionProtocolComponents,
};
use ethereum_eulerswap::pool_factories::format_pool_id;
use ethereum_eulerswap::registry::{
    pool_asset_key, pool_key, pool_vault_key, same_text, store_protocol_component,
    store_protocol_components, token_key, vault_asset_key, vault_key, RegistryStore,
};

fn address(byte: u8) -> Vec<u8> {
    vec![byte; 20]
}

fn text(byte: u8) -> String {
    format_pool_id(&address(byte))
}

fn component(pool: u8, token0: u8, token1: u8, vault0: u8, vault1: u8) -> ProtocolComponent {
    ProtocolComponent {
        id: text(pool),
        tokens: vec![address(token0), address(token1)],
        contracts: vec![address(pool), address(vault0), address(vault1)],
        static_att: vec![],
        change: ChangeType::Creation,
        protocol_type: None,
    }
}

fn transaction(index: u64) -> Transaction {
    Transaction { hash: vec![index as u8], from: vec![], to: vec![], index }
}

#[test]
fn keys_have_their_fixed_shapes() {
    assert_eq!(pool_key("0xab"), "pool:0xab");
    assert_eq!(pool_asset_key("0xab", true), "pool:0xab:asset0");
    assert_eq!(pool_asset_key("0xab", false), "pool:0xab:asset1");
    assert_eq!(pool_vault_key("0xab", true), "pool:0xab:vault0");
    assert_eq!(pool_vault_key("0xab", false), "pool:0xab:vault1");
    assert_eq!(vault_asset_key("0xcd"), "vault:0xcd:asset");
    assert_eq!(token_key("0xef"), "token:0xef");
    assert_eq!(vault_key("0xcd"), "vault:0xcd");
    assert_eq!(pool_key(""), "pool:");
}

#[test]
fn texts_compare_by_their_characters() {
    assert!(same_text("pool:0xab", "pool:0xab"));
    assert!(!same_text("pool:0xab", "pool:0xac"));
    assert!(!same_text("pool:0xab", "pool:0xab:asset0"));
    assert!(same_text("", ""));
}

#[test]
fn empty_registry_knows_nothing() {
    let store = RegistryStore::new();
    assert_eq!(store.len(), 0);
    assert_eq!(store.get_last("pool:0x01"), None);
    assert!(!store.is_pool("0x01"));
    assert!(!store.is_vault("0x01"));
    assert!(store.owning_pools("0x01").is_empty());
}

#[test]
fn last_write_under_a_key_is_returned() {
    let mut store = RegistryStore::new();
    store.set("k".to_string(), "first");
    store.set("other".to_string(), "x");
    store.set("k".to_string(), "second");
    assert_eq!(store.get_last("k"), Some("second".to_string()));
    assert_eq!(store.get_last("other"), Some("x".to_string()));
    assert_eq!(store.get_last("missing"), None);
}

#[test]
fn earlier_positions_see_earlier_values() {
    let mut store = RegistryStore::new();
    store.set("k".to_string(), "first");
    store.set("k".to_string(), "second");
    assert_eq!(store.get_at(0, "k"), None);
    assert_eq!(store.get_at(1, "k"), Some("first".to_string()));
    assert_eq!(store.get_at(2, "k"), Some("second".to_string()));
    assert_eq!(store.get_at(9, "k"), Some("second".to_string()));
    assert_eq!(store.entry(0).unwrap().key, "k");
    assert_eq!(store.entry(1).unwrap().value, "second");
    assert!(store.entry(2).is_none());
}

#[test]
fn a_pool_is_registered_with_eleven_entries_in_order() {
    let mut store = RegistryStore::new();
    store_protocol_component(&component(0x01, 0xa0, 0xa1, 0x11, 0x12), &mut store);
    assert_eq!(store.len(), 11);
    let pool = text(0x01);
    let expected = [
        (format!("pool:{pool}"), pool.clone()),
        (format!("pool:{pool}:asset0"), text(0xa0)),
        (format!("token:{}", text(0xa0)), text(0xa0)),
        (format!("pool:{pool}:asset1"), text(0xa1)),
        (format!("token:{}", text(0xa1)), text(0xa1)),
        (format!("pool:{pool}:vault0"), text(0x11)),
        (format!("vault:{}", text(0x11)), text(0x11)),
        (format!("vault:{}:asset", text(0x11)), text(0xa0)),
        (format!("pool:{pool}:vault1"), text(0x12)),
        (format!("vault:{}", text(0x12)), text(0x12)),
        (format!("vault:{}:asset", text(0x12)), text(0xa1)),
    ];
    for (position, (key, value)) in expected.iter().enumerate() {
        assert_eq!(store.get_at(position, key), None, "{key} before its write");
        assert_eq!(store.get_at(position + 1, key), Some(value.clone()), "{key}");
    }
}

#[test]
fn registered_ids_are_exactly_those_of_the_components() {
    let created = BlockTransactionProtocolComponents {
        tx_components: vec![
            TransactionProtocolComponents {
                tx: transaction(0),
                components: vec![
                    component(0x01, 0xa0, 0xa1, 0x11, 0x12),
                    component(0x02, 0xa0, 0xa2, 0x11, 0x13),
                ],
            },
            TransactionProtocolComponents {
                tx: transaction(4),
                components: vec![component(0x03, 0xa3, 0xa4, 0x14, 0x15)],
            },
        ],
    };
    let mut store = RegistryStore::new();
    store_protocol_components(&created, &mut store);
    assert_eq!(store.len(), 33);
    for pool in [0x01u8, 0x02, 0x03] {
        assert_eq!(store.get_last(&pool_key(&text(pool))), Some(text(pool)));
        assert!(store.is_pool(&text(pool)));
    }
    for other in [0xa0u8, 0xa1, 0x11, 0x12, 0x13, 0x04, 0x00] {
        assert!(!store.is_pool(&text(other)), "{other:#x} is no pool");
    }
    for vault in [0x11u8, 0x12, 0x13, 0x14, 0x15] {
        assert!(store.is_vault(&text(vault)));
    }
    assert!(!store.is_vault(&text(0x01)));
    assert!(!store.is_vault(&text(0xa0)));
}

#[test]
fn an_empty_block_registers_nothing() {
    let mut store = RegistryStore::new();
    store_protocol_components(
        &BlockTransactionProtocolComponents { tx_components: vec![] },
        &mut store,
    );
    assert_eq!(store.len(), 0);
}

#[test]
fn a_vault_is_owned_by_every_pool_that_names_it() {
    let mut store = RegistryStore::new();
    store_protocol_component(&component(0x01, 0xa0, 0xa1, 0x11, 0x12), &mut store);
    store_protocol_component(&component(0x02, 0xa0, 0xa2, 0x11, 0x13), &mut store);
    assert_eq!(store.owning_pools(&text(0x11)), vec![text(0x01), text(0x02)]);
    assert_eq!(store.owning_pools(&text(0x12)), vec![text(0x01)]);
    assert_eq!(store.owning_pools(&text(0x13)), vec![text(0x02)]);
    assert!(store.owning_pools(&text(0x01)).is_empty());
    assert!(store.owning_pools(&text(0x99)).is_empty());
}
