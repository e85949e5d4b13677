//! The fixed addresses of the protocol's shared contracts.

use vstd::prelude::*;
use crate::model::same_bytes;

verus! {

/// The Ethereum Vault Connector.
pub const EVC_ADDRESS: [u8; 20] = [
    0x0c, 0x9a, 0x3d, 0xd6, 0xb8, 0xf2, 0x85, 0x29, 0xd7, 0x2d,
    0x7f, 0x9c, 0xe9, 0x18, 0xd4, 0x93, 0x51, 0x9e, 0xe3, 0x83,
];

/// The EulerSwap periphery contract.
pub const EULERSWAP_PERIPHERY: [u8; 20] = [
    0x4f, 0xe0, 0x54, 0x7e, 0x7b, 0xe0, 0xe9, 0xa9, 0xce, 0xd3,
    0xac, 0x94, 0x8b, 0x83, 0x14, 0x69, 0x96, 0xf8, 0x99, 0xae,
];

/// The implementation that every pool delegates to.
pub const EULERSWAP_IMPLEMENTATION: [u8; 20] = [
    0x27, 0x0e, 0x7d, 0x14, 0xf3, 0x04, 0xc0, 0xdf, 0x91, 0xe5,
    0x09, 0x96, 0x07, 0x25, 0x25, 0xb2, 0x49, 0x78, 0xe1, 0x7f,
];

/// The vault implementation.
pub const EVK_EVAULT_IMPL: [u8; 20] = [
    0x8f, 0xf1, 0xc8, 0x14, 0x71, 0x90, 0x96, 0xb6, 0x1a, 0xbf,
    0x00, 0xbb, 0x46, 0xea, 0xd0, 0xc9, 0xa5, 0x29, 0xdd, 0x7d,
];

/// The vault module of the vault implementation.
pub const EVK_VAULT_MODULE_IMPL: [u8; 20] = [
    0xb4, 0xad, 0x4d, 0x9c, 0x02, 0xc0, 0x1b, 0x01, 0xcf, 0x58,
    0x6c, 0x16, 0xf0, 0x1c, 0x58, 0xc7, 0x3c, 0x7f, 0x01, 0x88,
];

/// The borrowing module of the vault implementation.
pub const EVK_BORROWING_MODULE_IMPL: [u8; 20] = [
    0x63, 0x91, 0x56, 0xf8, 0xfe, 0xb0, 0xcd, 0x88, 0x20, 0x5e,
    0x48, 0x61, 0xa0, 0x22, 0x4e, 0xc1, 0x69, 0x60, 0x5a, 0xcf,
];

/// The governance module of the vault implementation.
pub const EVK_GOVERNANCE_MODULE_IMPL: [u8; 20] = [
    0xa6, 0x1f, 0x50, 0x16, 0xf2, 0xcd, 0x5c, 0xec, 0x12, 0xd0,
    0x91, 0xf8, 0x71, 0xfc, 0xe1, 0xe1, 0xdf, 0x5f, 0x0b, 0x67,
];

/// The factory that deploys vaults.
pub const EVK_GENERIC_FACTORY: [u8; 20] = [
    0x29, 0xa5, 0x6a, 0x1b, 0x82, 0x14, 0xd9, 0xcf, 0x7c, 0x55,
    0x61, 0x81, 0x17, 0x50, 0xd5, 0xcb, 0xdb, 0x45, 0xcc, 0x8e,
];

/// The Permit2 contract.
pub const PERMIT_2: [u8; 20] = [
    0x00, 0x00, 0x00, 0x00, 0x00, 0x22, 0xd4, 0x73, 0x03, 0x0f,
    0x11, 0x6d, 0xde, 0xe9, 0xf6, 0xb4, 0x3a, 0xc7, 0x8b, 0xa3,
];

/// The factory that deploys pools.
pub const EULERSWAP_FACTORY: [u8; 20] = [
    0xa4, 0x89, 0x1c, 0x18, 0xf0, 0x36, 0xf1, 0x4d, 0x79, 0x75,
    0xb0, 0x86, 0x9d, 0x77, 0xea, 0x7c, 0x70, 0x32, 0xe0, 0xff,
];

/// Whether an address is one of the shared contracts whose storage is
/// followed although no pool or vault is registered under it.
pub open spec fn is_fixed_address(address: Seq<u8>) -> bool {
    ||| address == EVC_ADDRESS@
    ||| address == EULERSWAP_PERIPHERY@
    ||| address == EULERSWAP_IMPLEMENTATION@
    ||| address == EVK_EVAULT_IMPL@
    ||| address == EVK_VAULT_MODULE_IMPL@
    ||| address == EVK_BORROWING_MODULE_IMPL@
    ||| address == EVK_GOVERNANCE_MODULE_IMPL@
    ||| address == EVK_GENERIC_FACTORY@
}

/// Whether an address is one of the shared contracts whose storage is
/// followed although no pool or vault is registered under it.
pub fn is_known_fixed_address(address: &[u8]) -> (known: bool)
    ensures
        known == is_fixed_address(address@),
{
    same_bytes(address, EVC_ADDRESS.as_slice()) || same_bytes(
        address,
        EULERSWAP_PERIPHERY.as_slice(),
    ) || same_bytes(address, EULERSWAP_IMPLEMENTATION.as_slice()) || same_bytes(
        address,
        EVK_EVAULT_IMPL.as_slice(),
    ) || same_bytes(address, EVK_VAULT_MODULE_IMPL.as_slice()) || same_bytes(
        address,
        EVK_BORROWING_MODULE_IMPL.as_slice(),
    ) || same_bytes(address, EVK_GOVERNANCE_MODULE_IMPL.as_slice()) || same_bytes(
        address,
        EVK_GENERIC_FACTORY.as_slice(),
    )
}

} // verus!
