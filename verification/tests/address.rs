use ethereum_eulerswap::address::{
    address_to_bytes_with_0x, address_to_string_with_0x, decode_address, store_address,
};
use ethereum_eulerswap::constants::{EULERSWAP_FACTORY, EVC_ADDRESS, PERMIT_2};
use ethereum_eulerswap::pool_factories::format_pool_id;

#[test]
fn encodes_lower_case_with_prefix() {
    assert_eq!(address_to_string_with_0x(&[0x0c, 0x9a, 0xff]), "0x0c9aff");
    assert_eq!(store_address(&[0x00, 0x01]), "0x0001");
    assert_eq!(format_pool_id(&[]), "0x");
}

#[test]
fn encodes_the_fixed_addresses() {
    assert_eq!(format_pool_id(&EVC_ADDRESS), "0x0c9a3dd6b8f28529d72d7f9ce918d493519ee383");
    assert_eq!(format_pool_id(&PERMIT_2), "0x000000000022d473030f116ddee9f6b43ac78ba3");
    assert_eq!(
        format_pool_id(&EULERSWAP_FACTORY),
        "0xa4891c18f036f14d7975b0869d77ea7c7032e0ff"
    );
}

#[test]
fn encodes_to_the_bytes_of_the_text() {
    assert_eq!(address_to_bytes_with_0x(&[0xab, 0x01]), b"0xab01".to_vec());
}

#[test]
fn decodes_either_case() {
    assert_eq!(decode_address("0xAbCd01"), vec![0xab, 0xcd, 0x01]);
    assert_eq!(decode_address("0xabcd01"), vec![0xab, 0xcd, 0x01]);
}

#[test]
fn decoding_skips_the_first_two_bytes_whatever_they_are() {
    assert_eq!(decode_address("zz0a"), vec![0x0a]);
    assert_eq!(decode_address("0x"), Vec::<u8>::new());
}

#[test]
fn malformed_text_decodes_to_nothing() {
    assert_eq!(decode_address("0xabc"), Vec::<u8>::new());
    assert_eq!(decode_address("0xzz"), Vec::<u8>::new());
    assert_eq!(decode_address("0"), Vec::<u8>::new());
    assert_eq!(decode_address(""), Vec::<u8>::new());
    assert_eq!(decode_address("0\u{e9}12"), Vec::<u8>::new());
}

#[test]
fn decoding_inverts_encoding() {
    let address: Vec<u8> = (0u8..20).map(|i| i.wrapping_mul(13)).collect();
    assert_eq!(decode_address(&format_pool_id(&address)), address);
    assert_eq!(decode_address(&format_pool_id(&EVC_ADDRESS)), EVC_ADDRESS.to_vec());
}
