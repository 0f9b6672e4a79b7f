use slpagora::address::{
    b32_encode, from_cash_addr, to_cash_addr, Address, AddressError, AddressType,
};
use slpagora::bits::convert_bits;
use slpagora::checksum::calculate_checksum;

const CHARSET: &[u8] = b"qpzry9x8gf2tvdw0s3jn54khce6mua7l";

#[test]
fn zero_hash_encodes_to_a_54_character_address() {
    let addr = to_cash_addr("bitcoincash", AddressType::P2PKH, &[0u8; 20]);
    assert_eq!(addr.len(), 54);
    assert!(addr.starts_with("bitcoincash:q"));
    let (hash, addr_type, prefix) = from_cash_addr(&addr).expect("the encoding decodes");
    assert_eq!(hash, [0u8; 20]);
    assert_eq!(addr_type, AddressType::P2PKH);
    assert_eq!(prefix, "bitcoincash");
}

#[test]
fn addresses_round_trip_for_both_types_and_prefixes() {
    let mut hash = [0u8; 20];
    for i in 0..20 {
        hash[i] = (i as u8) * 7 + 3;
    }
    for &prefix in &["bitcoincash", "simpleledger"] {
        for &t in &[AddressType::P2PKH, AddressType::P2SH] {
            let addr = to_cash_addr(prefix, t, &hash);
            let (h, dt, p) = from_cash_addr(&addr).expect("the encoding decodes");
            assert_eq!(h, hash);
            assert_eq!(dt, t);
            assert_eq!(p, prefix);
        }
    }
}

#[test]
fn uppercase_input_decodes_to_the_same_address() {
    let addr = to_cash_addr("bitcoincash", AddressType::P2SH, &[0x11u8; 20]);
    let upper = addr.to_uppercase();
    let (h, t, p) = from_cash_addr(&upper).expect("uppercase input decodes");
    assert_eq!(h, [0x11u8; 20]);
    assert_eq!(t, AddressType::P2SH);
    assert_eq!(p, "bitcoincash");
}

#[test]
fn missing_prefix_defaults_to_the_mainnet_prefix() {
    let addr = to_cash_addr("bitcoincash", AddressType::P2PKH, &[0x42u8; 20]);
    let payload = addr.split(':').nth(1).unwrap();
    let (h, t, p) = from_cash_addr(payload).expect("a bare payload decodes");
    assert_eq!(h, [0x42u8; 20]);
    assert_eq!(t, AddressType::P2PKH);
    assert_eq!(p, "bitcoincash");
}

#[test]
fn noncanonical_input_caches_the_canonical_respelling() {
    let canonical = to_cash_addr("bitcoincash", AddressType::P2PKH, &[0x27u8; 20]);
    let upper = Address::from_cash_addr(canonical.to_uppercase()).expect("uppercase decodes");
    assert_eq!(upper.cash_addr(), canonical);
    let bare = canonical.split(':').nth(1).unwrap().to_string();
    let parsed = Address::from_cash_addr(bare).expect("a bare payload decodes");
    assert_eq!(parsed.cash_addr(), canonical);
    assert_eq!(parsed.bytes(), &[0x27u8; 20]);
}

#[test]
fn flipping_any_single_digit_is_rejected_as_a_checksum_error() {
    let addr = to_cash_addr("bitcoincash", AddressType::P2PKH, &[0x5au8; 20]);
    let bytes = addr.as_bytes();
    let colon = addr.find(':').unwrap();
    for i in colon + 1..bytes.len() {
        let original = bytes[i];
        let replacement = CHARSET
            .iter()
            .copied()
            .find(|&c| c != original)
            .unwrap();
        let mut flipped = bytes.to_vec();
        flipped[i] = replacement;
        let flipped = String::from_utf8(flipped).unwrap();
        assert_eq!(
            from_cash_addr(&flipped),
            Err(AddressError::InvalidChecksum),
            "a flipped digit at {} must fail the checksum",
            i
        );
    }
}

#[test]
fn a_byte_outside_the_alphabet_is_reported_with_its_position() {
    let addr = to_cash_addr("bitcoincash", AddressType::P2PKH, &[9u8; 20]);
    let colon = addr.find(':').unwrap();
    let mut bytes = addr.as_bytes().to_vec();
    bytes[colon + 3] = b'b';
    let broken = String::from_utf8(bytes).unwrap();
    assert_eq!(
        from_cash_addr(&broken),
        Err(AddressError::InvalidBase32Letter(2, b'b'))
    );
}

#[test]
fn an_unknown_version_byte_is_rejected_as_an_address_type() {
    let mut body = vec![1u8];
    body.extend_from_slice(&[0u8; 20]);
    let payload = convert_bits(&body, 8, 5, true).unwrap();
    let checksum = calculate_checksum(b"bitcoincash", &payload);
    let mut digits = payload;
    digits.extend_from_slice(&checksum);
    let addr = format!("bitcoincash:{}", b32_encode(&digits));
    assert_eq!(
        from_cash_addr(&addr),
        Err(AddressError::InvalidAddressType(1))
    );
}

#[test]
fn the_address_type_caches_its_canonical_string() {
    let a = Address::from_bytes(AddressType::P2PKH, [3u8; 20]);
    assert_eq!(a.prefix(), "bitcoincash");
    assert_eq!(
        a.cash_addr(),
        to_cash_addr("bitcoincash", AddressType::P2PKH, &[3u8; 20])
    );
    assert_eq!(a.bytes(), &[3u8; 20]);
    let parsed = Address::from_cash_addr(a.cash_addr().to_string()).expect("the cache decodes");
    assert_eq!(parsed.bytes(), &[3u8; 20]);
    assert_eq!(parsed.addr_type(), AddressType::P2PKH);
}
