use consistent_balances::address::{owner, SuiAddress};
use consistent_balances::error::Error;
use consistent_balances::keys::requested_owner;

fn ending_in(last: u8) -> SuiAddress {
    let mut bytes = [0u8; 32];
    bytes[31] = last;
    SuiAddress { bytes }
}

#[test]
fn short_owner_is_zero_extended() {
    assert_eq!(owner("0x2"), Ok(ending_in(2)));
    assert_eq!(owner("0x02"), Ok(ending_in(2)));
    assert_eq!(owner("0xfF"), Ok(ending_in(255)));
}

#[test]
fn full_owner_is_read_as_it_is() {
    let text = "0x0123456789abcdefABCDEF00112233445566778899aabbccddeeff0011223344";
    let address = owner(text).unwrap();
    assert_eq!(address.bytes[0], 0x01);
    assert_eq!(address.bytes[7], 0xef);
    assert_eq!(address.bytes[8], 0xab);
    assert_eq!(address.bytes[10], 0xef);
    assert_eq!(address.bytes[31], 0x44);
}

#[test]
fn owner_text_round_trip() {
    let mut bytes = [0u8; 32];
    for (i, byte) in bytes.iter_mut().enumerate() {
        *byte = (7 * i + 200) as u8;
    }
    let address = SuiAddress { bytes };
    assert_eq!(owner(&address.to_string()), Ok(address));
    assert_eq!(
        ending_in(0xab).to_string(),
        format!("0x{}ab", "0".repeat(62)),
    );
}

#[test]
fn owner_without_prefix_is_refused_whole() {
    assert_eq!(owner("2"), Err(Error::InvalidOwner("2".to_string())));
    assert_eq!(owner("0X2"), Err(Error::InvalidOwner("0X2".to_string())));
    assert_eq!(owner(""), Err(Error::InvalidOwner("".to_string())));
    assert_eq!(owner("\u{e9}x2"), Err(Error::InvalidOwner("\u{e9}x2".to_string())));
}

#[test]
fn owner_of_wrong_length_is_refused_without_prefix() {
    assert_eq!(owner("0x"), Err(Error::InvalidOwner("".to_string())));
    let long = "1".repeat(65);
    assert_eq!(owner(&format!("0x{long}")), Err(Error::InvalidOwner(long)));
    // 33 characters of two bytes each.
    let wide = "\u{e9}".repeat(33);
    assert_eq!(owner(&format!("0x{wide}")), Err(Error::InvalidOwner(wide)));
}

#[test]
fn owner_that_is_not_hexadecimal_is_refused_padded() {
    let padded = format!("0x{}g", "0".repeat(63));
    assert_eq!(owner("0xg"), Err(Error::InvalidOwner(padded)));
    let padded = format!("0x{}\u{e9}", "0".repeat(63));
    assert_eq!(owner("0x\u{e9}"), Err(Error::InvalidOwner(padded)));
    let full = format!("0x{}", "z".repeat(64));
    assert_eq!(owner(&full), Err(Error::InvalidOwner(full.clone())));
    // 32 characters of two bytes each are as long as an address in bytes.
    let wide = format!("0x{}", "\u{e9}".repeat(32));
    assert_eq!(owner(&wide), Err(Error::InvalidOwner(wide.clone())));
}

#[test]
fn empty_owner_is_missing() {
    assert_eq!(requested_owner(""), Err(Error::MissingOwner));
    assert_eq!(requested_owner("0x3"), Ok(ending_in(3)));
}

#[test]
fn widened_bytes_keep_their_value() {
    assert_eq!(SuiAddress::widen(&vec![3]), ending_in(3));
    assert_eq!(SuiAddress::widen(&vec![]), ending_in(0));
    let full: Vec<u8> = (0..32).collect();
    assert_eq!(SuiAddress::widen(&full).bytes.to_vec(), full);
}
