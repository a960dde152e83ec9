use consistent_balances::error::{Error, InternalError};
use consistent_balances::text::{chars_of, push_decimal, push_signed_decimal};

fn signed(n: i128) -> String {
    let mut text = String::from("n=");
    push_signed_decimal(&mut text, n);
    text
}

#[test]
fn refusals_are_invalid_arguments() {
    for error in [
        Error::InvalidOwner("x".to_string()),
        Error::InvalidType("x".to_string()),
        Error::MissingOwner,
        Error::MissingType,
        Error::TooManyRequests(3, 2),
    ] {
        assert_eq!(error.code(), tonic::Code::InvalidArgument);
    }
}

#[test]
fn refusal_messages() {
    assert_eq!(
        Error::InvalidOwner("a\"\n\u{e9}".to_string()).message(),
        "Invalid 'owner': \"a\\\"\\n\u{e9}\"",
    );
    assert_eq!(
        Error::InvalidType("0x2".to_string()).message(),
        "Invalid 'coin_type': \"0x2\"",
    );
    assert_eq!(Error::MissingOwner.message(), "Missing 'owner'");
    assert_eq!(Error::MissingType.message(), "Missing 'coin_type'");
    assert_eq!(
        Error::TooManyRequests(201, 200).message(),
        "Too many requests in batch: 201 (max: 200)",
    );
}

#[test]
fn internal_messages() {
    assert_eq!(
        InternalError::BadBalance { coin_type: "0x2::sui::SUI".to_string(), balance: -5 }.message(),
        "Bad balance for type 0x2::sui::SUI: -5",
    );
    assert_eq!(
        InternalError::BadAddressBalance {
            coin_type: "T".to_string(),
            address_balance: 18446744073709551616,
        }
        .message(),
        "Bad address balance for type T: 18446744073709551616",
    );
    assert_eq!(
        InternalError::UndecodedBalance("eof".to_string()).message(),
        "Failed to deserialize balance",
    );
    assert_eq!(
        InternalError::UndecodedAddressBalance("eof".to_string()).message(),
        "Failed to deserialize address balance",
    );
}

#[test]
fn decimal_numbers() {
    assert_eq!(signed(0), "n=0");
    assert_eq!(signed(-1), "n=-1");
    assert_eq!(signed(1090), "n=1090");
    assert_eq!(signed(i128::MIN), format!("n={}", i128::MIN));
    assert_eq!(signed(i128::MAX), format!("n={}", i128::MAX));
    let mut text = String::new();
    push_decimal(&mut text, u128::MAX);
    assert_eq!(text, u128::MAX.to_string());
}

#[test]
fn characters_of_text() {
    assert_eq!(chars_of("a\u{e9}z"), ['a', '\u{e9}', 'z']);
    assert!(chars_of("").is_empty());
}
