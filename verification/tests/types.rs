use consistent_balances::address::{owner, SuiAddress};
use consistent_balances::order::{compare_bytes, compare_text, Order};
use consistent_balances::spacing::compacted;
use consistent_balances::type_tag::{StructTag, TypeTag};

const FULL: &str = "0xdba34672e30cb065b1f93e3ab55318768fd6fef66c15942c9f7cb846e2f900e7";

fn address(text: &str) -> SuiAddress {
    owner(text).unwrap()
}

fn named(address_text: &str, module: &str, name: &str, type_params: Vec<TypeTag>) -> TypeTag {
    TypeTag::Struct(Box::new(StructTag {
        address: address(address_text),
        module: module.to_string(),
        name: name.to_string(),
        type_params,
    }))
}

fn samples() -> Vec<TypeTag> {
    vec![
        TypeTag::Bool,
        TypeTag::U8,
        TypeTag::U64,
        TypeTag::U128,
        TypeTag::Address,
        TypeTag::Signer,
        TypeTag::Vector(Box::new(TypeTag::Bool)),
        TypeTag::Vector(Box::new(TypeTag::U8)),
        named("0x1", "b", "A", vec![]),
        named("0x2", "a", "Z", vec![]),
        named("0x2", "ab", "A", vec![]),
        named("0x2", "b", "A", vec![]),
        named("0x2", "b", "A", vec![TypeTag::Bool]),
        named("0x2", "b", "A", vec![TypeTag::Bool, TypeTag::Bool]),
        named("0x2", "b", "A", vec![TypeTag::U8]),
        named("0x2", "b", "B", vec![]),
        TypeTag::U16,
        TypeTag::U32,
        TypeTag::U256,
    ]
}

#[test]
fn parses_structs_with_arguments() {
    assert_eq!(TypeTag::parse("0x2::sui::SUI"), Some(named("0x2", "sui", "SUI", vec![])));
    assert_eq!(
        TypeTag::parse("0x2::coin::Coin<0x2::sui::SUI, vector<u8>>"),
        Some(named(
            "0x2",
            "coin",
            "Coin",
            vec![
                named("0x2", "sui", "SUI", vec![]),
                TypeTag::Vector(Box::new(TypeTag::U8)),
            ],
        )),
    );
    assert_eq!(
        TypeTag::parse("0xaBcdef0123456789aBcdef0123456789::m::T"),
        Some(named("0xabcdef0123456789abcdef0123456789", "m", "T", vec![])),
    );
}

#[test]
fn parses_primitive_types() {
    assert_eq!(TypeTag::parse("bool"), Some(TypeTag::Bool));
    assert_eq!(TypeTag::parse("u8"), Some(TypeTag::U8));
    assert_eq!(TypeTag::parse("u16"), Some(TypeTag::U16));
    assert_eq!(TypeTag::parse("u32"), Some(TypeTag::U32));
    assert_eq!(TypeTag::parse("u64"), Some(TypeTag::U64));
    assert_eq!(TypeTag::parse("u128"), Some(TypeTag::U128));
    assert_eq!(TypeTag::parse("u256"), Some(TypeTag::U256));
    assert_eq!(TypeTag::parse("address"), Some(TypeTag::Address));
    assert_eq!(TypeTag::parse("signer"), Some(TypeTag::Signer));
    assert_eq!(TypeTag::parse("vector<bool>"), Some(TypeTag::Vector(Box::new(TypeTag::Bool))));
}

#[test]
fn space_between_words_and_marks_does_not_matter() {
    assert_eq!(TypeTag::parse(" u8"), Some(TypeTag::U8));
    assert_eq!(TypeTag::parse("u8\n"), Some(TypeTag::U8));
    let bytes = TypeTag::Vector(Box::new(TypeTag::U8));
    assert_eq!(TypeTag::parse("vector< u8 >"), Some(bytes.clone()));
    assert_eq!(TypeTag::parse("vector <\tu8\r\n>"), Some(bytes.clone()));
    assert_eq!(
        TypeTag::parse(" 0x2 :: m::T\u{c}< u8 , vector  <u8> > "),
        Some(named("0x2", "m", "T", vec![TypeTag::U8, bytes])),
    );
}

#[test]
fn space_within_words_and_marks_is_refused() {
    for text in ["u 8", "0x 2::m::T", "0x2::m m::T", "0x2: :m::T", "0x2::m:\t:T", "u8 u8"] {
        assert_eq!(TypeTag::parse(text), None, "{text}");
    }
    assert_eq!(TypeTag::parse("0x2::m::T<u8 u8>"), None);
    assert_eq!(TypeTag::parse("\u{a0}u8"), None);
    assert_eq!(TypeTag::parse("  "), None);
}

#[test]
fn compact_text() {
    assert_eq!(compacted(" a  b < c ,\n d : : e :: f > "), "a  b<c,d: :e::f>");
    assert_eq!(compacted("a\u{a0}b"), "a\u{a0}b");
    assert_eq!(compacted(" \t\r\n\u{c}"), "");
}

#[test]
fn rejects_what_is_no_type() {
    assert_eq!(TypeTag::parse(""), None);
    assert_eq!(TypeTag::parse("sui"), None);
    assert_eq!(TypeTag::parse("0x2::sui"), None);
    assert_eq!(TypeTag::parse("0x2::sui::SUI<"), None);
    assert_eq!(TypeTag::parse("0x2::sui::SUI extra"), None);
}

#[test]
fn canonical_text_writes_addresses_in_full() {
    let sui = named("0x2", "sui", "SUI", vec![]);
    let full = format!("{}2", "0".repeat(63));
    assert_eq!(sui.to_canonical_string(true), format!("0x{full}::sui::SUI"));
    assert_eq!(sui.to_canonical_string(false), format!("{full}::sui::SUI"));
    let coin = named("0x2", "m", "T", vec![sui, TypeTag::Vector(Box::new(TypeTag::U8))]);
    assert_eq!(
        coin.to_canonical_string(true),
        format!("0x{full}::m::T<0x{full}::sui::SUI,vector<u8>>"),
    );
}

#[test]
fn canonical_text_of_primitive_types() {
    let texts: Vec<String> = [
        TypeTag::Bool,
        TypeTag::U8,
        TypeTag::U64,
        TypeTag::U128,
        TypeTag::Address,
        TypeTag::Signer,
        TypeTag::U16,
        TypeTag::U32,
        TypeTag::U256,
    ]
    .iter()
    .map(|tag| tag.to_canonical_string(true))
    .collect();
    assert_eq!(texts, ["bool", "u8", "u64", "u128", "address", "signer", "u16", "u32", "u256"]);
}

#[test]
fn canonical_text_parses_to_the_same_type() {
    for tag in samples() {
        assert_eq!(TypeTag::parse(&tag.to_canonical_string(true)), Some(tag.clone()));
        let wrapped = named(FULL, "m", "T", vec![tag.clone(), tag]);
        assert_eq!(TypeTag::parse(&wrapped.to_canonical_string(true)), Some(wrapped.clone()));
    }
}

#[test]
fn parses_full_addresses() {
    assert_eq!(
        TypeTag::parse(&format!("{FULL}::usdc::USDC")),
        Some(named(FULL, "usdc", "USDC", vec![])),
    );
    assert_eq!(TypeTag::parse(&format!("{FULL}0::usdc::USDC")), None);
}

/// A type of so many levels.
fn levels(count: usize) -> TypeTag {
    let mut tag = TypeTag::U8;
    for _ in 1..count {
        tag = TypeTag::Vector(Box::new(tag));
    }
    tag
}

#[test]
fn deep_types_are_not_read() {
    let deepest = levels(128);
    assert_eq!(TypeTag::parse(&deepest.to_canonical_string(true)), Some(deepest));
    assert_eq!(TypeTag::parse(&levels(129).to_canonical_string(true)), None);
    assert_eq!(TypeTag::parse(&"vector<".repeat(100_000)), None);
    assert_eq!(TypeTag::parse(&"0x1::m::T<".repeat(100_000)), None);
}

#[test]
fn large_types_are_not_read() {
    let largest = named("0x1", "m", "T", vec![TypeTag::U8; 255]);
    assert_eq!(TypeTag::parse(&largest.to_canonical_string(true)), Some(largest));
    let larger = named("0x1", "m", "T", vec![TypeTag::U8; 256]);
    assert_eq!(TypeTag::parse(&larger.to_canonical_string(true)), None);
}

#[test]
fn names_are_identifiers() {
    let long = "a".repeat(128);
    for name in ["a", "A9_", "_a", "__", long.as_str()] {
        let tag = named("0x1", name, name, vec![]);
        assert_eq!(TypeTag::parse(&tag.to_canonical_string(true)), Some(tag));
    }
    let longer = "a".repeat(129);
    for name in ["", "_", "9a", "a-b", "\u{e9}", longer.as_str()] {
        assert_eq!(TypeTag::parse(&format!("0x1::{name}::T")), None);
        assert_eq!(TypeTag::parse(&format!("0x1::m::{name}")), None);
    }
}

#[test]
fn types_are_in_their_derived_order() {
    let samples = samples();
    for (i, a) in samples.iter().enumerate() {
        for (j, b) in samples.iter().enumerate() {
            let expected = if i < j {
                Order::Less
            } else if i == j {
                Order::Equal
            } else {
                Order::Greater
            };
            assert_eq!(a.compare(b), expected, "{i} {j}");
            assert_eq!(a < b, i < j);
        }
    }
}

#[test]
fn sequences_compare_by_first_difference() {
    assert_eq!(compare_bytes(&[1, 2], &[1, 3]), Order::Less);
    assert_eq!(compare_bytes(&[1, 2], &[1]), Order::Greater);
    assert_eq!(compare_bytes(&[], &[]), Order::Equal);
    assert_eq!(compare_text("ab", "b"), Order::Less);
    assert_eq!(compare_text("b", "a\u{10ffff}"), Order::Greater);
    assert_eq!(compare_text("a", "a"), Order::Equal);
    assert_eq!(compare_text("a", "a0"), Order::Less);
}
