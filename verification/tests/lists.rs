use consistent_balances::address::{owner, SuiAddress};
use consistent_balances::error::{Error, InternalError, RpcError};
use consistent_balances::keys::{AddressKey, CoinKey};
use consistent_balances::list::{
    answer_list, keeps_coin_balance, list_balances, merge_page, AddressPage, CoinPage, Page,
};
use consistent_balances::merge::{merge_balances, AddressEntry, CoinEntry, MergedEntry};
use consistent_balances::messages::{
    Balance, GetBalanceRequest, ListBalancesRequest, ListBalancesResponse,
};
use consistent_balances::point::get_balance;
use consistent_balances::rows::check_totals;
use consistent_balances::type_tag::TypeTag;

fn someone() -> SuiAddress {
    owner("0x7").unwrap()
}

fn coin(type_: TypeTag, balance: i128, token: u8) -> CoinEntry {
    CoinEntry { token: vec![token], key: CoinKey { owner: someone(), type_ }, balance }
}

fn address(type_: TypeTag, balance: u128, token: u8) -> AddressEntry {
    AddressEntry { token: vec![token], key: AddressKey { owner: someone(), type_ }, balance }
}

fn entry(type_: TypeTag, coin_balance: i128, address_balance: u128, token: u8) -> MergedEntry {
    MergedEntry { token: vec![token], owner: someone(), type_, coin_balance, address_balance }
}

fn coins() -> Vec<CoinEntry> {
    vec![coin(TypeTag::Bool, 1, 10), coin(TypeTag::U64, 2, 11), coin(TypeTag::Signer, 3, 12)]
}

fn addresses() -> Vec<AddressEntry> {
    vec![address(TypeTag::U8, 4, 20), address(TypeTag::U64, 5, 21)]
}

fn coin_page(results: Vec<CoinEntry>, has_prev: bool, has_next: bool) -> CoinPage {
    CoinPage { results, has_prev, has_next }
}

fn address_page(results: Vec<AddressEntry>, has_prev: bool, has_next: bool) -> AddressPage {
    AddressPage { results, has_prev, has_next }
}

fn page(limit: usize, from_front: bool) -> ListBalancesResponse {
    let merged = merge_page(
        Page { limit, from_front },
        coin_page(coins(), false, false),
        address_page(addresses(), false, false),
    );
    assert!(check_totals(&merged.rows));
    answer_list(merged).unwrap()
}

fn totals(response: &ListBalancesResponse) -> Vec<u64> {
    response.balances.iter().map(|balance| balance.total_balance.unwrap()).collect()
}

#[test]
fn merge_joins_equal_types() {
    assert_eq!(
        merge_balances(coins(), addresses()),
        vec![
            entry(TypeTag::Bool, 1, 0, 10),
            entry(TypeTag::U8, 0, 4, 20),
            entry(TypeTag::U64, 2, 5, 11),
            entry(TypeTag::Signer, 3, 0, 12),
        ],
    );
}

#[test]
fn merge_with_an_empty_list() {
    assert!(merge_balances(vec![], vec![]).is_empty());
    assert_eq!(
        merge_balances(vec![], addresses()),
        vec![entry(TypeTag::U8, 0, 4, 20), entry(TypeTag::U64, 0, 5, 21)],
    );
    assert_eq!(merge_balances(coins(), vec![]).len(), 3);
}

#[test]
fn merge_keeps_sums_in_any_order() {
    let mut coins = coins();
    coins.reverse();
    let mut addresses = addresses();
    addresses.reverse();
    let merged = merge_balances(coins, addresses);
    assert_eq!(merged.iter().map(|e| e.coin_balance).sum::<i128>(), 6);
    assert_eq!(merged.iter().map(|e| e.address_balance).sum::<u128>(), 9);
}

#[test]
fn merge_of_ascending_lists_ascends() {
    let merged = merge_balances(coins(), addresses());
    assert!(merged.windows(2).all(|pair| pair[0].type_ < pair[1].type_));
}

#[test]
fn page_within_the_limit_shows_all() {
    for from_front in [true, false] {
        let response = page(4, from_front);
        assert_eq!(totals(&response), [1, 4, 7, 3]);
        assert_eq!(response.has_previous_page, Some(false));
        assert_eq!(response.has_next_page, Some(false));
    }
}

#[test]
fn page_from_the_front_cuts_the_end() {
    let response = page(3, true);
    assert_eq!(totals(&response), [1, 4, 7]);
    assert_eq!(response.has_previous_page, Some(false));
    assert_eq!(response.has_next_page, Some(true));
    assert!(page(0, true).balances.is_empty());
}

#[test]
fn page_from_the_back_cuts_the_start() {
    let response = page(3, false);
    assert_eq!(totals(&response), [4, 7, 3]);
    assert_eq!(response.has_previous_page, Some(true));
    assert_eq!(response.has_next_page, Some(false));
    assert!(page(0, false).balances.is_empty());
}

#[test]
fn page_flags_carry_over_from_either_index() {
    for from_front in [true, false] {
        for flags in 0..16u8 {
            let bit = |i: u8| flags >> i & 1 == 1;
            let merged = merge_page(
                Page { limit: 9, from_front },
                coin_page(coins(), bit(0), bit(1)),
                address_page(addresses(), bit(2), bit(3)),
            );
            assert_eq!(merged.has_prev, bit(0) || bit(2));
            assert_eq!(merged.has_next, bit(1) || bit(3));
        }
    }
}

#[test]
fn listed_balances_carry_tokens() {
    let response = page(4, true);
    let tokens: Vec<Option<Vec<u8>>> =
        response.balances.iter().map(|balance| balance.page_token.clone()).collect();
    assert_eq!(tokens, [Some(vec![10]), Some(vec![20]), Some(vec![11]), Some(vec![12])]);
    assert_eq!(response.balances[2].coin_balance, Some(2));
    assert_eq!(response.balances[2].address_balance, Some(5));
    assert_eq!(response.balances[2].coin_type, Some("u64".to_string()));
    assert_eq!(response.balances[2].owner, Some(format!("0x{}7", "0".repeat(63))));
}

#[test]
fn listing_fails_for_a_bad_balance_that_is_shown() {
    let bad = |limit: usize| {
        answer_list(merge_page(
            Page { limit, from_front: true },
            coin_page(coins(), false, false),
            address_page(vec![address(TypeTag::U64, u128::MAX, 20)], false, false),
        ))
    };
    assert!(bad(1).is_ok());
    assert_eq!(
        bad(2),
        Err(RpcError::Internal(InternalError::BadAddressBalance {
            coin_type: "u64".to_string(),
            address_balance: u128::MAX,
        })),
    );
}

#[test]
fn listing_names_an_owner() {
    let request = |owner: Option<&str>| ListBalancesRequest {
        owner: owner.map(str::to_string),
        page_size: None,
        after_token: None,
        before_token: None,
        end: None,
    };
    assert_eq!(list_balances(&request(Some("0x7"))), Ok(someone()));
    assert_eq!(
        list_balances(&request(None)),
        Err(RpcError::Request(Error::MissingOwner)),
    );
    assert_eq!(
        list_balances(&request(Some("7"))),
        Err(RpcError::Request(Error::InvalidOwner("7".to_string()))),
    );
}

#[test]
fn only_positive_coin_balances_are_listed() {
    assert!(keeps_coin_balance(&1));
    assert!(!keeps_coin_balance(&0));
    assert!(!keeps_coin_balance(&-1));
}

/// Ascending types, by number.
fn nth_type(n: usize) -> TypeTag {
    let mut type_ = TypeTag::Bool;
    for _ in 0..n {
        type_ = TypeTag::Vector(Box::new(type_));
    }
    type_
}

const COIN_TYPES: [usize; 5] = [0, 2, 3, 5, 8];
const ADDRESS_TYPES: [usize; 4] = [1, 2, 6, 8];
const ALL_TYPES: [usize; 7] = [0, 1, 2, 3, 5, 6, 8];

/// A page over the types that `within` keeps, as each index on its own pages.
fn page_of(within: &dyn Fn(usize) -> bool, limit: usize, from_front: bool) -> (Vec<u64>, bool, bool) {
    let cut = |all: &[usize]| {
        let kept: Vec<usize> = all.iter().copied().filter(|n| within(*n)).collect();
        let more = kept.len() > limit;
        let skip = if from_front { 0 } else { kept.len().saturating_sub(limit) };
        (kept.into_iter().skip(skip).take(limit).collect::<Vec<_>>(), more)
    };
    let (coins, more_coins) = cut(&COIN_TYPES);
    let (addresses, more_addresses) = cut(&ADDRESS_TYPES);
    let merged = merge_page(
        Page { limit, from_front },
        coin_page(
            coins.iter().map(|n| coin(nth_type(*n), 100, *n as u8)).collect(),
            !from_front && more_coins,
            from_front && more_coins,
        ),
        address_page(
            addresses.iter().map(|n| address(nth_type(*n), 1, *n as u8)).collect(),
            !from_front && more_addresses,
            from_front && more_addresses,
        ),
    );
    let (has_prev, has_next) = (merged.has_prev, merged.has_next);
    let tokens = answer_list(merged)
        .unwrap()
        .balances
        .iter()
        .map(|balance| balance.page_token.as_ref().unwrap()[0] as u64)
        .collect();
    (tokens, has_prev, has_next)
}

#[test]
fn pages_from_the_front_go_through_all_types() {
    for limit in 1..9 {
        let mut seen: Vec<u64> = vec![];
        loop {
            let last = seen.last().copied();
            let (shown, _, has_next) =
                page_of(&|n| last.map_or(true, |last| n as u64 > last), limit, true);
            assert_eq!(shown.len(), limit.min(ALL_TYPES.len() - seen.len()));
            seen.extend(shown);
            assert_eq!(has_next, seen.len() < ALL_TYPES.len());
            if !has_next {
                break;
            }
        }
        assert_eq!(seen, ALL_TYPES.map(|n| n as u64));
    }
}

#[test]
fn pages_from_the_back_go_through_all_types() {
    for limit in 1..9 {
        let mut seen: Vec<u64> = vec![];
        loop {
            let first = seen.first().copied();
            let (shown, has_prev, _) =
                page_of(&|n| first.map_or(true, |first| (n as u64) < first), limit, false);
            assert_eq!(shown.len(), limit.min(ALL_TYPES.len() - seen.len()));
            seen.splice(0..0, shown);
            assert_eq!(has_prev, seen.len() < ALL_TYPES.len());
            if !has_prev {
                break;
            }
        }
        assert_eq!(seen, ALL_TYPES.map(|n| n as u64));
    }
}

#[test]
fn listed_as_looked_up() {
    let response = page(4, true);
    let request = GetBalanceRequest {
        owner: Some("0x7".to_string()),
        coin_type: Some("u64".to_string()),
    };
    let lookup = get_balance(&request).unwrap().resolve(Some(2)).unwrap();
    assert!(lookup.total_fits(Some(5)));
    let found = lookup.resolve(Some(5)).unwrap();
    let listed = Balance { page_token: None, ..response.balances.into_iter().nth(2).unwrap() };
    assert_eq!(found, listed);
}

#[test]
fn listed_can_be_looked_up() {
    for shown in page(4, true).balances {
        let request = GetBalanceRequest { owner: shown.owner, coin_type: shown.coin_type.clone() };
        let key = get_balance(&request).unwrap().key;
        assert_eq!(key.owner, someone());
        assert_eq!(Some(key.type_.to_canonical_string(true)), shown.coin_type);
    }
}
