use consistent_balances::batch::{answer_batch, batch_get_balances, batch_with_types};
use consistent_balances::error::{Error, InternalError, RpcError};
use consistent_balances::keys::{key, key_with_type, requested_type, CoinKey};
use consistent_balances::messages::{Balance, BatchGetBalancesRequest, GetBalanceRequest};
use consistent_balances::point::{get_balance, get_with_type};
use consistent_balances::rows::check_totals;
use consistent_balances::type_tag::TypeTag;

const SUI: &str = "0x0000000000000000000000000000000000000000000000000000000000000002::sui::SUI";

fn request(owner: &str, coin_type: &str) -> GetBalanceRequest {
    GetBalanceRequest {
        owner: Some(owner.to_string()),
        coin_type: Some(coin_type.to_string()),
    }
}

fn sui_request() -> GetBalanceRequest {
    request("0x7", "0x2::sui::SUI")
}

fn batch(requests: Vec<GetBalanceRequest>) -> BatchGetBalancesRequest {
    BatchGetBalancesRequest { requests }
}

fn sui_balance(coin: u64, address: u64) -> Balance {
    Balance {
        owner: Some(format!("0x{}7", "0".repeat(63))),
        coin_type: Some(SUI.to_string()),
        total_balance: Some(coin + address),
        address_balance: Some(address),
        coin_balance: Some(coin),
        page_token: None,
    }
}

fn look_up(coin: Option<i128>, address: Option<u128>) -> Result<Balance, RpcError> {
    let lookup = get_balance(&sui_request())?.resolve(coin)?;
    assert!(lookup.total_fits(address));
    lookup.resolve(address)
}

#[test]
fn key_of_a_request() {
    let key = key(&sui_request()).unwrap();
    assert_eq!(key.owner.bytes[31], 7);
    assert_eq!(key.type_.to_canonical_string(true), SUI);
    let address_key = key.address_key();
    assert_eq!(address_key.owner, key.owner);
    assert_eq!(address_key.type_, key.type_);
}

#[test]
fn owner_is_checked_before_type() {
    let empty = GetBalanceRequest { owner: None, coin_type: None };
    assert_eq!(key(&empty), Err(Error::MissingOwner));
    assert_eq!(key(&request("", "x")), Err(Error::MissingOwner));
    assert_eq!(key(&request("7", "x")), Err(Error::InvalidOwner("7".to_string())));
    assert_eq!(key(&request("0x7", "")), Err(Error::MissingType));
    assert_eq!(key(&request("0x7", "x")), Err(Error::InvalidType("x".to_string())));
}

#[test]
fn key_with_a_given_type() {
    let request = request("0x7", "anything");
    let expected = CoinKey { owner: key(&sui_request()).unwrap().owner, type_: TypeTag::U8 };
    assert_eq!(key_with_type(&request, Some(TypeTag::U8)), Ok(expected));
    assert_eq!(
        key_with_type(&request, None),
        Err(Error::InvalidType("anything".to_string())),
    );
    assert_eq!(requested_type("", Some(TypeTag::U8)), Err(Error::MissingType));
    let lookup = get_with_type(&request, Some(TypeTag::U8)).unwrap();
    assert_eq!(lookup.key.type_, TypeTag::U8);
}

#[test]
fn lookup_adds_both_balances() {
    assert_eq!(look_up(Some(100), Some(1)), Ok(sui_balance(100, 1)));
    assert_eq!(look_up(None, Some(5)), Ok(sui_balance(0, 5)));
    assert_eq!(look_up(Some(5), None), Ok(sui_balance(5, 0)));
    assert_eq!(look_up(None, None), look_up(Some(0), Some(0)));
    let max = u64::MAX as i128;
    assert_eq!(look_up(Some(max), Some(0)), Ok(sui_balance(u64::MAX, 0)));
}

#[test]
fn lookup_reports_bad_balances() {
    let bad = |balance: i128| {
        Err(RpcError::Internal(InternalError::BadBalance { coin_type: SUI.to_string(), balance }))
    };
    assert_eq!(look_up(Some(-1), Some(u128::MAX)), bad(-1));
    assert_eq!(look_up(Some(u64::MAX as i128 + 1), None), bad(u64::MAX as i128 + 1));
    assert_eq!(
        look_up(Some(1), Some(u64::MAX as u128 + 1)),
        Err(RpcError::Internal(InternalError::BadAddressBalance {
            coin_type: SUI.to_string(),
            address_balance: u64::MAX as u128 + 1,
        })),
    );
}

#[test]
fn lookup_total_may_not_fit() {
    let lookup = get_balance(&sui_request()).unwrap().resolve(Some(2)).unwrap();
    assert!(lookup.total_fits(Some(u64::MAX as u128 - 2)));
    assert!(!lookup.total_fits(Some(u64::MAX as u128 - 1)));
    assert!(lookup.total_fits(Some(u64::MAX as u128 + 1)));
    assert!(lookup.total_fits(None));
}

#[test]
fn lookup_is_refused_for_its_request() {
    assert_eq!(
        get_balance(&request("0x7", "")).err(),
        Some(RpcError::Request(Error::MissingType)),
    );
}

#[test]
fn batch_over_the_maximum_is_refused_first() {
    let over = batch(vec![request("", ""), request("", "")]);
    let refusal = Some(RpcError::Request(Error::TooManyRequests(2, 1)));
    assert_eq!(batch_get_balances(&over, 1).err(), refusal);
    assert_eq!(batch_with_types(&over, 1, vec![None, None]).err(), refusal);
    assert_eq!(
        batch_get_balances(&over, 2).err(),
        Some(RpcError::Request(Error::MissingOwner)),
    );
}

#[test]
fn batch_is_refused_for_its_first_bad_request() {
    let requests = batch(vec![sui_request(), request("0x7", "x"), request("", "")]);
    assert_eq!(
        batch_get_balances(&requests, 3).err(),
        Some(RpcError::Request(Error::InvalidType("x".to_string()))),
    );
    assert_eq!(
        batch_with_types(&requests, 3, vec![Some(TypeTag::U8), Some(TypeTag::U8), None]).err(),
        Some(RpcError::Request(Error::MissingOwner)),
    );
}

#[test]
fn batch_answers_in_order() {
    let requests = batch(vec![sui_request(), request("0x7", "u8")]);
    let lookup = batch_get_balances(&requests, 2).unwrap();
    let keys = lookup.address_keys();
    assert_eq!(keys.len(), 2);
    assert_eq!(keys[1].type_, TypeTag::U8);
    let rows = lookup.rows(&vec![Ok(Some(1)), Ok(None)], &vec![Ok(Some(2)), Ok(Some(3))]);
    assert!(check_totals(&rows));
    let balances = answer_batch(rows).unwrap().balances;
    assert_eq!(balances[0], sui_balance(1, 2));
    assert_eq!(balances[1].coin_type, Some("u8".to_string()));
    assert_eq!(balances[1].total_balance, Some(3));
    assert_eq!(balances.len(), 2);
}

#[test]
fn empty_batch_has_no_balances() {
    let lookup = batch_get_balances(&batch(vec![]), 0).unwrap();
    assert!(answer_batch(lookup.rows(&vec![], &vec![])).unwrap().balances.is_empty());
}

#[test]
fn batch_of_one_matches_point_lookup() {
    for (coin, address) in [
        (Some(4), Some(5)),
        (None, None),
        (Some(-4), Some(5)),
        (Some(4), Some(u128::MAX)),
    ] {
        let lookup = batch_get_balances(&batch(vec![sui_request()]), 1).unwrap();
        let rows = lookup.rows(&vec![Ok(coin)], &vec![Ok(address)]);
        let answer = answer_batch(rows).map(|mut response| response.balances.remove(0));
        assert_eq!(answer, look_up(coin, address));
    }
}

#[test]
fn batch_fails_for_its_first_bad_row() {
    let requests = batch(vec![sui_request(), sui_request(), sui_request()]);
    let fail = |coins: Vec<Result<Option<i128>, String>>,
                addresses: Vec<Result<Option<u128>, String>>| {
        let lookup = batch_get_balances(&requests, 3).unwrap();
        answer_batch(lookup.rows(&coins, &addresses)).unwrap_err()
    };
    let broken = || "broken".to_string();
    assert_eq!(
        fail(vec![Ok(Some(1)), Err(broken()), Ok(Some(-1))], vec![Ok(None), Err(broken()), Ok(None)]),
        RpcError::Internal(InternalError::UndecodedBalance(broken())),
    );
    assert_eq!(
        fail(vec![Ok(Some(1)), Ok(Some(1)), Ok(Some(-1))], vec![Ok(None), Err(broken()), Ok(None)]),
        RpcError::Internal(InternalError::UndecodedAddressBalance(broken())),
    );
    assert_eq!(
        fail(vec![Ok(Some(1)), Ok(Some(1)), Ok(Some(-1))], vec![Ok(None), Ok(None), Err(broken())]),
        RpcError::Internal(InternalError::BadBalance { coin_type: SUI.to_string(), balance: -1 }),
    );
}

#[test]
fn batch_rows_go_as_far_as_all_reads() {
    let requests = batch(vec![sui_request(), sui_request()]);
    let lookup = batch_get_balances(&requests, 2).unwrap();
    assert_eq!(lookup.rows(&vec![Ok(None)], &vec![Ok(None), Ok(None)]).len(), 1);
    assert_eq!(lookup.rows(&vec![Ok(None), Ok(None)], &vec![]).len(), 0);
}

#[test]
fn batch_totals_count_up_to_the_first_failure() {
    let requests = batch(vec![sui_request(), sui_request()]);
    let lookup = batch_get_balances(&requests, 2).unwrap();
    let max = u64::MAX as i128;
    let over = lookup.rows(&vec![Ok(None), Ok(Some(max))], &vec![Ok(None), Ok(Some(1))]);
    assert!(!check_totals(&over));
    let failed = lookup.rows(&vec![Ok(Some(-1)), Ok(Some(max))], &vec![Ok(None), Ok(Some(1))]);
    assert!(check_totals(&failed));
    assert!(answer_batch(failed).is_err());
}

#[test]
fn answer_can_be_sent_back() {
    let full = "0xdba34672e30cb065b1f93e3ab55318768fd6fef66c15942c9f7cb846e2f900e7";
    for coin_type in [
        "0x2::sui::SUI".to_string(),
        format!("{full}::usdc::USDC"),
        format!("{full}::lp::LP<0x2::sui::SUI, vector<u256>>"),
    ] {
        let request = request(full, &coin_type);
        let lookup = get_balance(&request).unwrap().resolve(Some(1)).unwrap();
        let answer = lookup.resolve(Some(2)).unwrap();
        let again = GetBalanceRequest { owner: answer.owner, coin_type: answer.coin_type };
        assert_eq!(key(&again), key(&request));
        let lookup = batch_get_balances(&batch(vec![again]), 1).unwrap();
        assert_eq!(lookup.keys[0], key(&request).unwrap());
    }
}

#[test]
fn refused_type_is_named_as_it_was_sent() {
    assert_eq!(key(&request("0x7", " u 8 ")), Err(Error::InvalidType(" u 8 ".to_string())));
    assert_eq!(key(&request("0x7", " ")), Err(Error::InvalidType(" ".to_string())));
    assert_eq!(key(&request("0x7", " 0x2 :: sui :: SUI ")), key(&sui_request()));
}
