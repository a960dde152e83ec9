//! Looking up one balance.
//!
//! A lookup asks for the coin balance first and for the address balance only where the coin
//! balance can be answered with: `get_balance` gives a `CoinLookup`, which takes what the coin
//! index holds and gives an `AddressLookup`, which takes what the address index holds and gives
//! the balance.
use vstd::prelude::*;

use crate::address::{address_text, hex_number, law_address_text, law_owner_value, names_address};
use crate::error::{agrees, InternalErrorView, RpcError, RpcErrorView};
use crate::keys::{
    key_answer, key_with_type, law_request_has_key, law_shown_key_is_asked_for, optional_tree,
    AddressKey, CoinKey, KeyView,
};
use crate::messages::{Balance, BalanceView, GetBalanceRequest, GetBalanceRequestView};
use crate::rows::{
    address_amount, address_balance, balance_of, coin_amount, coin_balance,
    law_row_shows_what_is_held, row_answer, shown_balance, RowView,
};
use crate::type_tag::{read_type, reads_back, type_text, TypeTag, TypeTree};

verus! {

/// A lookup that needs the coin balance at its key.
#[derive(Debug, PartialEq, Eq)]
pub struct CoinLookup {
    pub key: CoinKey,
}

/// A lookup that needs the address balance at its key.
#[derive(Debug, PartialEq, Eq)]
pub struct AddressLookup {
    pub key: AddressKey,
    pub coin_balance: u64,
}

/// The mathematical view of an `AddressLookup`.
pub struct AddressLookupView {
    pub key: KeyView,
    pub coin_balance: u64,
}

impl View for CoinLookup {
    type V = KeyView;

    open spec fn view(&self) -> KeyView {
        self.key@
    }
}

impl View for AddressLookup {
    type V = AddressLookupView;

    open spec fn view(&self) -> AddressLookupView {
        AddressLookupView { key: self.key@, coin_balance: self.coin_balance }
    }
}

/// The lookup that a request starts, where its coin type reads as `parsed`.
pub open spec fn request_step(request: GetBalanceRequestView, parsed: Option<TypeTree>) -> Result<
    KeyView,
    RpcErrorView,
> {
    match key_answer(request, parsed) {
        Ok(key) => Ok(key),
        Err(error) => Err(RpcErrorView::Request(error)),
    }
}

/// The lookup after the coin index was read.
pub open spec fn coin_step(key: KeyView, held: Option<i128>) -> Result<
    AddressLookupView,
    RpcErrorView,
> {
    match coin_amount(key.type_, Ok(held)) {
        Ok(coin_balance) => Ok(AddressLookupView { key, coin_balance }),
        Err(error) => Err(RpcErrorView::Internal(error)),
    }
}

/// The answer after the address index was read.
pub open spec fn address_step(lookup: AddressLookupView, held: Option<u128>) -> Result<
    BalanceView,
    RpcErrorView,
> {
    match address_amount(lookup.key.type_, Ok(held)) {
        Ok(address_balance) => Ok(
            shown_balance(
                lookup.key.owner,
                lookup.key.type_,
                lookup.coin_balance,
                address_balance,
                None,
            ),
        ),
        Err(error) => Err(RpcErrorView::Internal(error)),
    }
}

/// The total of the lookup is a `u64`, where it has an answer.
pub open spec fn lookup_total_fits(lookup: AddressLookupView, held: Option<u128>) -> bool {
    match address_amount(lookup.key.type_, Ok(held)) {
        Ok(address_balance) => lookup.coin_balance + address_balance <= u64::MAX,
        Err(_) => true,
    }
}

/// What the indices hold at a key, as a row without a page token.
pub open spec fn point_row(key: KeyView, coin: Option<i128>, address: Option<u128>) -> RowView {
    RowView { owner: key.owner, type_: key.type_, coin: Ok(coin), address: Ok(address), token: None }
}

/// A row's answer as the answer to a request.
pub open spec fn row_response(answer: Result<BalanceView, InternalErrorView>) -> Result<
    BalanceView,
    RpcErrorView,
> {
    match answer {
        Ok(balance) => Ok(balance),
        Err(error) => Err(RpcErrorView::Internal(error)),
    }
}

/// The answer to a request, where its coin type reads as `parsed` and the indices hold `coin` and
/// `address` at its key.
pub open spec fn point_answer(
    request: GetBalanceRequestView,
    parsed: Option<TypeTree>,
    coin: Option<i128>,
    address: Option<u128>,
) -> Result<BalanceView, RpcErrorView> {
    match request_step(request, parsed) {
        Err(error) => Err(error),
        Ok(key) => row_response(row_answer(point_row(key, coin, address))),
    }
}

/// Starts the lookup of one balance, given what the coin type of the request reads as.
pub fn get_with_type(request: &GetBalanceRequest, parsed: Option<TypeTag>) -> (lookup: Result<
    CoinLookup,
    RpcError,
>)
    ensures
        agrees(lookup, request_step(request@, optional_tree(parsed))),
{
    match key_with_type(request, parsed) {
        Ok(key) => Ok(CoinLookup { key }),
        Err(error) => Err(RpcError::Request(error)),
    }
}

/// Starts the lookup of one balance.
pub fn get_balance(request: &GetBalanceRequest) -> (lookup: Result<CoinLookup, RpcError>)
    ensures
        agrees(lookup, request_step(request@, read_type(request@.coin_type))),
        reads_back(request@.coin_type, read_type(request@.coin_type)),
{
    get_with_type(request, TypeTag::parse(request.coin_type()))
}

impl CoinLookup {
    /// Goes on with what the coin index holds at the key.
    pub fn resolve(self, held: Option<i128>) -> (lookup: Result<AddressLookup, RpcError>)
        ensures
            agrees(lookup, coin_step(self@, held)),
    {
        match coin_balance(&self.key.type_, &Ok(held)) {
            Ok(coin_balance) => Ok(AddressLookup { key: self.key.address_key(), coin_balance }),
            Err(error) => Err(RpcError::Internal(error)),
        }
    }
}

impl AddressLookup {
    /// Whether the total can be answered with, given what the address index holds at the key.
    pub fn total_fits(&self, held: Option<u128>) -> (fits: bool)
        ensures
            fits == lookup_total_fits(self@, held),
    {
        match address_balance(&self.key.type_, &Ok(held)) {
            Ok(address_balance) => self.coin_balance <= u64::MAX - address_balance,
            Err(_) => true,
        }
    }

    /// Answers with what the address index holds at the key.
    pub fn resolve(self, held: Option<u128>) -> (balance: Result<Balance, RpcError>)
        requires
            lookup_total_fits(self@, held),
        ensures
            agrees(balance, address_step(self@, held)),
    {
        match address_balance(&self.key.type_, &Ok(held)) {
            Ok(address_balance) => Ok(
                balance_of(
                    &self.key.owner,
                    &self.key.type_,
                    self.coin_balance,
                    address_balance,
                    None,
                ),
            ),
            Err(error) => Err(RpcError::Internal(error)),
        }
    }
}

/// The steps of a lookup lead to its answer: a step that fails gives the answer, and otherwise
/// the last step does.
pub proof fn law_steps_lead_to_answer(
    request: GetBalanceRequestView,
    parsed: Option<TypeTree>,
    coin: Option<i128>,
    address: Option<u128>,
)
    ensures
        point_answer(request, parsed, coin, address) == match request_step(request, parsed) {
            Err(error) => Err(error),
            Ok(key) => match coin_step(key, coin) {
                Err(error) => Err(error),
                Ok(lookup) => address_step(lookup, address),
            },
        },
{
}

/// What a lookup was answered with can be sent back: a request with the owner and the coin type of
/// the answer asks for the same key.
pub proof fn law_answer_can_be_sent_back(
    request: GetBalanceRequestView,
    parsed: Option<TypeTree>,
    coin: Option<i128>,
    address: Option<u128>,
    again: GetBalanceRequestView,
    parsed_again: Option<TypeTree>,
)
    requires
        point_answer(request, parsed, coin, address) matches Ok(balance) && balance.owner == Some(
            again.owner,
        ) && balance.coin_type == Some(again.coin_type),
        reads_back(request.coin_type, parsed),
        reads_back(again.coin_type, parsed_again),
    ensures
        key_answer(again, parsed_again) == key_answer(request, parsed),
{
    law_owner_value(request.owner);
    law_shown_key_is_asked_for(again, parsed_again, key_answer(request, parsed)->Ok_0);
}

/// A lookup is answered exactly where the request has a key and both balances held are in the range
/// of a response. It then shows what the indices hold, to the unit, of the owner that the request
/// names, in the type that was read.
pub proof fn law_lookup_shows_what_is_held(
    request: GetBalanceRequestView,
    parsed: Option<TypeTree>,
    coin: Option<i128>,
    address: Option<u128>,
)
    ensures
        ({
            let coin_held: int = match coin {
                Some(balance) => balance as int,
                None => 0,
            };
            let address_held: int = match address {
                Some(balance) => balance as int,
                None => 0,
            };
            let answer = point_answer(request, parsed, coin, address);
            &&& answer is Ok <==> {
                &&& names_address(request.owner)
                &&& request.coin_type.len() > 0
                &&& parsed is Some
                &&& 0 <= coin_held < 0x1_0000_0000_0000_0000
                &&& 0 <= address_held < 0x1_0000_0000_0000_0000
            }
            &&& answer matches Ok(balance) ==> {
                &&& balance.coin_balance matches Some(amount) && amount as int == coin_held
                &&& balance.address_balance matches Some(amount) && amount as int == address_held
                &&& coin_held + address_held < 0x1_0000_0000_0000_0000 ==> {
                    balance.total_balance matches Some(total) && total as int == coin_held
                        + address_held
                }
                &&& balance.owner matches Some(owner) && owner.len() == 66 && hex_number(
                    owner.skip(2),
                ) == hex_number(request.owner.skip(2))
                &&& balance.coin_type == Some(type_text(parsed->0, true))
                &&& balance.page_token is None
            }
        }),
{
    law_request_has_key(request, parsed);
    if key_answer(request, parsed) is Ok {
        let key = key_answer(request, parsed)->Ok_0;
        law_row_shows_what_is_held(point_row(key, coin, address));
        law_address_text(key.owner);
    }
}

/// A request is refused as its key is, and only a request with a key fails for what is held.
pub proof fn law_lookup_fails(
    request: GetBalanceRequestView,
    parsed: Option<TypeTree>,
    coin: Option<i128>,
    address: Option<u128>,
)
    ensures
        ({
            let answer = point_answer(request, parsed, coin, address);
            &&& key_answer(request, parsed) matches Err(error) ==> {
                &&& request_step(request, parsed) == Err::<KeyView, RpcErrorView>(
                    RpcErrorView::Request(error),
                )
                &&& answer == Err::<BalanceView, RpcErrorView>(RpcErrorView::Request(error))
            }
            &&& key_answer(request, parsed) matches Ok(key) ==> {
                &&& request_step(request, parsed) == Ok::<KeyView, RpcErrorView>(key)
                &&& answer is Err ==> row_answer(point_row(key, coin, address)) == Err::<
                    BalanceView,
                    InternalErrorView,
                >(answer->Err_0->Internal_0) && answer->Err_0 is Internal
            }
        }),
{
}

/// After the coin index was read, a lookup goes on at the same key with the coin balance held, and
/// only where that is in the range of a response. Otherwise the balance is reported as it is held.
pub proof fn law_coin_step(key: KeyView, held: Option<i128>)
    ensures
        ({
            let balance: int = match held {
                Some(balance) => balance as int,
                None => 0,
            };
            &&& coin_step(key, held) is Ok <==> 0 <= balance < 0x1_0000_0000_0000_0000
            &&& coin_step(key, held) matches Ok(lookup) ==> lookup.key == key
                && lookup.coin_balance as int == balance
            &&& coin_step(key, held) matches Err(error) ==> {
                &&& error matches RpcErrorView::Internal(
                    InternalErrorView::BadBalance { coin_type, balance: reported },
                )
                &&& coin_type == type_text(key.type_, true)
                &&& reported as int == balance
            }
        }),
{
}

/// After the address index was read, a lookup is answered with the coin balance that it brought and
/// the address balance held, where that is in the range of a response. Otherwise the balance is
/// reported as it is held.
pub proof fn law_address_step(lookup: AddressLookupView, held: Option<u128>)
    ensures
        ({
            let balance: int = match held {
                Some(balance) => balance as int,
                None => 0,
            };
            let coin: int = lookup.coin_balance as int;
            let answer = address_step(lookup, held);
            &&& answer is Ok <==> balance < 0x1_0000_0000_0000_0000
            &&& answer matches Ok(shown) ==> {
                &&& shown.coin_balance == Some(lookup.coin_balance)
                &&& shown.address_balance matches Some(amount) && amount as int == balance
                &&& coin + balance < 0x1_0000_0000_0000_0000 ==> {
                    shown.total_balance matches Some(total) && total as int == coin + balance
                }
                &&& shown.owner == Some(address_text(lookup.key.owner))
                &&& shown.coin_type == Some(type_text(lookup.key.type_, true))
                &&& shown.page_token is None
            }
            &&& answer matches Err(error) ==> {
                &&& error matches RpcErrorView::Internal(
                    InternalErrorView::BadAddressBalance { coin_type, address_balance },
                )
                &&& coin_type == type_text(lookup.key.type_, true)
                &&& address_balance as int == balance
            }
            &&& lookup_total_fits(lookup, held) <==> (balance < 0x1_0000_0000_0000_0000 ==> coin
                + balance < 0x1_0000_0000_0000_0000)
        }),
{
}

/// Lookups show their key and the coin balance that they bring.
pub proof fn law_lookups_show_their_parts(coin: CoinLookup, address: AddressLookup)
    ensures
        coin@ == coin.key@,
        address@.key == address.key@,
        address@.coin_balance == address.coin_balance,
{
}

} // verus!
