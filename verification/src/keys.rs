//! The keys of the two balance indices.
use vstd::prelude::*;

use crate::address::{
    address_text, byte_number, hex_number, law_owner_is_its_number, law_owner_refused,
    law_owner_round_trip, names_address, owner, owner_answer, SuiAddress,
};
use crate::error::{agrees, Error, ErrorView};
use crate::messages::{GetBalanceRequest, GetBalanceRequestView};
use crate::type_tag::{
    lemma_type_text_not_empty, read_type, readable, reads_back, type_text, TypeTag, TypeTree,
};

verus! {

/// The key of a coin balance.
#[derive(Debug, PartialEq, Eq, PartialOrd, Ord)]
pub struct CoinKey {
    pub owner: SuiAddress,
    pub type_: TypeTag,
}

/// The key of an address balance.
#[derive(Debug, PartialEq, Eq, PartialOrd, Ord)]
pub struct AddressKey {
    pub owner: SuiAddress,
    pub type_: TypeTag,
}

/// The mathematical view of either key.
pub struct KeyView {
    pub owner: Seq<u8>,
    pub type_: TypeTree,
}

impl View for CoinKey {
    type V = KeyView;

    open spec fn view(&self) -> KeyView {
        KeyView { owner: self.owner@, type_: self.type_@ }
    }
}

impl View for AddressKey {
    type V = KeyView;

    open spec fn view(&self) -> KeyView {
        KeyView { owner: self.owner@, type_: self.type_@ }
    }
}

/// The owner that a request names: one that is empty is missing.
pub open spec fn requested_owner_answer(text: Seq<char>) -> Result<Seq<u8>, ErrorView> {
    if text.len() == 0 {
        Err(ErrorView::MissingOwner)
    } else {
        owner_answer(text)
    }
}

/// The coin type that a request names, where its text reads as `parsed`: one that is empty is
/// missing.
pub open spec fn requested_type_answer(text: Seq<char>, parsed: Option<TypeTree>) -> Result<
    TypeTree,
    ErrorView,
> {
    if text.len() == 0 {
        Err(ErrorView::MissingType)
    } else {
        match parsed {
            Some(type_) => Ok(type_),
            None => Err(ErrorView::InvalidType(text)),
        }
    }
}

/// The key that a point lookup asks for, where its coin type reads as `parsed`. The owner is
/// looked at first.
pub open spec fn key_answer(request: GetBalanceRequestView, parsed: Option<TypeTree>) -> Result<
    KeyView,
    ErrorView,
> {
    match requested_owner_answer(request.owner) {
        Err(error) => Err(error),
        Ok(owner) => match requested_type_answer(request.coin_type, parsed) {
            Err(error) => Err(error),
            Ok(type_) => Ok(KeyView { owner, type_ }),
        },
    }
}

/// The owner that a request names.
pub fn requested_owner(text: &str) -> (address: Result<SuiAddress, Error>)
    ensures
        agrees(address, requested_owner_answer(text@)),
{
    if text.is_empty() {
        Err(Error::MissingOwner)
    } else {
        owner(text)
    }
}

/// The tree of a type that may be absent.
pub open spec fn optional_tree(parsed: Option<TypeTag>) -> Option<TypeTree> {
    match parsed {
        Some(tag) => Some(tag@),
        None => None,
    }
}

/// The coin type that a request names, given what its text reads as.
pub fn requested_type(text: &str, parsed: Option<TypeTag>) -> (type_: Result<TypeTag, Error>)
    ensures
        agrees(type_, requested_type_answer(text@, optional_tree(parsed))),
{
    if text.is_empty() {
        return Err(Error::MissingType);
    }
    match parsed {
        Some(tag) => Ok(tag),
        None => Err(Error::InvalidType(text.to_owned())),
    }
}

/// Converts a point lookup into a key, given what its coin type reads as.
pub fn key_with_type(request: &GetBalanceRequest, parsed: Option<TypeTag>) -> (key: Result<
    CoinKey,
    Error,
>)
    ensures
        agrees(key, key_answer(request@, optional_tree(parsed))),
{
    let owner: SuiAddress = match requested_owner(request.owner()) {
        Ok(owner) => owner,
        Err(error) => {
            return Err(error);
        },
    };
    match requested_type(request.coin_type(), parsed) {
        Ok(type_) => Ok(CoinKey { owner, type_ }),
        Err(error) => Err(error),
    }
}

/// Converts a point lookup into a key for the underlying index.
pub fn key(request: &GetBalanceRequest) -> (key: Result<CoinKey, Error>)
    ensures
        agrees(key, key_answer(request@, read_type(request@.coin_type))),
        reads_back(request@.coin_type, read_type(request@.coin_type)),
{
    key_with_type(request, TypeTag::parse(request.coin_type()))
}

impl CoinKey {
    /// The key of the address balance beside this coin balance.
    pub fn address_key(&self) -> (key: AddressKey)
        ensures
            key@ == self@,
    {
        AddressKey { owner: self.owner, type_: self.type_.clone() }
    }
}

/// A request with the canonical text of a readable type asks for that type, of the owner that it
/// names.
pub proof fn law_canonical_type_is_asked_for(
    request: GetBalanceRequestView,
    parsed: Option<TypeTree>,
    type_: TypeTree,
)
    requires
        readable(type_),
        request.coin_type == type_text(type_, true),
        reads_back(request.coin_type, parsed),
    ensures
        key_answer(request, parsed) == match requested_owner_answer(request.owner) {
            Ok(owner) => Ok(KeyView { owner, type_ }),
            Err(error) => Err(error),
        },
{
    lemma_type_text_not_empty(type_);
}

/// A request with the text of an address and the canonical text of a readable type asks for the
/// balance of that address in that type.
pub proof fn law_shown_key_is_asked_for(
    request: GetBalanceRequestView,
    parsed: Option<TypeTree>,
    key: KeyView,
)
    requires
        key.owner.len() == 32,
        readable(key.type_),
        request.owner == address_text(key.owner),
        request.coin_type == type_text(key.type_, true),
        reads_back(request.coin_type, parsed),
    ensures
        key_answer(request, parsed) == Ok::<KeyView, ErrorView>(key),
{
    law_canonical_type_is_asked_for(request, parsed, key.type_);
    law_owner_round_trip(key.owner);
}

/// A request's owner is read exactly where its text names an address, as the number that the digits
/// write. An empty text is missing, and any other is refused as an owner.
pub proof fn law_requested_owner(text: Seq<char>)
    ensures
        requested_owner_answer(text) is Ok <==> names_address(text),
        requested_owner_answer(text) matches Ok(owner) ==> {
            &&& owner.len() == 32
            &&& byte_number(owner) == hex_number(text.skip(2))
        },
        text.len() == 0 ==> requested_owner_answer(text) == Err::<Seq<u8>, ErrorView>(
            ErrorView::MissingOwner,
        ),
        text.len() > 0 ==> requested_owner_answer(text) == owner_answer(text),
{
    law_owner_is_its_number(text);
}

/// A request has a key exactly where its owner names an address and its coin type is there and is
/// read. The key has the number that the owner's digits write, and the type that was read.
pub proof fn law_request_has_key(request: GetBalanceRequestView, parsed: Option<TypeTree>)
    ensures
        key_answer(request, parsed) is Ok <==> {
            &&& names_address(request.owner)
            &&& request.coin_type.len() > 0
            &&& parsed is Some
        },
        key_answer(request, parsed) matches Ok(key) ==> {
            &&& key.owner.len() == 32
            &&& byte_number(key.owner) == hex_number(request.owner.skip(2))
            &&& Some(key.type_) == parsed
        },
{
    law_requested_owner(request.owner);
}

/// Why a request has no key: its owner comes first, and what is missing is not invalid.
pub proof fn law_request_refused(request: GetBalanceRequestView, parsed: Option<TypeTree>)
    ensures
        ({
            let answer = key_answer(request, parsed);
            &&& request.owner.len() == 0 ==> answer == Err::<KeyView, ErrorView>(
                ErrorView::MissingOwner,
            )
            &&& request.owner.len() > 0 && !names_address(request.owner) ==> {
                &&& answer is Err
                &&& answer->Err_0 is InvalidOwner
                &&& owner_answer(request.owner) == Err::<Seq<u8>, ErrorView>(answer->Err_0)
            }
            &&& names_address(request.owner) && request.coin_type.len() == 0 ==> answer == Err::<
                KeyView,
                ErrorView,
            >(ErrorView::MissingType)
            &&& names_address(request.owner) && request.coin_type.len() > 0 && parsed is None
                ==> answer == Err::<KeyView, ErrorView>(ErrorView::InvalidType(request.coin_type))
        }),
{
    law_requested_owner(request.owner);
    law_owner_is_its_number(request.owner);
    law_owner_refused(request.owner);
}

/// Keys show their owner and their type.
pub proof fn law_keys_show_their_parts(coin: CoinKey, address: AddressKey)
    ensures
        coin@.owner == coin.owner.bytes@,
        coin@.type_ == coin.type_.tree(),
        address@.owner == address.owner.bytes@,
        address@.type_ == address.type_.tree(),
{
}

/// A type that may be absent shows its tree.
pub proof fn law_optional_tree(tag: TypeTag)
    ensures
        optional_tree(Some(tag)) == Some(tag.tree()),
        optional_tree(None) is None,
{
}

} // verus!
