//! How a balance request is refused, and what can be wrong with stored balances.
use vstd::prelude::*;
use vstd::string::StringExecFns;

use crate::text::{decimal, push_decimal, push_signed_decimal, signed_decimal};

verus! {

/// `tonic::Code`, the status codes of gRPC.
#[verifier::external_type_specification]
pub struct ExCode(tonic::Code);

/// What is wrong with a request.
#[derive(Debug, PartialEq, Eq)]
pub enum Error {
    /// The owner is not an address.
    InvalidOwner(String),
    /// The coin type is not a type.
    InvalidType(String),
    /// The owner is absent or empty.
    MissingOwner,
    /// The coin type is absent or empty.
    MissingType,
    /// The batch holds the first number of requests, and the second is the maximum.
    TooManyRequests(usize, u32),
}

/// The mathematical view of an `Error`.
pub enum ErrorView {
    InvalidOwner(Seq<char>),
    InvalidType(Seq<char>),
    MissingOwner,
    MissingType,
    TooManyRequests(usize, u32),
}

impl View for Error {
    type V = ErrorView;

    open spec fn view(&self) -> ErrorView {
        match self {
            Error::InvalidOwner(text) => ErrorView::InvalidOwner(text@),
            Error::InvalidType(text) => ErrorView::InvalidType(text@),
            Error::MissingOwner => ErrorView::MissingOwner,
            Error::MissingType => ErrorView::MissingType,
            Error::TooManyRequests(count, max) => ErrorView::TooManyRequests(*count, *max),
        }
    }
}

/// What is wrong with a stored balance.
#[derive(Debug, PartialEq, Eq)]
pub enum InternalError {
    /// The coin balance does not fit the response.
    BadBalance { coin_type: String, balance: i128 },
    /// The address balance does not fit the response.
    BadAddressBalance { coin_type: String, address_balance: u128 },
    /// The coin balance could not be deserialized, for the reason given.
    UndecodedBalance(String),
    /// The address balance could not be deserialized, for the reason given.
    UndecodedAddressBalance(String),
}

/// The mathematical view of an `InternalError`.
pub enum InternalErrorView {
    BadBalance { coin_type: Seq<char>, balance: i128 },
    BadAddressBalance { coin_type: Seq<char>, address_balance: u128 },
    UndecodedBalance(Seq<char>),
    UndecodedAddressBalance(Seq<char>),
}

impl View for InternalError {
    type V = InternalErrorView;

    open spec fn view(&self) -> InternalErrorView {
        match self {
            InternalError::BadBalance { coin_type, balance } => InternalErrorView::BadBalance {
                coin_type: coin_type@,
                balance: *balance,
            },
            InternalError::BadAddressBalance { coin_type, address_balance } => {
                InternalErrorView::BadAddressBalance {
                    coin_type: coin_type@,
                    address_balance: *address_balance,
                }
            },
            InternalError::UndecodedBalance(cause) => InternalErrorView::UndecodedBalance(cause@),
            InternalError::UndecodedAddressBalance(cause) => {
                InternalErrorView::UndecodedAddressBalance(cause@)
            },
        }
    }
}

/// Why a request has no answer.
#[derive(Debug, PartialEq, Eq)]
pub enum RpcError {
    /// The request is refused.
    Request(Error),
    /// A stored balance cannot be answered with.
    Internal(InternalError),
}

/// The mathematical view of an `RpcError`.
pub enum RpcErrorView {
    Request(ErrorView),
    Internal(InternalErrorView),
}

impl View for RpcError {
    type V = RpcErrorView;

    open spec fn view(&self) -> RpcErrorView {
        match self {
            RpcError::Request(error) => RpcErrorView::Request(error@),
            RpcError::Internal(error) => RpcErrorView::Internal(error@),
        }
    }
}

/// A result and its model agree: both succeed with the same view, or both fail with the same view.
pub open spec fn agrees<T: View, E: View>(result: Result<T, E>, model: Result<T::V, E::V>) -> bool {
    match (result, model) {
        (Ok(value), Ok(expected)) => value@ == expected,
        (Err(error), Err(expected)) => error@ == expected,
        _ => false,
    }
}

/// `text` in double quotes and escaped, as `Debug` writes a string.
pub uninterp spec fn quoted(text: Seq<char>) -> Seq<char>;

/// `<str as Debug>::fmt`, through `format!`, writes a string in double quotes. What it writes
/// depends on the characters alone; which of them are escaped, and how, is not restated.
#[verifier::external_body]
fn quote(text: &str) -> (quotation: String)
    ensures
        quotation@ == quoted(text@),
{
    format!("{text:?}")
}

/// What a refused request is answered.
pub open spec fn error_message(error: ErrorView) -> Seq<char> {
    match error {
        ErrorView::InvalidOwner(text) => "Invalid 'owner': "@ + quoted(text),
        ErrorView::InvalidType(text) => "Invalid 'coin_type': "@ + quoted(text),
        ErrorView::MissingOwner => "Missing 'owner'"@,
        ErrorView::MissingType => "Missing 'coin_type'"@,
        ErrorView::TooManyRequests(count, max) => "Too many requests in batch: "@ + decimal(
            count as nat,
        ) + " (max: "@ + decimal(max as nat) + ")"@,
    }
}

/// What is reported of a stored balance. The cause of a failed deserialization is not part of it.
pub open spec fn internal_message(error: InternalErrorView) -> Seq<char> {
    match error {
        InternalErrorView::BadBalance { coin_type, balance } => "Bad balance for type "@
            + coin_type + ": "@ + signed_decimal(balance as int),
        InternalErrorView::BadAddressBalance { coin_type, address_balance } =>
            "Bad address balance for type "@ + coin_type + ": "@ + decimal(address_balance as nat),
        InternalErrorView::UndecodedBalance(_) => "Failed to deserialize balance"@,
        InternalErrorView::UndecodedAddressBalance(_) => "Failed to deserialize address balance"@,
    }
}

impl Error {
    /// The status code of a refused request.
    pub fn code(&self) -> (code: tonic::Code)
        ensures
            code == tonic::Code::InvalidArgument,
    {
        match self {
            Error::InvalidOwner(_)
            | Error::InvalidType(_)
            | Error::MissingOwner
            | Error::MissingType
            | Error::TooManyRequests(_, _) => tonic::Code::InvalidArgument,
        }
    }

    /// The message of a refused request.
    pub fn message(&self) -> (text: String)
        ensures
            text@ == error_message(self@),
    {
        let mut text: String = String::new();
        match self {
            Error::InvalidOwner(owner) => {
                text.append("Invalid 'owner': ");
                text.append(quote(owner.as_str()).as_str());
            },
            Error::InvalidType(coin_type) => {
                text.append("Invalid 'coin_type': ");
                text.append(quote(coin_type.as_str()).as_str());
            },
            Error::MissingOwner => text.append("Missing 'owner'"),
            Error::MissingType => text.append("Missing 'coin_type'"),
            Error::TooManyRequests(count, max) => {
                text.append("Too many requests in batch: ");
                push_decimal(&mut text, *count as u128);
                text.append(" (max: ");
                push_decimal(&mut text, *max as u128);
                text.append(")");
            },
        }
        assert(text@ =~= error_message(self@));
        text
    }
}

impl InternalError {
    /// The message of an internal error.
    pub fn message(&self) -> (text: String)
        ensures
            text@ == internal_message(self@),
    {
        let mut text: String = String::new();
        match self {
            InternalError::BadBalance { coin_type, balance } => {
                text.append("Bad balance for type ");
                text.append(coin_type.as_str());
                text.append(": ");
                push_signed_decimal(&mut text, *balance);
            },
            InternalError::BadAddressBalance { coin_type, address_balance } => {
                text.append("Bad address balance for type ");
                text.append(coin_type.as_str());
                text.append(": ");
                push_decimal(&mut text, *address_balance);
            },
            InternalError::UndecodedBalance(_) => text.append("Failed to deserialize balance"),
            InternalError::UndecodedAddressBalance(_) => text.append(
                "Failed to deserialize address balance",
            ),
        }
        assert(text@ =~= internal_message(self@));
        text
    }
}

/// A refusal says what is refused: the text that was sent in quotes, or the number of requests and
/// the maximum in decimal.
pub proof fn law_error_message(text: Seq<char>, count: usize, max: u32)
    ensures
        error_message(ErrorView::InvalidOwner(text)) == "Invalid 'owner': "@ + quoted(text),
        error_message(ErrorView::InvalidType(text)) == "Invalid 'coin_type': "@ + quoted(text),
        error_message(ErrorView::MissingOwner) == "Missing 'owner'"@,
        error_message(ErrorView::MissingType) == "Missing 'coin_type'"@,
        error_message(ErrorView::TooManyRequests(count, max)) == "Too many requests in batch: "@
            + decimal(count as nat) + " (max: "@ + decimal(max as nat) + ")"@,
{
}

/// A balance out of range is reported with its type and in decimal, and one that could not be
/// deserialized as such, whatever the cause.
pub proof fn law_internal_message(
    coin_type: Seq<char>,
    balance: i128,
    address_balance: u128,
    cause: Seq<char>,
)
    ensures
        internal_message(InternalErrorView::BadBalance { coin_type, balance })
            == "Bad balance for type "@ + coin_type + ": "@ + signed_decimal(balance as int),
        internal_message(InternalErrorView::BadAddressBalance { coin_type, address_balance })
            == "Bad address balance for type "@ + coin_type + ": "@ + decimal(
            address_balance as nat,
        ),
        internal_message(InternalErrorView::UndecodedBalance(cause))
            == "Failed to deserialize balance"@,
        internal_message(InternalErrorView::UndecodedAddressBalance(cause))
            == "Failed to deserialize address balance"@,
{
}

/// A result agrees with a model exactly where both succeed and show the same, or both fail and show
/// the same.
pub proof fn law_agrees<T: View, E: View>(value: T, error: E, shown: T::V, failure: E::V)
    ensures
        agrees(Ok::<T, E>(value), Ok::<T::V, E::V>(shown)) <==> value@ == shown,
        agrees(Err::<T, E>(error), Err::<T::V, E::V>(failure)) <==> error@ == failure,
        !agrees(Ok::<T, E>(value), Err::<T::V, E::V>(failure)),
        !agrees(Err::<T, E>(error), Ok::<T::V, E::V>(shown)),
{
}

/// Errors show their kind and what they hold.
pub proof fn law_errors_show_their_parts(
    text: String,
    count: usize,
    max: u32,
    balance: i128,
    address_balance: u128,
    refusal: Error,
    failure: InternalError,
)
    ensures
        Error::InvalidOwner(text)@ == ErrorView::InvalidOwner(text@),
        Error::InvalidType(text)@ == ErrorView::InvalidType(text@),
        Error::MissingOwner@ == ErrorView::MissingOwner,
        Error::MissingType@ == ErrorView::MissingType,
        Error::TooManyRequests(count, max)@ == ErrorView::TooManyRequests(count, max),
        (InternalError::BadBalance { coin_type: text, balance })@ == (
        InternalErrorView::BadBalance { coin_type: text@, balance }),
        (InternalError::BadAddressBalance { coin_type: text, address_balance })@ == (
        InternalErrorView::BadAddressBalance { coin_type: text@, address_balance }),
        InternalError::UndecodedBalance(text)@ == InternalErrorView::UndecodedBalance(text@),
        InternalError::UndecodedAddressBalance(text)@ == InternalErrorView::UndecodedAddressBalance(
            text@,
        ),
        RpcError::Request(refusal)@ == RpcErrorView::Request(refusal@),
        RpcError::Internal(failure)@ == RpcErrorView::Internal(failure@),
{
}

} // verus!
