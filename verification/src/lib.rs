//! Balances of accounts, merged from two indices: the balance of the coins that an account owns,
//! and the balance that its address holds directly.
//!
//! A request goes through the library in steps. Each step takes plain values, such as what an
//! index holds at a key, and says what is needed next or what the answer is; reading the indices
//! is left to the caller.
//!
//! - `point` looks up one balance, `batch` several at once, and `list` pages through all balances
//!   of an owner.
//! - `keys` reads the owner and the coin type of a request, with `address`, `type_tag` and
//!   `spacing`.
//! - `merge` merges the entries of the two indices, and `rows` turns what they hold into the
//!   balances of a response.
//! - `paging` proves that pages of the two indices are enough to make a page of their merge.
//! - `error` and `messages` are the refusals, requests and responses.
//! - `validator` shows the active validators and the validators they have reported.

pub mod address;
pub mod batch;
pub mod error;
pub mod keys;
pub mod list;
pub mod merge;
pub mod messages;
pub mod order;
pub mod paging;
pub mod point;
pub mod rows;
pub mod spacing;
pub mod text;
pub mod type_tag;
pub mod validator;
