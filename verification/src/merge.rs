//! Merging the coin balances and the address balances of an owner.
use std::collections::VecDeque;
use vstd::prelude::*;

use crate::address::SuiAddress;
use crate::keys::{AddressKey, CoinKey, KeyView};
use crate::order::Order;
use crate::type_tag::{
    law_type_order, law_type_order_transitive, type_order, TypeTag, TypeTree,
};

verus! {

/// An entry of the coin index, with the token that a page can be continued from.
#[derive(Debug, PartialEq, Eq)]
pub struct CoinEntry {
    pub token: Vec<u8>,
    pub key: CoinKey,
    pub balance: i128,
}

/// An entry of the address index, with the token that a page can be continued from.
#[derive(Debug, PartialEq, Eq)]
pub struct AddressEntry {
    pub token: Vec<u8>,
    pub key: AddressKey,
    pub balance: u128,
}

/// What both indices hold for one coin type.
#[derive(Debug, PartialEq, Eq)]
pub struct MergedEntry {
    pub token: Vec<u8>,
    pub owner: SuiAddress,
    pub type_: TypeTag,
    pub coin_balance: i128,
    pub address_balance: u128,
}

/// The mathematical view of a `CoinEntry`.
pub struct CoinEntryView {
    pub token: Seq<u8>,
    pub key: KeyView,
    pub balance: i128,
}

/// The mathematical view of an `AddressEntry`.
pub struct AddressEntryView {
    pub token: Seq<u8>,
    pub key: KeyView,
    pub balance: u128,
}

/// The mathematical view of a `MergedEntry`.
pub struct MergedEntryView {
    pub token: Seq<u8>,
    pub owner: Seq<u8>,
    pub type_: TypeTree,
    pub coin_balance: i128,
    pub address_balance: u128,
}

impl View for CoinEntry {
    type V = CoinEntryView;

    open spec fn view(&self) -> CoinEntryView {
        CoinEntryView { token: self.token@, key: self.key@, balance: self.balance }
    }
}

impl View for AddressEntry {
    type V = AddressEntryView;

    open spec fn view(&self) -> AddressEntryView {
        AddressEntryView { token: self.token@, key: self.key@, balance: self.balance }
    }
}

impl View for MergedEntry {
    type V = MergedEntryView;

    open spec fn view(&self) -> MergedEntryView {
        MergedEntryView {
            token: self.token@,
            owner: self.owner@,
            type_: self.type_@,
            coin_balance: self.coin_balance,
            address_balance: self.address_balance,
        }
    }
}

/// What coin entries show, in order.
pub open spec fn coin_views(entries: Seq<CoinEntry>) -> Seq<CoinEntryView> {
    entries.map_values(|entry: CoinEntry| entry@)
}

/// What address entries show, in order.
pub open spec fn address_views(entries: Seq<AddressEntry>) -> Seq<AddressEntryView> {
    entries.map_values(|entry: AddressEntry| entry@)
}

/// What merged entries show, in order.
pub open spec fn merged_views(entries: Seq<MergedEntry>) -> Seq<MergedEntryView> {
    entries.map_values(|entry: MergedEntry| entry@)
}

/// A coin entry with the address balance of its type.
pub open spec fn with_coin(coin: CoinEntryView, address_balance: u128) -> MergedEntryView {
    MergedEntryView {
        token: coin.token,
        owner: coin.key.owner,
        type_: coin.key.type_,
        coin_balance: coin.balance,
        address_balance,
    }
}

/// An address entry whose type has no coin balance.
pub open spec fn without_coin(address: AddressEntryView) -> MergedEntryView {
    MergedEntryView {
        token: address.token,
        owner: address.key.owner,
        type_: address.key.type_,
        coin_balance: 0,
        address_balance: address.balance,
    }
}

/// How the type of the next coin entry stands to that of the next address entry. Where one list
/// has ended, the other one is next.
pub open spec fn next_order(coins: Seq<CoinEntryView>, addresses: Seq<AddressEntryView>) -> Order {
    if addresses.len() == 0 {
        Order::Less
    } else if coins.len() == 0 {
        Order::Greater
    } else {
        type_order(coins[0].key.type_, addresses[0].key.type_)
    }
}

/// The merge of two lists: the smaller type goes first, and equal types become one entry, which
/// keeps the token and the owner of the coin entry.
pub open spec fn merged(coins: Seq<CoinEntryView>, addresses: Seq<AddressEntryView>) -> Seq<
    MergedEntryView,
>
    decreases coins.len() + addresses.len(),
{
    if coins.len() == 0 && addresses.len() == 0 {
        Seq::empty()
    } else {
        match next_order(coins, addresses) {
            Order::Less => seq![with_coin(coins[0], 0)] + merged(coins.skip(1), addresses),
            Order::Greater => seq![without_coin(addresses[0])] + merged(
                coins,
                addresses.skip(1),
            ),
            Order::Equal => seq![with_coin(coins[0], addresses[0].balance)] + merged(
                coins.skip(1),
                addresses.skip(1),
            ),
        }
    }
}

/// The same items, as a queue.
fn queue<T>(items: Vec<T>) -> (queue: VecDeque<T>)
    ensures
        queue@ == items@,
{
    let mut queue: VecDeque<T> = VecDeque::new();
    for item in it: items
        invariant
            it.seq() == items@,
            queue@ == items@.take(it.index() as int),
    {
        queue.push_back(item);
    }
    queue
}

/// Merges the coin balances and the address balances of an owner on coin type. Both lists are
/// expected in ascending order of type.
pub fn merge_balances(coin_balances: Vec<CoinEntry>, address_balances: Vec<AddressEntry>) -> (list:
    Vec<MergedEntry>)
    ensures
        merged_views(list@) == merged(coin_views(coin_balances@), address_views(address_balances@)),
{
    let ghost all = merged(coin_views(coin_balances@), address_views(address_balances@));
    let mut coins: VecDeque<CoinEntry> = queue(coin_balances);
    let mut addresses: VecDeque<AddressEntry> = queue(address_balances);
    let mut list: Vec<MergedEntry> = Vec::new();
    assert(merged_views(list@) =~= Seq::empty());
    while coins.len() > 0 || addresses.len() > 0
        invariant
            all == merged_views(list@) + merged(coin_views(coins@), address_views(addresses@)),
        decreases coins@.len() + addresses@.len(),
    {
        let order: Order = if addresses.len() == 0 {
            Order::Less
        } else if coins.len() == 0 {
            Order::Greater
        } else {
            coins[0].key.type_.compare(&addresses[0].key.type_)
        };
        let ghost before = list@;
        assert(coins@.len() > 0 ==> coin_views(coins@).skip(1) =~= coin_views(
            coins@.subrange(1, coins@.len() as int),
        ));
        assert(addresses@.len() > 0 ==> address_views(addresses@).skip(1) =~= address_views(
            addresses@.subrange(1, addresses@.len() as int),
        ));
        let next: MergedEntry = match order {
            Order::Less => {
                let coin: CoinEntry = coins.pop_front().unwrap();
                MergedEntry {
                    token: coin.token,
                    owner: coin.key.owner,
                    type_: coin.key.type_,
                    coin_balance: coin.balance,
                    address_balance: 0,
                }
            },
            Order::Greater => {
                let address: AddressEntry = addresses.pop_front().unwrap();
                MergedEntry {
                    token: address.token,
                    owner: address.key.owner,
                    type_: address.key.type_,
                    coin_balance: 0,
                    address_balance: address.balance,
                }
            },
            Order::Equal => {
                let coin: CoinEntry = coins.pop_front().unwrap();
                let address: AddressEntry = addresses.pop_front().unwrap();
                MergedEntry {
                    token: coin.token,
                    owner: coin.key.owner,
                    type_: coin.key.type_,
                    coin_balance: coin.balance,
                    address_balance: address.balance,
                }
            },
        };
        list.push(next);
        assert(merged_views(list@) =~= merged_views(before).push(next@));
        assert(all =~= merged_views(list@) + merged(coin_views(coins@), address_views(addresses@)));
    }
    assert(all =~= merged_views(list@));
    list
}

/// Coin entries in ascending order of type, each type once.
pub open spec fn coins_ascend(coins: Seq<CoinEntryView>) -> bool {
    forall|i: int, j: int|
        0 <= i < j < coins.len() ==> type_order(
            (#[trigger] coins[i]).key.type_,
            (#[trigger] coins[j]).key.type_,
        ) is Less
}

/// Address entries in ascending order of type, each type once.
pub open spec fn addresses_ascend(addresses: Seq<AddressEntryView>) -> bool {
    forall|i: int, j: int|
        0 <= i < j < addresses.len() ==> type_order(
            (#[trigger] addresses[i]).key.type_,
            (#[trigger] addresses[j]).key.type_,
        ) is Less
}

/// Merged entries in ascending order of type, each type once.
pub open spec fn entries_ascend(entries: Seq<MergedEntryView>) -> bool {
    forall|i: int, j: int|
        0 <= i < j < entries.len() ==> type_order(
            (#[trigger] entries[i]).type_,
            (#[trigger] entries[j]).type_,
        ) is Less
}

/// A coin entry has this type.
pub open spec fn has_coin(coins: Seq<CoinEntryView>, type_: TypeTree) -> bool {
    exists|i: int| 0 <= i < coins.len() && (#[trigger] coins[i]).key.type_ == type_
}

/// An address entry has this type.
pub open spec fn has_address(addresses: Seq<AddressEntryView>, type_: TypeTree) -> bool {
    exists|i: int| 0 <= i < addresses.len() && (#[trigger] addresses[i]).key.type_ == type_
}

/// A merged entry has this type.
pub open spec fn has_entry(entries: Seq<MergedEntryView>, type_: TypeTree) -> bool {
    exists|i: int| 0 <= i < entries.len() && (#[trigger] entries[i]).type_ == type_
}

/// The coin entry of a type.
pub open spec fn coin_of(coins: Seq<CoinEntryView>, type_: TypeTree) -> CoinEntryView {
    coins[choose|i: int| 0 <= i < coins.len() && (#[trigger] coins[i]).key.type_ == type_]
}

/// The address entry of a type.
pub open spec fn address_of(addresses: Seq<AddressEntryView>, type_: TypeTree) -> AddressEntryView {
    addresses[choose|i: int|
        0 <= i < addresses.len() && (#[trigger] addresses[i]).key.type_ == type_]
}

/// What the two lists together hold for a type that occurs in one of them.
pub open spec fn combined(
    coins: Seq<CoinEntryView>,
    addresses: Seq<AddressEntryView>,
    type_: TypeTree,
) -> MergedEntryView {
    if has_coin(coins, type_) {
        with_coin(
            coin_of(coins, type_),
            if has_address(addresses, type_) {
                address_of(addresses, type_).balance
            } else {
                0
            },
        )
    } else {
        without_coin(address_of(addresses, type_))
    }
}

/// In an ascending list a type leads to its one entry.
proof fn lemma_coin_of(coins: Seq<CoinEntryView>, i: int)
    requires
        coins_ascend(coins),
        0 <= i < coins.len(),
    ensures
        has_coin(coins, coins[i].key.type_),
        coin_of(coins, coins[i].key.type_) == coins[i],
{
    let type_ = coins[i].key.type_;
    let j = choose|j: int| 0 <= j < coins.len() && (#[trigger] coins[j]).key.type_ == type_;
    law_type_order(type_, type_);
    assert(j == i);
}

/// In an ascending list a type leads to its one entry.
proof fn lemma_address_of(addresses: Seq<AddressEntryView>, i: int)
    requires
        addresses_ascend(addresses),
        0 <= i < addresses.len(),
    ensures
        has_address(addresses, addresses[i].key.type_),
        address_of(addresses, addresses[i].key.type_) == addresses[i],
{
    let type_ = addresses[i].key.type_;
    let j = choose|j: int|
        0 <= j < addresses.len() && (#[trigger] addresses[j]).key.type_ == type_;
    law_type_order(type_, type_);
    assert(j == i);
}

/// The first coin entry left aside, the other types lead where they did.
proof fn lemma_skip_coin(coins: Seq<CoinEntryView>, type_: TypeTree)
    requires
        coins_ascend(coins),
        coins.len() > 0,
    ensures
        coins_ascend(coins.skip(1)),
        !has_coin(coins.skip(1), coins[0].key.type_),
        type_ != coins[0].key.type_ ==> {
            &&& has_coin(coins.skip(1), type_) == has_coin(coins, type_)
            &&& has_coin(coins, type_) ==> coin_of(coins.skip(1), type_) == coin_of(coins, type_)
        },
{
    let rest = coins.skip(1);
    assert forall|i: int| 0 <= i < rest.len() implies #[trigger] rest[i] == coins[i + 1] by {}
    assert(coins_ascend(rest));
    let first = coins[0].key.type_;
    law_type_order(first, first);
    assert forall|i: int| 0 <= i < rest.len() implies (#[trigger] rest[i]).key.type_ != first by {
        assert(type_order(coins[0].key.type_, coins[i + 1].key.type_) is Less);
    }
    if type_ != first {
        if has_coin(coins, type_) {
            let i = choose|i: int| 0 <= i < coins.len() && (#[trigger] coins[i]).key.type_ == type_;
            assert(rest[i - 1] == coins[i]);
            lemma_coin_of(rest, i - 1);
        }
        if has_coin(rest, type_) {
            let i = choose|i: int| 0 <= i < rest.len() && (#[trigger] rest[i]).key.type_ == type_;
            assert(coins[i + 1].key.type_ == type_);
        }
    }
}

/// The first address entry left aside, the other types lead where they did.
proof fn lemma_skip_address(addresses: Seq<AddressEntryView>, type_: TypeTree)
    requires
        addresses_ascend(addresses),
        addresses.len() > 0,
    ensures
        addresses_ascend(addresses.skip(1)),
        !has_address(addresses.skip(1), addresses[0].key.type_),
        type_ != addresses[0].key.type_ ==> {
            &&& has_address(addresses.skip(1), type_) == has_address(addresses, type_)
            &&& has_address(addresses, type_) ==> address_of(addresses.skip(1), type_)
                == address_of(addresses, type_)
        },
{
    let rest = addresses.skip(1);
    assert forall|i: int| 0 <= i < rest.len() implies #[trigger] rest[i] == addresses[i + 1] by {}
    assert(addresses_ascend(rest));
    let first = addresses[0].key.type_;
    law_type_order(first, first);
    assert forall|i: int| 0 <= i < rest.len() implies (#[trigger] rest[i]).key.type_ != first by {
        assert(type_order(addresses[0].key.type_, addresses[i + 1].key.type_) is Less);
    }
    if type_ != first {
        if has_address(addresses, type_) {
            let i = choose|i: int|
                0 <= i < addresses.len() && (#[trigger] addresses[i]).key.type_ == type_;
            assert(rest[i - 1] == addresses[i]);
            lemma_address_of(rest, i - 1);
        }
        if has_address(rest, type_) {
            let i = choose|i: int| 0 <= i < rest.len() && (#[trigger] rest[i]).key.type_ == type_;
            assert(addresses[i + 1].key.type_ == type_);
        }
    }
}

/// A type below the first coin entry has no coin entry.
proof fn lemma_below_coins(coins: Seq<CoinEntryView>, type_: TypeTree)
    requires
        coins_ascend(coins),
        coins.len() > 0 ==> type_order(type_, coins[0].key.type_) is Less,
    ensures
        !has_coin(coins, type_),
        forall|i: int|
            0 <= i < coins.len() ==> type_order(type_, (#[trigger] coins[i]).key.type_) is Less,
{
    law_type_order(type_, type_);
    assert forall|i: int| 0 <= i < coins.len() implies type_order(
        type_,
        (#[trigger] coins[i]).key.type_,
    ) is Less by {
        if i > 0 {
            law_type_order_transitive(type_, coins[0].key.type_, coins[i].key.type_);
        }
    }
}

/// A type below the first address entry has no address entry.
proof fn lemma_below_addresses(addresses: Seq<AddressEntryView>, type_: TypeTree)
    requires
        addresses_ascend(addresses),
        addresses.len() > 0 ==> type_order(type_, addresses[0].key.type_) is Less,
    ensures
        !has_address(addresses, type_),
        forall|i: int|
            0 <= i < addresses.len() ==> type_order(
                type_,
                (#[trigger] addresses[i]).key.type_,
            ) is Less,
{
    law_type_order(type_, type_);
    assert forall|i: int| 0 <= i < addresses.len() implies type_order(
        type_,
        (#[trigger] addresses[i]).key.type_,
    ) is Less by {
        if i > 0 {
            law_type_order_transitive(type_, addresses[0].key.type_, addresses[i].key.type_);
        }
    }
}

/// The types of a merge are those of the two lists.
#[verifier::rlimit(40)]
#[verifier::spinoff_prover]
pub proof fn law_merge_types(
    coins: Seq<CoinEntryView>,
    addresses: Seq<AddressEntryView>,
    type_: TypeTree,
)
    ensures
        has_entry(merged(coins, addresses), type_) <==> has_coin(coins, type_) || has_address(
            addresses,
            type_,
        ),
    decreases coins.len() + addresses.len(),
{
    if coins.len() > 0 || addresses.len() > 0 {
        let order = next_order(coins, addresses);
        let takes_coin = !(order is Greater);
        let takes_address = !(order is Less);
        let coins_rest = if takes_coin {
            coins.skip(1)
        } else {
            coins
        };
        let addresses_rest = if takes_address {
            addresses.skip(1)
        } else {
            addresses
        };
        law_merge_types(coins_rest, addresses_rest, type_);
        if takes_address && takes_coin {
            law_type_order(coins[0].key.type_, addresses[0].key.type_);
        }
        let all = merged(coins, addresses);
        let rest = merged(coins_rest, addresses_rest);
        assert forall|i: int| 0 <= i < rest.len() implies #[trigger] rest[i] == all[i + 1] by {}
        assert forall|i: int| 0 < i < all.len() implies #[trigger] all[i] == rest[i - 1] by {}
        assert forall|i: int| 0 <= i < coins_rest.len() && takes_coin implies coins_rest[i]
            == #[trigger] coins[i + 1] by {}
        if has_coin(coins, type_) {
            let i = choose|i: int| 0 <= i < coins.len() && (#[trigger] coins[i]).key.type_ == type_;
            if takes_coin && i == 0 {
                assert(all[0].type_ == type_);
            } else if takes_coin {
                assert(coins_rest[i - 1] == coins[i]);
            }
        }
        if has_address(addresses, type_) {
            let i = choose|i: int|
                0 <= i < addresses.len() && (#[trigger] addresses[i]).key.type_ == type_;
            if takes_address && i == 0 {
                assert(all[0].type_ == type_);
            } else if takes_address {
                assert(addresses_rest[i - 1] == addresses[i]);
            }
        }
        if has_entry(rest, type_) {
            let i = choose|i: int| 0 <= i < rest.len() && (#[trigger] rest[i]).type_ == type_;
            assert(all[i + 1].type_ == type_);
        }
        if has_entry(all, type_) {
            let i = choose|i: int| 0 <= i < all.len() && (#[trigger] all[i]).type_ == type_;
            if i > 0 {
                assert(rest[i - 1].type_ == type_);
                if has_coin(coins_rest, type_) {
                    let j = choose|j: int|
                        0 <= j < coins_rest.len() && (#[trigger] coins_rest[j]).key.type_ == type_;
                    if takes_coin {
                        assert(coins[j + 1].key.type_ == type_);
                    }
                } else {
                    let j = choose|j: int|
                        0 <= j < addresses_rest.len() && (#[trigger] addresses_rest[j]).key.type_
                            == type_;
                    if takes_address {
                        assert(addresses[j + 1].key.type_ == type_);
                    }
                }
            } else if takes_coin {
                assert(coins[0].key.type_ == type_);
            } else {
                assert(addresses[0].key.type_ == type_);
            }
        }
    }
}

/// The merge of ascending lists is ascending, with each type once, and holds for each type what
/// the two lists together hold for it.
#[verifier::rlimit(40)]
#[verifier::spinoff_prover]
pub proof fn law_merge_ascending(coins: Seq<CoinEntryView>, addresses: Seq<AddressEntryView>)
    requires
        coins_ascend(coins),
        addresses_ascend(addresses),
    ensures
        entries_ascend(merged(coins, addresses)),
        forall|i: int|
            0 <= i < merged(coins, addresses).len() ==> #[trigger] merged(coins, addresses)[i]
                == combined(coins, addresses, merged(coins, addresses)[i].type_),
    decreases coins.len() + addresses.len(),
{
    if coins.len() > 0 || addresses.len() > 0 {
        let order = next_order(coins, addresses);
        let takes_coin = !(order is Greater);
        let takes_address = !(order is Less);
        let coins_rest = if takes_coin {
            coins.skip(1)
        } else {
            coins
        };
        let addresses_rest = if takes_address {
            addresses.skip(1)
        } else {
            addresses
        };
        let all = merged(coins, addresses);
        let rest = merged(coins_rest, addresses_rest);
        let first = all[0].type_;
        if takes_coin {
            lemma_skip_coin(coins, first);
            lemma_coin_of(coins, 0);
        }
        if takes_address {
            lemma_skip_address(addresses, first);
            lemma_address_of(addresses, 0);
        }
        if coins.len() > 0 && addresses.len() > 0 {
            law_type_order(coins[0].key.type_, addresses[0].key.type_);
        }
        law_merge_ascending(coins_rest, addresses_rest);
        // What is left of both lists lies above the first entry.
        assert forall|i: int| 0 <= i < coins_rest.len() implies type_order(
            first,
            (#[trigger] coins_rest[i]).key.type_,
        ) is Less by {
            if takes_coin {
                assert(coins_rest[i] == coins[i + 1]);
            } else {
                lemma_below_coins(coins, first);
            }
        }
        assert forall|i: int| 0 <= i < addresses_rest.len() implies type_order(
            first,
            (#[trigger] addresses_rest[i]).key.type_,
        ) is Less by {
            if takes_address {
                assert(addresses_rest[i] == addresses[i + 1]);
            } else {
                lemma_below_addresses(addresses, first);
            }
        }
        assert forall|i: int| 0 <= i < rest.len() implies type_order(
            first,
            (#[trigger] rest[i]).type_,
        ) is Less by {
            law_merge_types(coins_rest, addresses_rest, rest[i].type_);
            assert(has_entry(rest, rest[i].type_));
            if has_coin(coins_rest, rest[i].type_) {
                let j = choose|j: int|
                    0 <= j < coins_rest.len() && (#[trigger] coins_rest[j]).key.type_
                        == rest[i].type_;
                assert(type_order(first, coins_rest[j].key.type_) is Less);
            } else {
                let j = choose|j: int|
                    0 <= j < addresses_rest.len() && (#[trigger] addresses_rest[j]).key.type_
                        == rest[i].type_;
                assert(type_order(first, addresses_rest[j].key.type_) is Less);
            }
        }
        assert(all =~= seq![all[0]] + rest);
        assert forall|i: int, j: int| 0 <= i < j < all.len() implies type_order(
            (#[trigger] all[i]).type_,
            (#[trigger] all[j]).type_,
        ) is Less by {
            assert(all[j] == rest[j - 1]);
            if i > 0 {
                assert(all[i] == rest[i - 1]);
            }
        }
        law_type_order(first, first);
        assert forall|i: int| 0 <= i < all.len() implies #[trigger] all[i] == combined(
            coins,
            addresses,
            all[i].type_,
        ) by {
            if i == 0 {
                if !takes_address {
                    lemma_below_addresses(addresses, first);
                }
                if !takes_coin {
                    lemma_below_coins(coins, first);
                }
            } else {
                assert(all[i] == rest[i - 1]);
                assert(type_order(first, rest[i - 1].type_) is Less);
                law_merge_types(coins_rest, addresses_rest, all[i].type_);
                assert(has_entry(rest, rest[i - 1].type_));
                if takes_coin {
                    lemma_skip_coin(coins, all[i].type_);
                }
                if takes_address {
                    lemma_skip_address(addresses, all[i].type_);
                }
            }
        }
    }
}

/// The sum of coin balances.
pub open spec fn coin_sum(coins: Seq<CoinEntryView>) -> int
    decreases coins.len(),
{
    if coins.len() == 0 {
        0
    } else {
        coins[0].balance + coin_sum(coins.skip(1))
    }
}

/// The sum of address balances.
pub open spec fn address_sum(addresses: Seq<AddressEntryView>) -> int
    decreases addresses.len(),
{
    if addresses.len() == 0 {
        0
    } else {
        addresses[0].balance + address_sum(addresses.skip(1))
    }
}

/// The sum of the coin balances of merged entries.
pub open spec fn merged_coin_sum(entries: Seq<MergedEntryView>) -> int
    decreases entries.len(),
{
    if entries.len() == 0 {
        0
    } else {
        entries[0].coin_balance + merged_coin_sum(entries.skip(1))
    }
}

/// The sum of the address balances of merged entries.
pub open spec fn merged_address_sum(entries: Seq<MergedEntryView>) -> int
    decreases entries.len(),
{
    if entries.len() == 0 {
        0
    } else {
        entries[0].address_balance + merged_address_sum(entries.skip(1))
    }
}

/// A merge keeps the sum of either list, whatever their order, and is at least as long as the
/// longer list and at most as long as both together.
pub proof fn law_merge_keeps_sums(coins: Seq<CoinEntryView>, addresses: Seq<AddressEntryView>)
    ensures
        merged_coin_sum(merged(coins, addresses)) == coin_sum(coins),
        merged_address_sum(merged(coins, addresses)) == address_sum(addresses),
        coins.len() <= merged(coins, addresses).len() <= coins.len() + addresses.len(),
        addresses.len() <= merged(coins, addresses).len(),
    decreases coins.len() + addresses.len(),
{
    if coins.len() > 0 || addresses.len() > 0 {
        let order = next_order(coins, addresses);
        let coins_rest = if order is Greater {
            coins
        } else {
            coins.skip(1)
        };
        let addresses_rest = if order is Less {
            addresses
        } else {
            addresses.skip(1)
        };
        law_merge_keeps_sums(coins_rest, addresses_rest);
        assert(merged(coins, addresses).skip(1) =~= merged(coins_rest, addresses_rest));
    }
}

/// A merge starts with the entry whose type comes first, and goes on with what is left of the lists.
/// An entry of one list alone keeps its token, its owner and its balance, beside a balance of zero.
/// Entries of one type become one, with both balances and with the token and the owner of the coin
/// entry.
pub proof fn law_merge_starts(coins: Seq<CoinEntryView>, addresses: Seq<AddressEntryView>)
    ensures
        ({
            let all = merged(coins, addresses);
            let coin = coins[0];
            let address = addresses[0];
            let coin_first = coins.len() > 0 && (addresses.len() == 0 || type_order(
                coin.key.type_,
                address.key.type_,
            ) is Less);
            let address_first = addresses.len() > 0 && (coins.len() == 0 || type_order(
                address.key.type_,
                coin.key.type_,
            ) is Less);
            let both = coins.len() > 0 && addresses.len() > 0 && coin.key.type_
                == address.key.type_;
            &&& coins.len() == 0 && addresses.len() == 0 ==> all.len() == 0
            &&& coins.len() > 0 || addresses.len() > 0 ==> all.len() > 0 && (coin_first
                || address_first || both)
            &&& coin_first || both ==> {
                &&& all[0].token == coin.token
                &&& all[0].owner == coin.key.owner
                &&& all[0].type_ == coin.key.type_
                &&& all[0].coin_balance == coin.balance
                &&& all[0].address_balance == if both {
                    address.balance
                } else {
                    0
                }
                &&& all.skip(1) == merged(
                    coins.skip(1),
                    if both {
                        addresses.skip(1)
                    } else {
                        addresses
                    },
                )
            }
            &&& address_first ==> {
                &&& all[0].token == address.token
                &&& all[0].owner == address.key.owner
                &&& all[0].type_ == address.key.type_
                &&& all[0].coin_balance == 0
                &&& all[0].address_balance == address.balance
                &&& all.skip(1) == merged(coins, addresses.skip(1))
            }
        }),
{
    if coins.len() > 0 && addresses.len() > 0 {
        law_type_order(coins[0].key.type_, addresses[0].key.type_);
    }
    if coins.len() > 0 || addresses.len() > 0 {
        let order = next_order(coins, addresses);
        let coins_rest = if order is Greater {
            coins
        } else {
            coins.skip(1)
        };
        let addresses_rest = if order is Less {
            addresses
        } else {
            addresses.skip(1)
        };
        assert(merged(coins, addresses).skip(1) =~= merged(coins_rest, addresses_rest));
    }
}

/// The merged entry of a coin entry's type, in a merge of ascending lists, has the token, the owner
/// and the balance of the coin entry, and the address balance of that type, or zero where there is
/// none.
pub proof fn law_coin_is_merged(
    coins: Seq<CoinEntryView>,
    addresses: Seq<AddressEntryView>,
    i: int,
    k: int,
)
    requires
        coins_ascend(coins),
        addresses_ascend(addresses),
        0 <= i < coins.len(),
        0 <= k < merged(coins, addresses).len(),
        merged(coins, addresses)[k].type_ == coins[i].key.type_,
    ensures
        ({
            let entry = merged(coins, addresses)[k];
            &&& entry.token == coins[i].token
            &&& entry.owner == coins[i].key.owner
            &&& entry.coin_balance == coins[i].balance
            &&& forall|j: int|
                0 <= j < addresses.len() && (#[trigger] addresses[j]).key.type_
                    == coins[i].key.type_ ==> entry.address_balance == addresses[j].balance
            &&& (forall|j: int|
                0 <= j < addresses.len() ==> (#[trigger] addresses[j]).key.type_
                    != coins[i].key.type_) ==> entry.address_balance == 0
        }),
{
    law_merge_ascending(coins, addresses);
    lemma_coin_of(coins, i);
    let entry = merged(coins, addresses)[k];
    assert(entry == combined(coins, addresses, entry.type_));
    assert forall|j: int|
        0 <= j < addresses.len() && (#[trigger] addresses[j]).key.type_
            == coins[i].key.type_ implies entry.address_balance == addresses[j].balance by {
        lemma_address_of(addresses, j);
    }
}

/// The merged entry of a type that only an address entry has, in a merge of ascending lists, has the
/// token, the owner and the balance of the address entry, and no coin balance.
pub proof fn law_address_is_merged(
    coins: Seq<CoinEntryView>,
    addresses: Seq<AddressEntryView>,
    j: int,
    k: int,
)
    requires
        coins_ascend(coins),
        addresses_ascend(addresses),
        0 <= j < addresses.len(),
        forall|i: int|
            0 <= i < coins.len() ==> (#[trigger] coins[i]).key.type_ != addresses[j].key.type_,
        0 <= k < merged(coins, addresses).len(),
        merged(coins, addresses)[k].type_ == addresses[j].key.type_,
    ensures
        ({
            let entry = merged(coins, addresses)[k];
            &&& entry.token == addresses[j].token
            &&& entry.owner == addresses[j].key.owner
            &&& entry.coin_balance == 0
            &&& entry.address_balance == addresses[j].balance
        }),
{
    law_merge_ascending(coins, addresses);
    lemma_address_of(addresses, j);
    let entry = merged(coins, addresses)[k];
    assert(entry == combined(coins, addresses, entry.type_));
}

/// Entries show their parts, in order.
pub proof fn law_entries_show_their_parts(
    coins: Seq<CoinEntry>,
    addresses: Seq<AddressEntry>,
    entries: Seq<MergedEntry>,
    i: int,
)
    ensures
        coin_views(coins).len() == coins.len(),
        0 <= i < coins.len() ==> {
            let view = coin_views(coins)[i];
            &&& view == coins[i]@
            &&& view.token == coins[i].token@
            &&& view.key == coins[i].key@
            &&& view.balance == coins[i].balance
        },
        address_views(addresses).len() == addresses.len(),
        0 <= i < addresses.len() ==> {
            let view = address_views(addresses)[i];
            &&& view == addresses[i]@
            &&& view.token == addresses[i].token@
            &&& view.key == addresses[i].key@
            &&& view.balance == addresses[i].balance
        },
        merged_views(entries).len() == entries.len(),
        0 <= i < entries.len() ==> {
            let view = merged_views(entries)[i];
            &&& view == entries[i]@
            &&& view.token == entries[i].token@
            &&& view.owner == entries[i].owner.bytes@
            &&& view.type_ == entries[i].type_.tree()
            &&& view.coin_balance == entries[i].coin_balance
            &&& view.address_balance == entries[i].address_balance
        },
{
}

} // verus!
