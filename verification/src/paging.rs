//! Why pages of the two indices are enough to make a page of their merge.
use vstd::prelude::*;

use crate::list::{entry_row, merged_page, AddressPageView, CoinPageView, Page};
use crate::merge::{
    addresses_ascend, coins_ascend, has_coin, has_entry, law_merge_ascending, law_merge_keeps_sums,
    law_merge_types, merged, next_order, AddressEntryView, CoinEntryView, MergedEntryView,
};
use crate::type_tag::{law_type_order, law_type_order_transitive, type_order, TypeTree};

verus! {

/// The first items, up to a limit.
pub open spec fn first_of<T>(items: Seq<T>, limit: nat) -> Seq<T> {
    if items.len() <= limit {
        items
    } else {
        items.take(limit as int)
    }
}

/// The last items, up to a limit.
pub open spec fn last_of<T>(items: Seq<T>, limit: nat) -> Seq<T> {
    if items.len() <= limit {
        items
    } else {
        items.skip(items.len() - limit)
    }
}

/// The first entries of a merge need no more than as many first entries of either list.
#[verifier::rlimit(40)]
#[verifier::spinoff_prover]
proof fn lemma_merge_first(
    coins: Seq<CoinEntryView>,
    addresses: Seq<AddressEntryView>,
    coins_limit: nat,
    addresses_limit: nat,
    limit: nat,
)
    requires
        limit <= coins_limit,
        limit <= addresses_limit,
    ensures
        first_of(
            merged(first_of(coins, coins_limit), first_of(addresses, addresses_limit)),
            limit,
        ) == first_of(merged(coins, addresses), limit),
    decreases limit,
{
    let some_coins = first_of(coins, coins_limit);
    let some_addresses = first_of(addresses, addresses_limit);
    if limit == 0 {
        assert(first_of(merged(some_coins, some_addresses), limit) =~= Seq::empty());
        assert(first_of(merged(coins, addresses), limit) =~= Seq::empty());
    } else if coins.len() > 0 || addresses.len() > 0 {
        let order = next_order(coins, addresses);
        assert(next_order(some_coins, some_addresses) == order);
        let rest_limit = (limit - 1) as nat;
        let coins_rest = if order is Greater {
            coins
        } else {
            coins.skip(1)
        };
        let coins_rest_limit = if order is Greater {
            coins_limit
        } else {
            (coins_limit - 1) as nat
        };
        let addresses_rest = if order is Less {
            addresses
        } else {
            addresses.skip(1)
        };
        let addresses_rest_limit = if order is Less {
            addresses_limit
        } else {
            (addresses_limit - 1) as nat
        };
        lemma_merge_first(
            coins_rest,
            addresses_rest,
            coins_rest_limit,
            addresses_rest_limit,
            rest_limit,
        );
        if !(order is Greater) {
            assert(some_coins.skip(1) =~= first_of(coins_rest, coins_rest_limit));
        }
        if !(order is Less) {
            assert(some_addresses.skip(1) =~= first_of(addresses_rest, addresses_rest_limit));
        }
        let some = merged(
            first_of(coins_rest, coins_rest_limit),
            first_of(addresses_rest, addresses_rest_limit),
        );
        let rest = merged(coins_rest, addresses_rest);
        let first = seq![merged(coins, addresses)[0]];
        assert(merged(coins, addresses) =~= first + rest);
        assert(merged(some_coins, some_addresses) =~= first + some);
        assert(first_of(first + rest, limit) =~= first + first_of(rest, rest_limit));
        assert(first_of(first + some, limit) =~= first + first_of(some, rest_limit));
    }
}

/// The first entries of a merge come from as many first entries of either list, whatever the order
/// of the lists.
pub proof fn law_merge_first(
    coins: Seq<CoinEntryView>,
    addresses: Seq<AddressEntryView>,
    limit: nat,
)
    ensures
        first_of(merged(first_of(coins, limit), first_of(addresses, limit)), limit) == first_of(
            merged(coins, addresses),
            limit,
        ),
{
    lemma_merge_first(coins, addresses, limit, limit, limit);
}

/// The last entries stay the same where something is put in front of them.
proof fn lemma_last_of_longer<T>(front: Seq<T>, items: Seq<T>, limit: nat)
    requires
        items.len() >= limit,
    ensures
        last_of(front + items, limit) == last_of(items, limit),
{
    assert(last_of(front + items, limit) =~= last_of(items, limit));
}

/// Where enough other coin entries are left, the last entries of a merge do not need the first.
proof fn lemma_without_first_coin(
    coins: Seq<CoinEntryView>,
    addresses: Seq<AddressEntryView>,
    limit: nat,
)
    requires
        coins_ascend(coins),
        addresses_ascend(addresses),
        coins.len() > limit,
    ensures
        last_of(merged(coins, addresses), limit) == last_of(
            merged(coins.skip(1), addresses),
            limit,
        ),
    decreases addresses.len(),
{
    let coins_rest = coins.skip(1);
    let all = merged(coins, addresses);
    let order = next_order(coins, addresses);
    law_merge_keeps_sums(coins_rest, addresses);
    if order is Less {
        lemma_last_of_longer(seq![all[0]], merged(coins_rest, addresses), limit);
        assert(all =~= seq![all[0]] + merged(coins_rest, addresses));
    } else {
        let addresses_rest = addresses.skip(1);
        let coin = coins[0].key.type_;
        let address = addresses[0].key.type_;
        law_merge_keeps_sums(coins_rest, addresses_rest);
        law_merge_keeps_sums(coins, addresses_rest);
        law_type_order(coin, address);
        // The address entry goes before all coin entries but the first.
        if coins_rest.len() > 0 {
            let next = coins[1].key.type_;
            assert(type_order(coin, next) is Less);
            if order is Greater {
                law_type_order_transitive(address, coin, next);
            }
            law_type_order(address, next);
            assert(coins_rest[0] == coins[1]);
        }
        assert(next_order(coins_rest, addresses) is Greater);
        let less = merged(coins_rest, addresses);
        assert(less =~= seq![less[0]] + merged(coins_rest, addresses_rest));
        lemma_last_of_longer(seq![less[0]], merged(coins_rest, addresses_rest), limit);
        if order is Greater {
            assert(addresses_ascend(addresses_rest));
            lemma_without_first_coin(coins, addresses_rest, limit);
            lemma_last_of_longer(seq![all[0]], merged(coins, addresses_rest), limit);
            assert(all =~= seq![all[0]] + merged(coins, addresses_rest));
        } else {
            lemma_last_of_longer(seq![all[0]], merged(coins_rest, addresses_rest), limit);
            assert(all =~= seq![all[0]] + merged(coins_rest, addresses_rest));
        }
    }
}

/// Where enough other address entries are left, the last entries of a merge do not need the first.
proof fn lemma_without_first_address(
    coins: Seq<CoinEntryView>,
    addresses: Seq<AddressEntryView>,
    limit: nat,
)
    requires
        coins_ascend(coins),
        addresses_ascend(addresses),
        addresses.len() > limit,
    ensures
        last_of(merged(coins, addresses), limit) == last_of(
            merged(coins, addresses.skip(1)),
            limit,
        ),
    decreases coins.len(),
{
    let addresses_rest = addresses.skip(1);
    let all = merged(coins, addresses);
    let order = next_order(coins, addresses);
    law_merge_keeps_sums(coins, addresses_rest);
    if order is Greater {
        lemma_last_of_longer(seq![all[0]], merged(coins, addresses_rest), limit);
        assert(all =~= seq![all[0]] + merged(coins, addresses_rest));
    } else {
        let coins_rest = coins.skip(1);
        let coin = coins[0].key.type_;
        let address = addresses[0].key.type_;
        law_merge_keeps_sums(coins_rest, addresses_rest);
        law_merge_keeps_sums(coins_rest, addresses);
        law_type_order(coin, address);
        // The coin entry goes before all address entries but the first.
        if addresses_rest.len() > 0 {
            let next = addresses[1].key.type_;
            assert(type_order(address, next) is Less);
            if order is Less {
                law_type_order_transitive(coin, address, next);
            }
            assert(addresses_rest[0] == addresses[1]);
        }
        assert(next_order(coins, addresses_rest) is Less);
        let less = merged(coins, addresses_rest);
        assert(less =~= seq![less[0]] + merged(coins_rest, addresses_rest));
        lemma_last_of_longer(seq![less[0]], merged(coins_rest, addresses_rest), limit);
        if order is Less {
            assert(coins_ascend(coins_rest));
            lemma_without_first_address(coins_rest, addresses, limit);
            lemma_last_of_longer(seq![all[0]], merged(coins_rest, addresses), limit);
            assert(all =~= seq![all[0]] + merged(coins_rest, addresses));
        } else {
            lemma_last_of_longer(seq![all[0]], merged(coins_rest, addresses_rest), limit);
            assert(all =~= seq![all[0]] + merged(coins_rest, addresses_rest));
        }
    }
}

/// The last entries of a merge of ascending lists come from as many last entries of either list.
pub proof fn law_merge_last(
    coins: Seq<CoinEntryView>,
    addresses: Seq<AddressEntryView>,
    limit: nat,
)
    requires
        coins_ascend(coins),
        addresses_ascend(addresses),
    ensures
        last_of(merged(last_of(coins, limit), last_of(addresses, limit)), limit) == last_of(
            merged(coins, addresses),
            limit,
        ),
    decreases coins.len() + addresses.len(),
{
    if coins.len() > limit {
        lemma_without_first_coin(coins, addresses, limit);
        assert(coins_ascend(coins.skip(1)));
        law_merge_last(coins.skip(1), addresses, limit);
        assert(last_of(coins.skip(1), limit) =~= last_of(coins, limit));
    } else if addresses.len() > limit {
        lemma_without_first_address(coins, addresses, limit);
        assert(addresses_ascend(addresses.skip(1)));
        law_merge_last(coins, addresses.skip(1), limit);
        assert(last_of(addresses.skip(1), limit) =~= last_of(addresses, limit));
    }
}

/// The lists can be cut in two at a type and merged piece by piece.
#[verifier::rlimit(40)]
#[verifier::spinoff_prover]
pub proof fn law_merge_splits(
    coins: Seq<CoinEntryView>,
    addresses: Seq<AddressEntryView>,
    i: int,
    j: int,
)
    requires
        0 <= i <= coins.len(),
        0 <= j <= addresses.len(),
        forall|x: int, y: int|
            0 <= x < i && j <= y < addresses.len() ==> type_order(
                (#[trigger] coins[x]).key.type_,
                (#[trigger] addresses[y]).key.type_,
            ) is Less,
        forall|x: int, y: int|
            0 <= x < j && i <= y < coins.len() ==> type_order(
                (#[trigger] addresses[x]).key.type_,
                (#[trigger] coins[y]).key.type_,
            ) is Less,
    ensures
        merged(coins, addresses) == merged(coins.take(i), addresses.take(j)) + merged(
            coins.skip(i),
            addresses.skip(j),
        ),
    decreases i + j,
{
    let low_coins = coins.take(i);
    let low_addresses = addresses.take(j);
    let high = merged(coins.skip(i), addresses.skip(j));
    let all = merged(coins, addresses);
    if i == 0 && j == 0 {
        assert(coins.skip(0) =~= coins);
        assert(addresses.skip(0) =~= addresses);
        assert(all =~= merged(low_coins, low_addresses) + high);
    } else {
        let order = next_order(low_coins, low_addresses);
        if i > 0 && addresses.len() > 0 {
            assert(low_coins[0] == coins[0]);
            assert(j == 0 ==> type_order(coins[0].key.type_, addresses[0].key.type_) is Less);
        }
        if j > 0 && coins.len() > 0 {
            assert(low_addresses[0] == addresses[0]);
            law_type_order(addresses[0].key.type_, coins[0].key.type_);
            assert(i == 0 ==> type_order(addresses[0].key.type_, coins[0].key.type_) is Less);
        }
        assert(next_order(coins, addresses) == order);
        let takes_coin = !(order is Greater);
        let takes_address = !(order is Less);
        let coins_rest = if takes_coin {
            coins.skip(1)
        } else {
            coins
        };
        let addresses_rest = if takes_address {
            addresses.skip(1)
        } else {
            addresses
        };
        let i_rest = if takes_coin {
            i - 1
        } else {
            i
        };
        let j_rest = if takes_address {
            j - 1
        } else {
            j
        };
        law_merge_splits(coins_rest, addresses_rest, i_rest, j_rest);
        assert(coins_rest.skip(i_rest) =~= coins.skip(i));
        assert(addresses_rest.skip(j_rest) =~= addresses.skip(j));
        if takes_coin {
            assert(coins_rest.take(i_rest) =~= low_coins.skip(1));
        }
        if takes_address {
            assert(addresses_rest.take(j_rest) =~= low_addresses.skip(1));
        }
        let low = merged(coins_rest.take(i_rest), addresses_rest.take(j_rest));
        assert(merged(low_coins, low_addresses) =~= seq![all[0]] + low);
        assert(all =~= seq![all[0]] + merged(coins_rest, addresses_rest));
        assert(all =~= merged(low_coins, low_addresses) + high);
    }
}

/// A type is at most another.
pub open spec fn at_most(a: TypeTree, b: TypeTree) -> bool {
    !(type_order(a, b) is Greater)
}

/// What follows the first entries of a merge of ascending lists is the merge of what follows the
/// type of the last of them in either list, so a listing goes on where a page ended.
#[verifier::rlimit(40)]
#[verifier::spinoff_prover]
pub proof fn law_merge_continues(
    coins: Seq<CoinEntryView>,
    addresses: Seq<AddressEntryView>,
    shown: int,
    i: int,
    j: int,
)
    requires
        coins_ascend(coins),
        addresses_ascend(addresses),
        0 < shown <= merged(coins, addresses).len(),
        0 <= i <= coins.len(),
        0 <= j <= addresses.len(),
        forall|x: int|
            0 <= x < coins.len() ==> (x < i <==> at_most(
                (#[trigger] coins[x]).key.type_,
                merged(coins, addresses)[shown - 1].type_,
            )),
        forall|x: int|
            0 <= x < addresses.len() ==> (x < j <==> at_most(
                (#[trigger] addresses[x]).key.type_,
                merged(coins, addresses)[shown - 1].type_,
            )),
    ensures
        merged(coins.take(i), addresses.take(j)) == merged(coins, addresses).take(shown),
        merged(coins.skip(i), addresses.skip(j)) == merged(coins, addresses).skip(shown),
{
    let all = merged(coins, addresses);
    let last = all[shown - 1].type_;
    assert forall|x: int, y: int| 0 <= x < i && j <= y < addresses.len() implies type_order(
        (#[trigger] coins[x]).key.type_,
        (#[trigger] addresses[y]).key.type_,
    ) is Less by {
        lemma_apart(coins[x].key.type_, last, addresses[y].key.type_);
    }
    assert forall|x: int, y: int| 0 <= x < j && i <= y < coins.len() implies type_order(
        (#[trigger] addresses[x]).key.type_,
        (#[trigger] coins[y]).key.type_,
    ) is Less by {
        lemma_apart(addresses[x].key.type_, last, coins[y].key.type_);
    }
    law_merge_splits(coins, addresses, i, j);
    law_merge_ascending(coins, addresses);
    let low = merged(coins.take(i), addresses.take(j));
    let high = merged(coins.skip(i), addresses.skip(j));
    if low.len() > shown {
        let type_ = all[shown].type_;
        assert(low[shown] == all[shown]);
        law_merge_types(coins.take(i), addresses.take(j), type_);
        assert(has_entry(low, type_));
        assert(type_order(last, type_) is Less);
        law_type_order(last, type_);
        if has_coin(coins.take(i), type_) {
            let x = choose|x: int|
                0 <= x < i && (#[trigger] coins.take(i)[x]).key.type_ == type_;
            assert(at_most(coins[x].key.type_, last));
        } else {
            let x = choose|x: int|
                0 <= x < j && (#[trigger] addresses.take(j)[x]).key.type_ == type_;
            assert(at_most(addresses[x].key.type_, last));
        }
    }
    if low.len() < shown {
        let at = shown - 1 - low.len();
        assert(high[at] == all[shown - 1]);
        law_merge_types(coins.skip(i), addresses.skip(j), last);
        assert(has_entry(high, last));
        law_type_order(last, last);
        if has_coin(coins.skip(i), last) {
            let x = choose|x: int|
                0 <= x < coins.skip(i).len() && (#[trigger] coins.skip(i)[x]).key.type_ == last;
            assert(coins[i + x].key.type_ == last);
        } else {
            let x = choose|x: int|
                0 <= x < addresses.skip(j).len() && (#[trigger] addresses.skip(j)[x]).key.type_
                    == last;
            assert(addresses[j + x].key.type_ == last);
        }
    }
    assert(low =~= all.take(shown));
    assert(high =~= all.skip(shown));
}

/// What precedes the last entries of a merge of ascending lists is the merge of what precedes the
/// type of the first of them in either list, so a listing goes on backwards where a page began.
#[verifier::rlimit(40)]
#[verifier::spinoff_prover]
pub proof fn law_merge_precedes(
    coins: Seq<CoinEntryView>,
    addresses: Seq<AddressEntryView>,
    shown: int,
    i: int,
    j: int,
)
    requires
        coins_ascend(coins),
        addresses_ascend(addresses),
        0 <= shown < merged(coins, addresses).len(),
        0 <= i <= coins.len(),
        0 <= j <= addresses.len(),
        forall|x: int|
            0 <= x < coins.len() ==> (x < i <==> type_order(
                (#[trigger] coins[x]).key.type_,
                merged(coins, addresses)[shown].type_,
            ) is Less),
        forall|x: int|
            0 <= x < addresses.len() ==> (x < j <==> type_order(
                (#[trigger] addresses[x]).key.type_,
                merged(coins, addresses)[shown].type_,
            ) is Less),
    ensures
        merged(coins.take(i), addresses.take(j)) == merged(coins, addresses).take(shown),
        merged(coins.skip(i), addresses.skip(j)) == merged(coins, addresses).skip(shown),
{
    let all = merged(coins, addresses);
    let first = all[shown].type_;
    assert forall|x: int, y: int| 0 <= x < i && j <= y < addresses.len() implies type_order(
        (#[trigger] coins[x]).key.type_,
        (#[trigger] addresses[y]).key.type_,
    ) is Less by {
        lemma_below(coins[x].key.type_, first, addresses[y].key.type_);
    }
    assert forall|x: int, y: int| 0 <= x < j && i <= y < coins.len() implies type_order(
        (#[trigger] addresses[x]).key.type_,
        (#[trigger] coins[y]).key.type_,
    ) is Less by {
        lemma_below(addresses[x].key.type_, first, coins[y].key.type_);
    }
    law_merge_splits(coins, addresses, i, j);
    law_merge_ascending(coins, addresses);
    law_type_order(first, first);
    let low = merged(coins.take(i), addresses.take(j));
    let high = merged(coins.skip(i), addresses.skip(j));
    if low.len() > shown {
        assert(low[shown] == all[shown]);
        law_merge_types(coins.take(i), addresses.take(j), first);
        assert(has_entry(low, first));
        if has_coin(coins.take(i), first) {
            let x = choose|x: int|
                0 <= x < i && (#[trigger] coins.take(i)[x]).key.type_ == first;
            assert(coins[x].key.type_ == first);
        } else {
            let x = choose|x: int|
                0 <= x < j && (#[trigger] addresses.take(j)[x]).key.type_ == first;
            assert(addresses[x].key.type_ == first);
        }
    }
    if low.len() < shown {
        let type_ = all[shown - 1].type_;
        let at = shown - 1 - low.len();
        assert(high[at] == all[shown - 1]);
        law_merge_types(coins.skip(i), addresses.skip(j), type_);
        assert(has_entry(high, type_));
        assert(type_order(type_, first) is Less);
        if has_coin(coins.skip(i), type_) {
            let x = choose|x: int|
                0 <= x < coins.skip(i).len() && (#[trigger] coins.skip(i)[x]).key.type_ == type_;
            assert(coins[i + x].key.type_ == type_);
        } else {
            let x = choose|x: int|
                0 <= x < addresses.skip(j).len() && (#[trigger] addresses.skip(j)[x]).key.type_
                    == type_;
            assert(addresses[j + x].key.type_ == type_);
        }
    }
    assert(low =~= all.take(shown));
    assert(high =~= all.skip(shown));
}

/// A type below another stands below a type that is not.
proof fn lemma_below(low: TypeTree, middle: TypeTree, high: TypeTree)
    requires
        type_order(low, middle) is Less,
        !(type_order(high, middle) is Less),
    ensures
        type_order(low, high) is Less,
{
    law_type_order(middle, high);
    if middle != high {
        law_type_order_transitive(low, middle, high);
    }
}

/// A type at most another stands below a type that is not.
proof fn lemma_apart(low: TypeTree, middle: TypeTree, high: TypeTree)
    requires
        at_most(low, middle),
        !at_most(high, middle),
    ensures
        type_order(low, high) is Less,
{
    law_type_order(low, middle);
    law_type_order(middle, high);
    if low != middle {
        law_type_order_transitive(low, middle, high);
    }
}

/// The first entries of a list as a page of the coin index.
pub open spec fn front_coins(coins: Seq<CoinEntryView>, limit: nat, has_prev: bool) -> CoinPageView {
    CoinPageView { results: first_of(coins, limit), has_prev, has_next: coins.len() > limit }
}

/// The first entries of a list as a page of the address index.
pub open spec fn front_addresses(
    addresses: Seq<AddressEntryView>,
    limit: nat,
    has_prev: bool,
) -> AddressPageView {
    AddressPageView {
        results: first_of(addresses, limit),
        has_prev,
        has_next: addresses.len() > limit,
    }
}

/// The last entries of a list as a page of the coin index.
pub open spec fn back_coins(coins: Seq<CoinEntryView>, limit: nat, has_next: bool) -> CoinPageView {
    CoinPageView { results: last_of(coins, limit), has_prev: coins.len() > limit, has_next }
}

/// The last entries of a list as a page of the address index.
pub open spec fn back_addresses(
    addresses: Seq<AddressEntryView>,
    limit: nat,
    has_next: bool,
) -> AddressPageView {
    AddressPageView {
        results: last_of(addresses, limit),
        has_prev: addresses.len() > limit,
        has_next,
    }
}

/// Pages from the front of both indices make the page from the front of the merge of all that the
/// indices hold. It shows the first entries and says exactly whether more follow.
pub proof fn law_front_page(
    page: Page,
    coins: Seq<CoinEntryView>,
    addresses: Seq<AddressEntryView>,
    coins_before: bool,
    addresses_before: bool,
)
    requires
        page.from_front,
    ensures
        ({
            let limit = page.limit as nat;
            let all = merged(coins, addresses);
            let shown = merged_page(
                page,
                front_coins(coins, limit, coins_before),
                front_addresses(addresses, limit, addresses_before),
            );
            &&& shown.rows == first_of(all, limit).map_values(
                |entry: MergedEntryView| entry_row(entry),
            )
            &&& shown.has_next <==> all.len() > limit
            &&& shown.has_prev <==> coins_before || addresses_before
        }),
{
    let limit = page.limit as nat;
    law_merge_first(coins, addresses, limit);
    law_merge_keeps_sums(coins, addresses);
}

/// Pages from the back of both indices make the page from the back of the merge of all that the
/// indices hold, where they hold it in ascending order. It shows the last entries and says exactly
/// whether more precede.
pub proof fn law_back_page(
    page: Page,
    coins: Seq<CoinEntryView>,
    addresses: Seq<AddressEntryView>,
    coins_after: bool,
    addresses_after: bool,
)
    requires
        !page.from_front,
        coins_ascend(coins),
        addresses_ascend(addresses),
    ensures
        ({
            let limit = page.limit as nat;
            let all = merged(coins, addresses);
            let shown = merged_page(
                page,
                back_coins(coins, limit, coins_after),
                back_addresses(addresses, limit, addresses_after),
            );
            &&& shown.rows == last_of(all, limit).map_values(
                |entry: MergedEntryView| entry_row(entry),
            )
            &&& shown.has_prev <==> all.len() > limit
            &&& shown.has_next <==> coins_after || addresses_after
        }),
{
    let limit = page.limit as nat;
    law_merge_last(coins, addresses, limit);
    law_merge_keeps_sums(coins, addresses);
}

} // verus!
