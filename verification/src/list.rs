//! Listing the balances of an owner, a page at a time.
use vstd::prelude::*;

use crate::address::{
    address_text, byte_number, hex_number, law_address_text, law_owner_round_trip, names_address,
    owner_answer, SuiAddress,
};
use crate::error::{agrees, ErrorView, InternalErrorView, RpcError, RpcErrorView};
use crate::keys::{
    key_answer, law_requested_owner, law_shown_key_is_asked_for, requested_owner,
    requested_owner_answer, KeyView,
};
use crate::merge::{
    address_views, addresses_ascend, coin_views, coins_ascend, entries_ascend, has_coin, has_entry,
    law_address_is_merged, law_coin_is_merged, law_merge_ascending, law_merge_types,
    merge_balances, merged, merged_views, AddressEntry, AddressEntryView, CoinEntry, CoinEntryView,
    MergedEntry, MergedEntryView,
};
use crate::messages::{
    field_text, BalanceView, GetBalanceRequestView, ListBalancesRequest, ListBalancesResponse,
    ListBalancesResponseView,
};
use crate::point::point_row;
use crate::rows::{
    balances_of, law_first_failure, law_rows_answered, row_answer, row_views, rows_answer,
    totals_fit, Row, RowView,
};
use crate::type_tag::{readable, reads_back, TypeTree};

verus! {

/// Which part of the balances a page shows.
#[derive(Clone, Copy, Debug, PartialEq, Eq)]
pub struct Page {
    /// The most balances that the page shows.
    pub limit: usize,
    /// Whether the page is taken from the front, not from the back.
    pub from_front: bool,
}

/// A page of the coin index, in ascending order.
#[derive(Debug, PartialEq, Eq)]
pub struct CoinPage {
    pub results: Vec<CoinEntry>,
    pub has_prev: bool,
    pub has_next: bool,
}

/// A page of the address index, in ascending order.
#[derive(Debug, PartialEq, Eq)]
pub struct AddressPage {
    pub results: Vec<AddressEntry>,
    pub has_prev: bool,
    pub has_next: bool,
}

/// A page of both indices.
#[derive(Debug)]
pub struct MergedPage {
    pub rows: Vec<Row>,
    pub has_prev: bool,
    pub has_next: bool,
}

/// The mathematical view of a `CoinPage`.
pub struct CoinPageView {
    pub results: Seq<CoinEntryView>,
    pub has_prev: bool,
    pub has_next: bool,
}

/// The mathematical view of an `AddressPage`.
pub struct AddressPageView {
    pub results: Seq<AddressEntryView>,
    pub has_prev: bool,
    pub has_next: bool,
}

/// The mathematical view of a `MergedPage`.
pub struct MergedPageView {
    pub rows: Seq<RowView>,
    pub has_prev: bool,
    pub has_next: bool,
}

impl View for CoinPage {
    type V = CoinPageView;

    open spec fn view(&self) -> CoinPageView {
        CoinPageView {
            results: coin_views(self.results@),
            has_prev: self.has_prev,
            has_next: self.has_next,
        }
    }
}

impl View for AddressPage {
    type V = AddressPageView;

    open spec fn view(&self) -> AddressPageView {
        AddressPageView {
            results: address_views(self.results@),
            has_prev: self.has_prev,
            has_next: self.has_next,
        }
    }
}

impl View for MergedPage {
    type V = MergedPageView;

    open spec fn view(&self) -> MergedPageView {
        MergedPageView {
            rows: row_views(self.rows@),
            has_prev: self.has_prev,
            has_next: self.has_next,
        }
    }
}

/// The owner whose balances a request lists.
pub open spec fn list_step(owner: Seq<char>) -> Result<Seq<u8>, RpcErrorView> {
    match requested_owner_answer(owner) {
        Ok(owner) => Ok(owner),
        Err(error) => Err(RpcErrorView::Request(error)),
    }
}

/// The entries that a page shows of all entries: the first ones or the last ones, up to its limit.
pub open spec fn page_entries(page: Page, entries: Seq<MergedEntryView>) -> Seq<MergedEntryView> {
    if entries.len() <= page.limit {
        entries
    } else if page.from_front {
        entries.take(page.limit as int)
    } else {
        entries.skip(entries.len() - page.limit)
    }
}

/// A merged entry as a row, with its token.
pub open spec fn entry_row(entry: MergedEntryView) -> RowView {
    RowView {
        owner: entry.owner,
        type_: entry.type_,
        coin: Ok(Some(entry.coin_balance)),
        address: Ok(Some(entry.address_balance)),
        token: Some(entry.token),
    }
}

/// The page that two pages of the indices make together. What is cut off at the limit counts as
/// more to come on that side.
pub open spec fn merged_page(
    page: Page,
    coins: CoinPageView,
    addresses: AddressPageView,
) -> MergedPageView {
    let entries = merged(coins.results, addresses.results);
    let overflow = entries.len() > page.limit;
    MergedPageView {
        rows: page_entries(page, entries).map_values(|entry: MergedEntryView| entry_row(entry)),
        has_prev: coins.has_prev || addresses.has_prev || (overflow && !page.from_front),
        has_next: coins.has_next || addresses.has_next || (overflow && page.from_front),
    }
}

/// A page as the answer to a request, given what its rows are answered with.
pub open spec fn list_response(
    page: MergedPageView,
    answer: Result<Seq<BalanceView>, InternalErrorView>,
) -> Result<ListBalancesResponseView, RpcErrorView> {
    match answer {
        Ok(balances) => Ok(
            ListBalancesResponseView {
                has_previous_page: Some(page.has_prev),
                has_next_page: Some(page.has_next),
                balances,
            },
        ),
        Err(error) => Err(RpcErrorView::Internal(error)),
    }
}

/// Starts listing balances: whose they are.
pub fn list_balances(request: &ListBalancesRequest) -> (owner: Result<SuiAddress, RpcError>)
    ensures
        agrees(owner, list_step(field_text(request.owner))),
{
    match requested_owner(request.owner()) {
        Ok(owner) => Ok(owner),
        Err(error) => Err(RpcError::Request(error)),
    }
}

/// A coin balance is listed.
pub open spec fn is_listed(balance: i128) -> bool {
    balance > 0
}

/// Whether a listing keeps a coin balance. Balances of zero may stay in the index through
/// accumulation until they are compacted away, and are not listed.
pub fn keeps_coin_balance(balance: &i128) -> (keeps: bool)
    ensures
        keeps == (*balance > 0),
        keeps == is_listed(*balance),
{
    *balance > 0
}

/// Merges a page of the coin index and a page of the address index into one page.
pub fn merge_page(page: Page, coins: CoinPage, addresses: AddressPage) -> (result: MergedPage)
    ensures
        result@ == merged_page(page, coins@, addresses@),
{
    let ghost all = merged(coins@.results, addresses@.results);
    let cb_prev: bool = coins.has_prev;
    let cb_next: bool = coins.has_next;
    let ab_prev: bool = addresses.has_prev;
    let ab_next: bool = addresses.has_next;
    let mut entries: Vec<MergedEntry> = merge_balances(coins.results, addresses.results);
    assert(all.len() == entries@.len());
    let has_overflow: bool = entries.len() > page.limit;
    let (has_prev, has_next): (bool, bool) = if page.from_front {
        (cb_prev || ab_prev, has_overflow || cb_next || ab_next)
    } else {
        (has_overflow || cb_prev || ab_prev, cb_next || ab_next)
    };
    let truncated: Vec<MergedEntry> = if page.from_front {
        entries.truncate(page.limit);
        entries
    } else {
        let skip: usize = entries.len().saturating_sub(page.limit);
        entries.split_off(skip)
    };
    assert(merged_views(truncated@) =~= page_entries(page, all));
    let ghost shown = page_entries(page, all);
    let mut rows: Vec<Row> = Vec::new();
    for entry in it: truncated
        invariant
            it.seq() == truncated@,
            shown == merged_views(truncated@),
            row_views(rows@) == shown.take(it.index() as int).map_values(
                |entry: MergedEntryView| entry_row(entry),
            ),
    {
        let ghost i = it.index() as int;
        let ghost before = rows@;
        let row: Row = Row {
            owner: entry.owner,
            type_: entry.type_,
            coin: Ok(Some(entry.coin_balance)),
            address: Ok(Some(entry.address_balance)),
            token: Some(entry.token),
        };
        rows.push(row);
        assert(row@ == entry_row(shown[i]));
        assert(row_views(rows@) =~= row_views(before).push(row@));
        assert(shown.take(i + 1) =~= shown.take(i).push(shown[i]));
    }
    assert(shown.take(shown.len() as int) =~= shown);
    MergedPage { rows, has_prev, has_next }
}

/// Answers a request with a page of balances.
pub fn answer_list(page: MergedPage) -> (response: Result<ListBalancesResponse, RpcError>)
    requires
        totals_fit(page@.rows),
    ensures
        agrees(response, list_response(page@, rows_answer(page@.rows))),
{
    match balances_of(page.rows) {
        Ok(balances) => Ok(
            ListBalancesResponse {
                has_previous_page: Some(page.has_prev),
                has_next_page: Some(page.has_next),
                balances,
            },
        ),
        Err(error) => Err(RpcError::Internal(error)),
    }
}

/// A page shows as many of the merged entries as its limit allows. A page from the front that
/// says nothing follows, and a page from the back that says nothing precedes, shows them all.
pub proof fn law_page_is_complete(page: Page, coins: CoinPageView, addresses: AddressPageView)
    ensures
        ({
            let entries = merged(coins.results, addresses.results);
            let shown = merged_page(page, coins, addresses);
            let rows = entries.map_values(|entry: MergedEntryView| entry_row(entry));
            &&& shown.rows.len() == if entries.len() <= page.limit {
                entries.len()
            } else {
                page.limit as nat
            }
            &&& page.from_front && !shown.has_next ==> shown.rows == rows
            &&& !page.from_front && !shown.has_prev ==> shown.rows == rows
            &&& page.from_front ==> shown.rows == rows.take(shown.rows.len() as int)
            &&& !page.from_front ==> shown.rows == rows.skip(rows.len() - shown.rows.len())
        }),
{
    let entries = merged(coins.results, addresses.results);
    let shown = merged_page(page, coins, addresses);
    let rows = entries.map_values(|entry: MergedEntryView| entry_row(entry));
    if page.from_front {
        assert(shown.rows =~= rows.take(shown.rows.len() as int));
    } else {
        assert(shown.rows =~= rows.skip(rows.len() - shown.rows.len()));
    }
}

/// Pages of the indices in ascending order of type make a page in ascending order of type, with
/// each type once.
pub proof fn law_page_ascends(page: Page, coins: CoinPageView, addresses: AddressPageView)
    requires
        coins_ascend(coins.results),
        addresses_ascend(addresses.results),
    ensures
        entries_ascend(page_entries(page, merged(coins.results, addresses.results))),
{
    law_merge_ascending(coins.results, addresses.results);
}

/// A listed entry is answered as a point lookup is that finds the same balances, but for the page
/// token: a balance that the lookup does not find is one that the entry has as zero.
pub proof fn law_listed_as_looked_up(
    entry: MergedEntryView,
    coin: Option<i128>,
    address: Option<u128>,
)
    requires
        entry.coin_balance == match coin {
            Some(balance) => balance,
            None => 0,
        },
        entry.address_balance == match address {
            Some(balance) => balance,
            None => 0,
        },
    ensures
        ({
            let key = KeyView { owner: entry.owner, type_: entry.type_ };
            row_answer(point_row(key, coin, address)) == match row_answer(entry_row(entry)) {
                Ok(balance) => Ok(BalanceView { page_token: None, ..balance }),
                Err(error) => Err(error),
            }
        }),
{
}

/// A listed balance can be looked up: a request with its owner and its coin type asks for the key of
/// the listed entry, where the entry has a readable type.
pub proof fn law_listed_can_be_looked_up(
    entry: MergedEntryView,
    again: GetBalanceRequestView,
    parsed_again: Option<TypeTree>,
)
    requires
        entry.owner.len() == 32,
        readable(entry.type_),
        row_answer(entry_row(entry)) matches Ok(balance) && balance.owner == Some(again.owner)
            && balance.coin_type == Some(again.coin_type),
        reads_back(again.coin_type, parsed_again),
    ensures
        key_answer(again, parsed_again) == Ok::<KeyView, ErrorView>(
            KeyView { owner: entry.owner, type_: entry.type_ },
        ),
{
    law_shown_key_is_asked_for(
        again,
        parsed_again,
        KeyView { owner: entry.owner, type_: entry.type_ },
    );
}

/// A listing is of the address that the owner names: it is accepted exactly where the owner names
/// one, and the bytes listed write the number that the digits write. Other owners are refused.
pub proof fn law_listing_is_of_owner(text: Seq<char>)
    ensures
        list_step(text) is Ok <==> names_address(text),
        list_step(text) matches Ok(owner) ==> {
            &&& owner.len() == 32
            &&& byte_number(owner) == hex_number(text.skip(2))
        },
        text.len() == 0 ==> list_step(text) == Err::<Seq<u8>, RpcErrorView>(
            RpcErrorView::Request(ErrorView::MissingOwner),
        ),
        text.len() > 0 && !names_address(text) ==> {
            &&& list_step(text) is Err
            &&& list_step(text)->Err_0 is Request
            &&& owner_answer(text) == Err::<Seq<u8>, ErrorView>(list_step(text)->Err_0->Request_0)
        },
{
    law_requested_owner(text);
}

/// Listing the text of an address lists that address.
pub proof fn law_listing_of_shown_owner(address: Seq<u8>)
    requires
        address.len() == 32,
    ensures
        list_step(address_text(address)) == Ok::<Seq<u8>, RpcErrorView>(address),
{
    law_owner_round_trip(address);
    law_requested_owner(address_text(address));
    law_address_text(address);
}

/// A page shows a run of the merged entries, from the first one where it is from the front and up
/// to the last one where it is from the back. Each row is its entry, with both balances held and
/// with the token.
pub proof fn law_page_shows_entries(
    page: Page,
    coins: CoinPageView,
    addresses: AddressPageView,
    i: int,
)
    requires
        0 <= i < merged_page(page, coins, addresses).rows.len(),
    ensures
        ({
            let entries = merged(coins.results, addresses.results);
            let rows = merged_page(page, coins, addresses).rows;
            let entry = entries[if page.from_front {
                i
            } else {
                entries.len() - rows.len() + i
            }];
            &&& rows.len() == entries.len() || (entries.len() > page.limit && rows.len()
                == page.limit)
            &&& rows[i].owner == entry.owner
            &&& rows[i].type_ == entry.type_
            &&& rows[i].coin == Ok::<Option<i128>, Seq<char>>(Some(entry.coin_balance))
            &&& rows[i].address == Ok::<Option<u128>, Seq<char>>(Some(entry.address_balance))
            &&& rows[i].token == Some(entry.token)
        }),
{
}

/// How many entries a page shows, and what it says lies before and after it: what either index
/// says, and what it cuts off itself.
pub proof fn law_page_bounds(page: Page, coins: CoinPageView, addresses: AddressPageView)
    ensures
        ({
            let count = merged(coins.results, addresses.results).len();
            let shown = merged_page(page, coins, addresses);
            &&& count <= page.limit ==> shown.rows.len() == count
            &&& count > page.limit ==> shown.rows.len() == page.limit
            &&& shown.has_prev <==> coins.has_prev || addresses.has_prev || (!page.from_front
                && shown.rows.len() < count)
            &&& shown.has_next <==> coins.has_next || addresses.has_next || (page.from_front
                && shown.rows.len() < count)
        }),
{
}

/// A page is answered exactly where each of its rows is, with one balance to a row, in order, and
/// with what it says lies before and after it. Otherwise it fails as its first row without an
/// answer does.
pub proof fn law_list_answered(page: MergedPageView)
    ensures
        ({
            let answer = list_response(page, rows_answer(page.rows));
            &&& answer is Ok <==> forall|i: int|
                0 <= i < page.rows.len() ==> row_answer(#[trigger] page.rows[i]) is Ok
            &&& answer matches Ok(response) ==> {
                &&& response.has_previous_page == Some(page.has_prev)
                &&& response.has_next_page == Some(page.has_next)
                &&& response.balances.len() == page.rows.len()
                &&& forall|i: int|
                    0 <= i < page.rows.len() ==> row_answer(page.rows[i]) == Ok::<
                        BalanceView,
                        InternalErrorView,
                    >(#[trigger] response.balances[i])
            }
            &&& answer is Err ==> exists|i: int|
                {
                    &&& 0 <= i < page.rows.len()
                    &&& forall|j: int| 0 <= j < i ==> row_answer(#[trigger] page.rows[j]) is Ok
                    &&& row_answer(#[trigger] page.rows[i]) is Err
                    &&& answer->Err_0 == RpcErrorView::Internal(row_answer(page.rows[i])->Err_0)
                }
        }),
{
    law_rows_answered(page.rows);
    if rows_answer(page.rows) is Err {
        let error = rows_answer(page.rows)->Err_0;
        law_first_failure(page.rows, error);
        let i = choose|i: int|
            {
                &&& 0 <= i < page.rows.len()
                &&& forall|j: int| 0 <= j < i ==> row_answer(#[trigger] page.rows[j]) is Ok
                &&& row_answer(#[trigger] page.rows[i]) == Err::<BalanceView, InternalErrorView>(
                    error,
                )
            };
        assert(row_answer(page.rows[i]) is Err);
    }
}

/// Pages show their entries, in order, and their flags.
pub proof fn law_pages_show_their_parts(
    coins: CoinPage,
    addresses: AddressPage,
    rows: MergedPage,
    i: int,
)
    ensures
        coins@.results.len() == coins.results@.len(),
        0 <= i < coins.results@.len() ==> coins@.results[i] == coins.results@[i]@,
        coins@.has_prev == coins.has_prev,
        coins@.has_next == coins.has_next,
        addresses@.results.len() == addresses.results@.len(),
        0 <= i < addresses.results@.len() ==> addresses@.results[i] == addresses.results@[i]@,
        addresses@.has_prev == addresses.has_prev,
        addresses@.has_next == addresses.has_next,
        rows@.rows.len() == rows.rows@.len(),
        0 <= i < rows.rows@.len() ==> rows@.rows[i] == rows.rows@[i]@,
        rows@.has_prev == rows.has_prev,
        rows@.has_next == rows.has_next,
{
}

/// A listing keeps exactly the coin balances above zero, so a merged entry of an ascending listing
/// shows a coin balance exactly where the coin index keeps one of its type.
pub proof fn law_listed_above_zero(
    balance: i128,
    coins: Seq<CoinEntryView>,
    addresses: Seq<AddressEntryView>,
    k: int,
)
    requires
        coins_ascend(coins),
        addresses_ascend(addresses),
        forall|i: int| 0 <= i < coins.len() ==> is_listed((#[trigger] coins[i]).balance),
        0 <= k < merged(coins, addresses).len(),
    ensures
        is_listed(balance) <==> balance > 0,
        merged(coins, addresses)[k].coin_balance >= 0,
        merged(coins, addresses)[k].coin_balance > 0 <==> exists|i: int|
            0 <= i < coins.len() && (#[trigger] coins[i]).key.type_ == merged(
                coins,
                addresses,
            )[k].type_,
{
    let all = merged(coins, addresses);
    let type_ = all[k].type_;
    law_merge_types(coins, addresses, type_);
    assert(has_entry(all, type_));
    if has_coin(coins, type_) {
        let i = choose|i: int| 0 <= i < coins.len() && (#[trigger] coins[i]).key.type_ == type_;
        law_coin_is_merged(coins, addresses, i, k);
    } else {
        let j = choose|j: int|
            0 <= j < addresses.len() && (#[trigger] addresses[j]).key.type_ == type_;
        law_address_is_merged(coins, addresses, j, k);
    }
}

} // verus!
