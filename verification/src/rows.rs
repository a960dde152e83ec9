//! From stored balances to the balances of a response.
use vstd::prelude::*;

use crate::address::{address_text, SuiAddress};
use crate::error::{agrees, InternalError, InternalErrorView};
use crate::messages::{balance_views, Balance, BalanceView};
use crate::type_tag::{type_text, TypeTag, TypeTree};

verus! {

/// One balance as the two indices hold it. A read is absent where the index holds nothing, and
/// gives the reason where what it holds could not be deserialized.
#[derive(Debug)]
pub struct Row {
    pub owner: SuiAddress,
    pub type_: TypeTag,
    pub coin: Result<Option<i128>, String>,
    pub address: Result<Option<u128>, String>,
    pub token: Option<Vec<u8>>,
}

/// The mathematical view of a `Row`.
pub struct RowView {
    pub owner: Seq<u8>,
    pub type_: TypeTree,
    pub coin: Result<Option<i128>, Seq<char>>,
    pub address: Result<Option<u128>, Seq<char>>,
    pub token: Option<Seq<u8>>,
}

/// What was read from the coin index, with the reason of a failure as text.
pub open spec fn coin_read(read: Result<Option<i128>, String>) -> Result<Option<i128>, Seq<char>> {
    match read {
        Ok(balance) => Ok(balance),
        Err(cause) => Err(cause@),
    }
}

/// What was read from the address index, with the reason of a failure as text.
pub open spec fn address_read(read: Result<Option<u128>, String>) -> Result<
    Option<u128>,
    Seq<char>,
> {
    match read {
        Ok(balance) => Ok(balance),
        Err(cause) => Err(cause@),
    }
}

impl View for Row {
    type V = RowView;

    open spec fn view(&self) -> RowView {
        RowView {
            owner: self.owner@,
            type_: self.type_@,
            coin: coin_read(self.coin),
            address: address_read(self.address),
            token: match self.token {
                Some(token) => Some(token@),
                None => None,
            },
        }
    }
}

/// What `rows` hold, in order.
pub open spec fn row_views(rows: Seq<Row>) -> Seq<RowView> {
    rows.map_values(|row: Row| row@)
}

/// The coin balance to answer with: zero where none is held. It must be a `u64`.
pub open spec fn coin_amount(type_: TypeTree, read: Result<Option<i128>, Seq<char>>) -> Result<
    u64,
    InternalErrorView,
> {
    match read {
        Err(cause) => Err(InternalErrorView::UndecodedBalance(cause)),
        Ok(held) => {
            let balance = match held {
                Some(balance) => balance,
                None => 0,
            };
            if 0 <= balance <= u64::MAX {
                Ok(balance as u64)
            } else {
                Err(InternalErrorView::BadBalance { coin_type: type_text(type_, true), balance })
            }
        },
    }
}

/// The address balance to answer with: zero where none is held. It must be a `u64`.
pub open spec fn address_amount(type_: TypeTree, read: Result<Option<u128>, Seq<char>>) -> Result<
    u64,
    InternalErrorView,
> {
    match read {
        Err(cause) => Err(InternalErrorView::UndecodedAddressBalance(cause)),
        Ok(held) => {
            let balance = match held {
                Some(balance) => balance,
                None => 0,
            };
            if balance <= u64::MAX {
                Ok(balance as u64)
            } else {
                Err(
                    InternalErrorView::BadAddressBalance {
                        coin_type: type_text(type_, true),
                        address_balance: balance,
                    },
                )
            }
        },
    }
}

/// The balance that a response shows for the two amounts.
pub open spec fn shown_balance(
    owner: Seq<u8>,
    type_: TypeTree,
    coin: u64,
    address: u64,
    token: Option<Seq<u8>>,
) -> BalanceView {
    BalanceView {
        owner: Some(address_text(owner)),
        coin_type: Some(type_text(type_, true)),
        total_balance: Some((address + coin) as u64),
        address_balance: Some(address),
        coin_balance: Some(coin),
        page_token: token,
    }
}

/// The balance that a row is answered with. The coin balance is looked at first.
pub open spec fn row_answer(row: RowView) -> Result<BalanceView, InternalErrorView> {
    match coin_amount(row.type_, row.coin) {
        Err(error) => Err(error),
        Ok(coin) => match address_amount(row.type_, row.address) {
            Err(error) => Err(error),
            Ok(address) => Ok(shown_balance(row.owner, row.type_, coin, address, row.token)),
        },
    }
}

/// The balances that rows are answered with, in order, or the failure of the first row that has
/// no answer.
pub open spec fn rows_answer(rows: Seq<RowView>) -> Result<Seq<BalanceView>, InternalErrorView>
    decreases rows.len(),
{
    if rows.len() == 0 {
        Ok(Seq::empty())
    } else {
        match rows_answer(rows.drop_last()) {
            Err(error) => Err(error),
            Ok(balances) => match row_answer(rows.last()) {
                Err(error) => Err(error),
                Ok(balance) => Ok(balances.push(balance)),
            },
        }
    }
}

/// The total of a row is a `u64`, where the row has an answer.
pub open spec fn row_total_fits(row: RowView) -> bool {
    match (coin_amount(row.type_, row.coin), address_amount(row.type_, row.address)) {
        (Ok(coin), Ok(address)) => coin + address <= u64::MAX,
        _ => true,
    }
}

/// The totals of all rows up to the first without an answer are `u64`.
pub open spec fn totals_fit(rows: Seq<RowView>) -> bool {
    forall|i: int|
        0 <= i < rows.len() && rows_answer(rows.take(i)) is Ok ==> row_total_fits(
            #[trigger] rows[i],
        )
}

/// The coin balance to answer with.
pub fn coin_balance(type_: &TypeTag, read: &Result<Option<i128>, String>) -> (amount: Result<
    u64,
    InternalError,
>)
    ensures
        agrees(amount, coin_amount(type_@, coin_read(*read))),
{
    match read {
        Err(cause) => Err(InternalError::UndecodedBalance(cause.clone())),
        Ok(held) => {
            let balance: i128 = match held {
                Some(balance) => *balance,
                None => 0,
            };
            if 0 <= balance && balance <= u64::MAX as i128 {
                Ok(balance as u64)
            } else {
                Err(
                    InternalError::BadBalance {
                        coin_type: type_.to_canonical_string(true),
                        balance,
                    },
                )
            }
        },
    }
}

/// The address balance to answer with.
pub fn address_balance(type_: &TypeTag, read: &Result<Option<u128>, String>) -> (amount: Result<
    u64,
    InternalError,
>)
    ensures
        agrees(amount, address_amount(type_@, address_read(*read))),
{
    match read {
        Err(cause) => Err(InternalError::UndecodedAddressBalance(cause.clone())),
        Ok(held) => {
            let balance: u128 = match held {
                Some(balance) => *balance,
                None => 0,
            };
            if balance <= u64::MAX as u128 {
                Ok(balance as u64)
            } else {
                Err(
                    InternalError::BadAddressBalance {
                        coin_type: type_.to_canonical_string(true),
                        address_balance: balance,
                    },
                )
            }
        },
    }
}

/// The balance that a response shows for the two amounts.
pub fn balance_of(
    owner: &SuiAddress,
    type_: &TypeTag,
    coin: u64,
    address: u64,
    token: Option<Vec<u8>>,
) -> (balance: Balance)
    requires
        coin + address <= u64::MAX,
    ensures
        balance@ == shown_balance(
            owner@,
            type_@,
            coin,
            address,
            match token {
                Some(token) => Some(token@),
                None => None,
            },
        ),
{
    Balance {
        owner: Some(owner.to_string()),
        coin_type: Some(type_.to_canonical_string(true)),
        total_balance: Some(address + coin),
        address_balance: Some(address),
        coin_balance: Some(coin),
        page_token: token,
    }
}

/// Where the rows before a row have answers and it has none, all rows fail as it does.
proof fn lemma_failed_row(rows: Seq<RowView>, i: int)
    requires
        0 <= i < rows.len(),
        rows_answer(rows.take(i)) is Ok,
        row_answer(rows[i]) is Err,
    ensures
        rows_answer(rows) == Err::<Seq<BalanceView>, InternalErrorView>(row_answer(rows[i])->Err_0),
    decreases rows.len(),
{
    if i == rows.len() - 1 {
        assert(rows.take(i) =~= rows.drop_last());
    } else {
        assert(rows.drop_last().take(i) =~= rows.take(i));
        lemma_failed_row(rows.drop_last(), i);
    }
}

/// Answers rows with balances, in order.
pub fn balances_of(rows: Vec<Row>) -> (balances: Result<Vec<Balance>, InternalError>)
    requires
        totals_fit(row_views(rows@)),
    ensures
        match (balances, rows_answer(row_views(rows@))) {
            (Ok(list), Ok(expected)) => balance_views(list@) == expected,
            (Err(error), Err(expected)) => error@ == expected,
            _ => false,
        },
{
    let ghost views = row_views(rows@);
    let mut balances: Vec<Balance> = Vec::new();
    assert(views.take(0) =~= Seq::empty());
    assert(balance_views(balances@) =~= Seq::empty());
    for row in it: rows
        invariant
            it.seq() == rows@,
            views == row_views(rows@),
            totals_fit(views),
            rows_answer(views.take(it.index() as int)) == Ok::<Seq<BalanceView>, InternalErrorView>(
                balance_views(balances@),
            ),
    {
        let ghost i = it.index() as int;
        assert(views[i] == row@);
        assert(views.take(i + 1).drop_last() =~= views.take(i));
        let coin: u64 = match coin_balance(&row.type_, &row.coin) {
            Ok(coin) => coin,
            Err(error) => {
                proof {
                    lemma_failed_row(views, i);
                }
                return Err(error);
            },
        };
        let address: u64 = match address_balance(&row.type_, &row.address) {
            Ok(address) => address,
            Err(error) => {
                proof {
                    lemma_failed_row(views, i);
                }
                return Err(error);
            },
        };
        assert(row_total_fits(views[i]));
        let ghost before = balances@;
        balances.push(balance_of(&row.owner, &row.type_, coin, address, row.token));
        assert(balance_views(balances@) =~= balance_views(before).push(
            row_answer(views[i])->Ok_0,
        ));
    }
    assert(views.take(views.len() as int) =~= views);
    Ok(balances)
}

/// After a row without an answer, no row counts.
proof fn lemma_after_failure(rows: Seq<RowView>, i: int, j: int)
    requires
        0 <= i < j <= rows.len(),
        row_answer(rows[i]) is Err,
    ensures
        rows_answer(rows.take(j)) is Err,
    decreases j,
{
    let front = rows.take(j);
    assert(front.drop_last() =~= rows.take(j - 1));
    if i < j - 1 {
        lemma_after_failure(rows, i, j - 1);
    }
}

/// Whether all rows up to the first without an answer have totals that a response can hold.
pub fn check_totals(rows: &Vec<Row>) -> (fit: bool)
    ensures
        fit == totals_fit(row_views(rows@)),
{
    let ghost views = row_views(rows@);
    let mut i: usize = 0;
    assert(views.take(0) =~= Seq::empty());
    while i < rows.len()
        invariant
            views == row_views(rows@),
            i <= rows@.len(),
            rows_answer(views.take(i as int)) is Ok,
            forall|j: int| 0 <= j < i ==> row_total_fits(#[trigger] views[j]),
        decreases rows@.len() - i,
    {
        let row: &Row = &rows[i];
        assert(views[i as int] == row@);
        assert(views.take(i + 1).drop_last() =~= views.take(i as int));
        match (coin_balance(&row.type_, &row.coin), address_balance(&row.type_, &row.address)) {
            (Ok(coin), Ok(address)) => {
                if coin > u64::MAX - address {
                    assert(!row_total_fits(views[i as int]));
                    return false;
                }
            },
            _ => {
                assert forall|j: int|
                    0 <= j < views.len() && rows_answer(views.take(j)) is Ok implies row_total_fits(
                    #[trigger] views[j],
                ) by {
                    if j > i {
                        lemma_after_failure(views, i as int, j);
                    }
                }
                return true;
            },
        }
        i = i + 1;
    }
    true
}

/// All rows are answered exactly where each of them is, one balance to a row, in order.
pub proof fn law_rows_answered(rows: Seq<RowView>)
    ensures
        rows_answer(rows) is Ok <==> forall|i: int|
            0 <= i < rows.len() ==> row_answer(#[trigger] rows[i]) is Ok,
        rows_answer(rows) matches Ok(balances) ==> {
            &&& balances.len() == rows.len()
            &&& forall|i: int|
                0 <= i < rows.len() ==> row_answer(rows[i]) == Ok::<
                    BalanceView,
                    InternalErrorView,
                >(#[trigger] balances[i])
        },
    decreases rows.len(),
{
    if rows.len() > 0 {
        let front = rows.drop_last();
        law_rows_answered(front);
        assert(rows.last() == rows[rows.len() - 1]);
        if rows_answer(rows) is Ok {
            assert forall|i: int| 0 <= i < rows.len() implies row_answer(
                #[trigger] rows[i],
            ) is Ok by {
                if i < front.len() {
                    assert(front[i] == rows[i]);
                }
            }
        } else if rows_answer(front) is Err {
            let i = choose|i: int| 0 <= i < front.len() && row_answer(#[trigger] front[i]) is Err;
            assert(front[i] == rows[i]);
        }
    }
}

/// Rows that are not all answered fail as the first row without an answer does.
pub proof fn law_first_failure(rows: Seq<RowView>, error: InternalErrorView)
    ensures
        rows_answer(rows) == Err::<Seq<BalanceView>, InternalErrorView>(error) <==> exists|i: int|
            {
                &&& 0 <= i < rows.len()
                &&& forall|j: int| 0 <= j < i ==> row_answer(#[trigger] rows[j]) is Ok
                &&& row_answer(#[trigger] rows[i]) == Err::<BalanceView, InternalErrorView>(error)
            },
    decreases rows.len(),
{
    if rows.len() > 0 {
        let front = rows.drop_last();
        let last = rows.len() - 1;
        law_first_failure(front, error);
        law_rows_answered(front);
        assert forall|i: int| 0 <= i < front.len() implies #[trigger] front[i] == rows[i] by {}
        if rows_answer(front) == Err::<Seq<BalanceView>, InternalErrorView>(error) {
            let i = choose|i: int|
                {
                    &&& 0 <= i < front.len()
                    &&& forall|j: int| 0 <= j < i ==> row_answer(#[trigger] front[j]) is Ok
                    &&& row_answer(#[trigger] front[i]) == Err::<BalanceView, InternalErrorView>(
                        error,
                    )
                };
            assert(row_answer(rows[i]) == Err::<BalanceView, InternalErrorView>(error));
            assert forall|j: int| 0 <= j < i implies row_answer(#[trigger] rows[j]) is Ok by {
                assert(front[j] == rows[j]);
            }
        } else if rows_answer(front) is Ok {
            assert forall|j: int| 0 <= j < last implies row_answer(#[trigger] rows[j]) is Ok by {
                assert(front[j] == rows[j]);
            }
            assert(rows.last() == rows[last]);
        } else {
            assert forall|i: int|
                {
                    &&& 0 <= i < rows.len()
                    &&& forall|j: int| 0 <= j < i ==> row_answer(#[trigger] rows[j]) is Ok
                    &&& row_answer(#[trigger] rows[i]) == Err::<BalanceView, InternalErrorView>(
                        error,
                    )
                } implies false by {
                if i < last {
                    assert(front[i] == rows[i]);
                    assert forall|j: int| 0 <= j < i implies row_answer(
                        #[trigger] front[j],
                    ) is Ok by {
                        assert(front[j] == rows[j]);
                    }
                } else {
                    assert forall|j: int| 0 <= j < front.len() implies row_answer(
                        #[trigger] front[j],
                    ) is Ok by {
                        assert(front[j] == rows[j]);
                    }
                }
            }
        }
    }
}

/// The total of an answered row is the sum of its two balances.
pub proof fn law_total_is_sum(row: RowView)
    requires
        row_total_fits(row),
    ensures
        row_answer(row) matches Ok(balance) ==> {
            &&& balance.coin_balance is Some
            &&& balance.address_balance is Some
            &&& balance.total_balance is Some
            &&& balance.total_balance->0 == balance.coin_balance->0 + balance.address_balance->0
        },
{
}

/// A balance that is not held is answered as a balance of zero.
pub proof fn law_absent_is_zero(row: RowView)
    ensures
        row_answer(RowView { coin: Ok(None), ..row }) == row_answer(
            RowView { coin: Ok(Some(0)), ..row },
        ),
        row_answer(RowView { address: Ok(None), ..row }) == row_answer(
            RowView { address: Ok(Some(0)), ..row },
        ),
{
}

/// The coin balance that is held: zero where there is none.
pub open spec fn coin_held(read: Result<Option<i128>, Seq<char>>) -> int {
    match read {
        Ok(Some(balance)) => balance as int,
        _ => 0,
    }
}

/// The address balance that is held: zero where there is none.
pub open spec fn address_held(read: Result<Option<u128>, Seq<char>>) -> int {
    match read {
        Ok(Some(balance)) => balance as int,
        _ => 0,
    }
}

/// A row is answered exactly where both reads succeeded and both balances held are in the range of
/// a response. It then shows what is held, to the unit, of its owner and type, with its token.
pub proof fn law_row_shows_what_is_held(row: RowView)
    ensures
        row_answer(row) is Ok <==> {
            &&& row.coin is Ok
            &&& row.address is Ok
            &&& 0 <= coin_held(row.coin) < 0x1_0000_0000_0000_0000
            &&& 0 <= address_held(row.address) < 0x1_0000_0000_0000_0000
        },
        row_answer(row) matches Ok(balance) ==> {
            &&& balance.coin_balance matches Some(coin) && coin as int == coin_held(row.coin)
            &&& balance.address_balance matches Some(address) && address as int == address_held(
                row.address,
            )
            &&& coin_held(row.coin) + address_held(row.address) < 0x1_0000_0000_0000_0000 ==> {
                balance.total_balance matches Some(total) && total as int == coin_held(row.coin)
                    + address_held(row.address)
            }
            &&& balance.owner == Some(address_text(row.owner))
            &&& balance.coin_type == Some(type_text(row.type_, true))
            &&& balance.page_token == row.token
        },
{
}

/// Why a row has no answer: its coin balance comes first, and for either balance the read comes
/// before its range. A balance out of range is reported with its type and as it is held.
pub proof fn law_row_fails(row: RowView)
    ensures
        ({
            let answer = row_answer(row);
            let coin_type = type_text(row.type_, true);
            let coin_fits = 0 <= coin_held(row.coin) < 0x1_0000_0000_0000_0000;
            &&& row.coin matches Err(cause) ==> answer == Err::<BalanceView, InternalErrorView>(
                InternalErrorView::UndecodedBalance(cause),
            )
            &&& row.coin is Ok && !coin_fits ==> {
                &&& answer matches Err(InternalErrorView::BadBalance { coin_type: shown, balance })
                &&& shown == coin_type
                &&& balance as int == coin_held(row.coin)
            }
            &&& row.coin is Ok && coin_fits ==> {
                &&& row.address matches Err(cause) ==> answer == Err::<
                    BalanceView,
                    InternalErrorView,
                >(InternalErrorView::UndecodedAddressBalance(cause))
                &&& row.address is Ok && address_held(row.address) >= 0x1_0000_0000_0000_0000 ==> {
                    &&& answer matches Err(
                        InternalErrorView::BadAddressBalance { coin_type: shown, address_balance },
                    )
                    &&& shown == coin_type
                    &&& address_balance as int == address_held(row.address)
                }
            }
        }),
{
}

/// Totals fit exactly where, of each row that is answered and comes before any row that is not, the
/// two balances held come to less than the range of a response.
pub proof fn law_totals_fit(rows: Seq<RowView>)
    ensures
        totals_fit(rows) <==> forall|i: int|
            0 <= i < rows.len() && (forall|j: int|
                0 <= j <= i ==> row_answer(#[trigger] rows[j]) is Ok) ==> coin_held(
                (#[trigger] rows[i]).coin,
            ) + address_held(rows[i].address) < 0x1_0000_0000_0000_0000,
{
    assert forall|i: int| 0 <= i < rows.len() implies (rows_answer(rows.take(i)) is Ok <==> forall|
        j: int,
    | 0 <= j < i ==> row_answer(#[trigger] rows[j]) is Ok) by {
        law_rows_answered(rows.take(i));
        assert forall|j: int| 0 <= j < i implies rows.take(i)[j] == #[trigger] rows[j] by {}
        if forall|j: int| 0 <= j < i ==> row_answer(#[trigger] rows[j]) is Ok {
            assert forall|j: int| 0 <= j < i implies row_answer(
                #[trigger] rows.take(i)[j],
            ) is Ok by {
                assert(rows.take(i)[j] == rows[j]);
            }
        }
        if rows_answer(rows.take(i)) is Ok {
            assert forall|j: int| 0 <= j < i implies row_answer(#[trigger] rows[j]) is Ok by {
                assert(rows.take(i)[j] == rows[j]);
                assert(row_answer(rows.take(i)[j]) is Ok);
            }
        }
    }
    assert forall|i: int| 0 <= i < rows.len() implies (row_total_fits(#[trigger] rows[i]) <==> (
    row_answer(rows[i]) is Ok ==> coin_held(rows[i].coin) + address_held(rows[i].address)
        < 0x1_0000_0000_0000_0000)) by {}
    if totals_fit(rows) {
        assert forall|i: int|
            0 <= i < rows.len() && (forall|j: int|
                0 <= j <= i ==> row_answer(#[trigger] rows[j]) is Ok) implies coin_held(
            (#[trigger] rows[i]).coin,
        ) + address_held(rows[i].address) < 0x1_0000_0000_0000_0000 by {
            assert(row_answer(rows[i]) is Ok);
            assert(row_total_fits(rows[i]));
        }
    }
    if forall|i: int|
        0 <= i < rows.len() && (forall|j: int|
            0 <= j <= i ==> row_answer(#[trigger] rows[j]) is Ok) ==> coin_held(
            (#[trigger] rows[i]).coin,
        ) + address_held(rows[i].address) < 0x1_0000_0000_0000_0000 {
        assert forall|i: int| 0 <= i < rows.len() && rows_answer(rows.take(i)) is Ok implies
            row_total_fits(#[trigger] rows[i]) by {
            if row_answer(rows[i]) is Ok {
                assert forall|j: int| 0 <= j <= i implies row_answer(#[trigger] rows[j]) is Ok by {}
            }
        }
    }
}

/// Rows show their parts, in order.
pub proof fn law_rows_show_their_parts(rows: Seq<Row>, i: int)
    requires
        0 <= i < rows.len(),
    ensures
        row_views(rows).len() == rows.len(),
        ({
            let row = rows[i];
            let view = row_views(rows)[i];
            &&& view == row@
            &&& view.owner == row.owner.bytes@
            &&& view.type_ == row.type_.tree()
            &&& row.coin matches Ok(held) ==> view.coin == Ok::<Option<i128>, Seq<char>>(held)
            &&& row.coin matches Err(cause) ==> view.coin == Err::<Option<i128>, Seq<char>>(cause@)
            &&& row.address matches Ok(held) ==> view.address == Ok::<Option<u128>, Seq<char>>(held)
            &&& row.address matches Err(cause) ==> view.address == Err::<Option<u128>, Seq<char>>(
                cause@,
            )
            &&& row.token matches Some(token) ==> view.token == Some(token@)
            &&& row.token is None ==> view.token is None
        }),
{
}

} // verus!
