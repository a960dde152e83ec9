//! Looking up several balances at once.
use vstd::prelude::*;

use crate::address::{byte_number, hex_number, law_address_text, names_address};
use crate::error::{agrees, Error, ErrorView, InternalErrorView, RpcError, RpcErrorView};
use crate::keys::{
    key_answer, key_with_type, law_request_has_key, optional_tree, AddressKey, CoinKey, KeyView,
};
use crate::messages::{
    request_views, BalanceView, BatchGetBalancesRequest, BatchGetBalancesResponse,
    GetBalanceRequest, GetBalanceRequestView,
};
use crate::point::{point_answer, point_row, row_response};
use crate::rows::{
    address_held, address_read, balances_of, coin_held, coin_read, law_first_failure,
    law_row_shows_what_is_held, law_rows_answered, row_answer, row_views, rows_answer, totals_fit,
    Row, RowView,
};
use crate::type_tag::{read_type, reads_back, type_text, TypeTag, TypeTree};

verus! {

/// A batch that needs the coin balances and the address balances at its keys.
#[derive(Debug, PartialEq, Eq)]
pub struct BatchLookup {
    /// The keys, in the order of the batch.
    pub keys: Vec<CoinKey>,
}

/// What `keys` show, in order.
pub open spec fn key_views(keys: Seq<CoinKey>) -> Seq<KeyView> {
    keys.map_values(|key: CoinKey| key@)
}

/// What address keys show, in order.
pub open spec fn address_key_views(keys: Seq<AddressKey>) -> Seq<KeyView> {
    keys.map_values(|key: AddressKey| key@)
}

impl View for BatchLookup {
    type V = Seq<KeyView>;

    open spec fn view(&self) -> Seq<KeyView> {
        key_views(self.keys@)
    }
}

/// The keys that requests ask for, in order, or how the first bad request is refused. The coin
/// types of the requests read as `parsed`.
pub open spec fn keys_answer(
    requests: Seq<GetBalanceRequestView>,
    parsed: Seq<Option<TypeTree>>,
) -> Result<Seq<KeyView>, ErrorView>
    decreases requests.len(),
{
    if requests.len() == 0 {
        Ok(Seq::empty())
    } else {
        let last = requests.len() - 1;
        match keys_answer(requests.take(last), parsed) {
            Err(error) => Err(error),
            Ok(keys) => match key_answer(requests[last], parsed[last]) {
                Err(error) => Err(error),
                Ok(key) => Ok(keys.push(key)),
            },
        }
    }
}

/// The keys of a batch whose coin types read as `parsed`. A batch over the maximum is refused
/// before any request is looked at.
pub open spec fn batch_step(
    requests: Seq<GetBalanceRequestView>,
    max_batch_size: u32,
    parsed: Seq<Option<TypeTree>>,
) -> Result<Seq<KeyView>, RpcErrorView> {
    if requests.len() > max_batch_size {
        Err(
            RpcErrorView::Request(
                ErrorView::TooManyRequests(requests.len() as usize, max_batch_size),
            ),
        )
    } else {
        match keys_answer(requests, parsed) {
            Ok(keys) => Ok(keys),
            Err(error) => Err(RpcErrorView::Request(error)),
        }
    }
}

/// What the coin types of requests read as.
pub open spec fn parsed_types(requests: Seq<GetBalanceRequestView>) -> Seq<Option<TypeTree>> {
    requests.map_values(|request: GetBalanceRequestView| read_type(request.coin_type))
}

/// The trees of types that may be absent.
pub open spec fn optional_trees(parsed: Seq<Option<TypeTag>>) -> Seq<Option<TypeTree>> {
    parsed.map_values(|tag: Option<TypeTag>| optional_tree(tag))
}

/// Coin reads with the reasons of failures as text.
pub open spec fn coin_reads(reads: Seq<Result<Option<i128>, String>>) -> Seq<
    Result<Option<i128>, Seq<char>>,
> {
    reads.map_values(|read: Result<Option<i128>, String>| coin_read(read))
}

/// Address reads with the reasons of failures as text.
pub open spec fn address_reads(reads: Seq<Result<Option<u128>, String>>) -> Seq<
    Result<Option<u128>, Seq<char>>,
> {
    reads.map_values(|read: Result<Option<u128>, String>| address_read(read))
}

/// The least of three lengths.
pub open spec fn least(a: nat, b: nat, c: nat) -> nat {
    if a <= b && a <= c {
        a
    } else if b <= c {
        b
    } else {
        c
    }
}

/// Keys and reads side by side, as far as all of them go.
pub open spec fn batch_rows(
    keys: Seq<KeyView>,
    coins: Seq<Result<Option<i128>, Seq<char>>>,
    addresses: Seq<Result<Option<u128>, Seq<char>>>,
) -> Seq<RowView> {
    Seq::new(
        least(keys.len(), coins.len(), addresses.len()),
        |i: int|
            RowView {
                owner: keys[i].owner,
                type_: keys[i].type_,
                coin: coins[i],
                address: addresses[i],
                token: None,
            },
    )
}

/// Balances as the answer to a batch.
pub open spec fn batch_response(answer: Result<Seq<BalanceView>, InternalErrorView>) -> Result<
    Seq<BalanceView>,
    RpcErrorView,
> {
    match answer {
        Ok(balances) => Ok(balances),
        Err(error) => Err(RpcErrorView::Internal(error)),
    }
}

/// Where the requests before a request have keys and it is refused, all are refused as it is.
proof fn lemma_refused_request(
    requests: Seq<GetBalanceRequestView>,
    parsed: Seq<Option<TypeTree>>,
    i: int,
)
    requires
        0 <= i < requests.len(),
        keys_answer(requests.take(i), parsed) is Ok,
        key_answer(requests[i], parsed[i]) is Err,
    ensures
        keys_answer(requests, parsed) == Err::<Seq<KeyView>, ErrorView>(
            key_answer(requests[i], parsed[i])->Err_0,
        ),
    decreases requests.len(),
{
    let last = requests.len() - 1;
    if i < last {
        assert(requests.take(last).take(i) =~= requests.take(i));
        lemma_refused_request(requests.take(last), parsed, i);
    }
}

/// Starts the lookup of a batch of balances, given what the coin types of its requests read as.
pub fn batch_with_types(
    request: &BatchGetBalancesRequest,
    max_batch_size: u32,
    parsed: Vec<Option<TypeTag>>,
) -> (lookup: Result<BatchLookup, RpcError>)
    requires
        parsed@.len() == request.requests@.len(),
    ensures
        agrees(
            lookup,
            batch_step(
                request_views(request.requests@),
                max_batch_size,
                optional_trees(parsed@),
            ),
        ),
{
    let requests: &Vec<GetBalanceRequest> = &request.requests;
    if requests.len() > max_batch_size as usize {
        return Err(RpcError::Request(Error::TooManyRequests(requests.len(), max_batch_size)));
    }
    let ghost views = request_views(requests@);
    let ghost trees = optional_trees(parsed@);
    let mut keys: Vec<CoinKey> = Vec::new();
    assert(views.take(0) =~= Seq::empty());
    assert(key_views(keys@) =~= Seq::empty());
    for type_ in it: parsed
        invariant
            it.seq() == parsed@,
            views == request_views(requests@),
            trees == optional_trees(parsed@),
            requests == request.requests,
            requests@.len() == parsed@.len(),
            requests@.len() <= max_batch_size,
            keys@.len() == it.index(),
            keys_answer(views.take(it.index() as int), trees) == Ok::<Seq<KeyView>, ErrorView>(
                key_views(keys@),
            ),
    {
        let i: usize = keys.len();
        assert(views.take(i + 1).take(i as int) =~= views.take(i as int));
        assert(trees[i as int] == optional_tree(type_));
        match key_with_type(&requests[i], type_) {
            Ok(key) => {
                let ghost before = keys@;
                keys.push(key);
                assert(key_views(keys@) =~= key_views(before).push(key@));
            },
            Err(error) => {
                proof {
                    lemma_refused_request(views, trees, i as int);
                }
                return Err(RpcError::Request(error));
            },
        }
    }
    assert(views.take(views.len() as int) =~= views);
    Ok(BatchLookup { keys })
}

/// Starts the lookup of a batch of balances.
pub fn batch_get_balances(request: &BatchGetBalancesRequest, max_batch_size: u32) -> (lookup: Result<
    BatchLookup,
    RpcError,
>)
    ensures
        ({
            let requests = request_views(request.requests@);
            &&& agrees(lookup, batch_step(requests, max_batch_size, parsed_types(requests)))
            &&& requests.len() <= max_batch_size ==> forall|i: int|
                0 <= i < requests.len() ==> reads_back(
                    (#[trigger] requests[i]).coin_type,
                    parsed_types(requests)[i],
                )
        }),
{
    let requests: &Vec<GetBalanceRequest> = &request.requests;
    if requests.len() > max_batch_size as usize {
        return Err(RpcError::Request(Error::TooManyRequests(requests.len(), max_batch_size)));
    }
    let ghost views = request_views(requests@);
    let ghost types = parsed_types(views);
    let mut parsed: Vec<Option<TypeTag>> = Vec::new();
    let mut i: usize = 0;
    while i < requests.len()
        invariant
            i <= requests@.len(),
            views == request_views(requests@),
            types == parsed_types(views),
            optional_trees(parsed@) == types.take(i as int),
            forall|j: int|
                0 <= j < i ==> reads_back((#[trigger] views[j]).coin_type, parsed_types(views)[j]),
        decreases requests@.len() - i,
    {
        let ghost before = parsed@;
        parsed.push(TypeTag::parse(requests[i].coin_type()));
        assert(optional_trees(parsed@) =~= optional_trees(before).push(types[i as int]));
        assert(types.take(i + 1) =~= types.take(i as int).push(types[i as int]));
        i = i + 1;
    }
    assert(types.take(i as int) =~= types);
    assert(parsed@.len() == optional_trees(parsed@).len());
    batch_with_types(request, max_batch_size, parsed)
}

impl BatchLookup {
    /// The keys of the address balances, in the order of the batch.
    pub fn address_keys(&self) -> (keys: Vec<AddressKey>)
        ensures
            address_key_views(keys@) == self@,
    {
        let mut keys: Vec<AddressKey> = Vec::new();
        let mut i: usize = 0;
        while i < self.keys.len()
            invariant
                i <= self.keys@.len(),
                address_key_views(keys@) == self@.take(i as int),
            decreases self.keys@.len() - i,
        {
            let ghost before = keys@;
            keys.push(self.keys[i].address_key());
            assert(address_key_views(keys@) =~= address_key_views(before).push(self@[i as int]));
            assert(self@.take(i + 1) =~= self@.take(i as int).push(self@[i as int]));
            i = i + 1;
        }
        assert(self@.take(i as int) =~= self@);
        keys
    }

    /// Puts the keys and what the indices hold at them side by side.
    pub fn rows(
        &self,
        coins: &Vec<Result<Option<i128>, String>>,
        addresses: &Vec<Result<Option<u128>, String>>,
    ) -> (rows: Vec<Row>)
        ensures
            row_views(rows@) == batch_rows(self@, coin_reads(coins@), address_reads(addresses@)),
    {
        let ghost all = batch_rows(self@, coin_reads(coins@), address_reads(addresses@));
        let mut rows: Vec<Row> = Vec::new();
        let mut i: usize = 0;
        while i < self.keys.len() && i < coins.len() && i < addresses.len()
            invariant
                all == batch_rows(self@, coin_reads(coins@), address_reads(addresses@)),
                i <= all.len(),
                row_views(rows@) == all.take(i as int),
            decreases self.keys@.len() - i,
        {
            let key: &CoinKey = &self.keys[i];
            let row: Row = Row {
                owner: key.owner,
                type_: key.type_.clone(),
                coin: match &coins[i] {
                    Ok(held) => Ok(*held),
                    Err(cause) => Err(cause.clone()),
                },
                address: match &addresses[i] {
                    Ok(held) => Ok(*held),
                    Err(cause) => Err(cause.clone()),
                },
                token: None,
            };
            let ghost before = rows@;
            rows.push(row);
            assert(row@ == all[i as int]);
            assert(row_views(rows@) =~= row_views(before).push(row@));
            assert(all.take(i + 1) =~= all.take(i as int).push(all[i as int]));
            i = i + 1;
        }
        assert(all.take(i as int) =~= all);
        rows
    }
}

/// Answers a batch with the balances of its rows.
pub fn answer_batch(rows: Vec<Row>) -> (response: Result<BatchGetBalancesResponse, RpcError>)
    requires
        totals_fit(row_views(rows@)),
    ensures
        agrees(response, batch_response(rows_answer(row_views(rows@)))),
{
    match balances_of(rows) {
        Ok(balances) => Ok(BatchGetBalancesResponse { balances }),
        Err(error) => Err(RpcError::Internal(error)),
    }
}

/// A batch has keys exactly where each of its requests has one, in order.
pub proof fn law_batch_keys(requests: Seq<GetBalanceRequestView>, parsed: Seq<Option<TypeTree>>)
    ensures
        keys_answer(requests, parsed) is Ok <==> forall|i: int|
            0 <= i < requests.len() ==> key_answer(#[trigger] requests[i], parsed[i]) is Ok,
        keys_answer(requests, parsed) matches Ok(keys) ==> {
            &&& keys.len() == requests.len()
            &&& forall|i: int|
                0 <= i < requests.len() ==> key_answer(requests[i], parsed[i]) == Ok::<
                    KeyView,
                    ErrorView,
                >(#[trigger] keys[i])
        },
    decreases requests.len(),
{
    if requests.len() > 0 {
        let last = requests.len() - 1;
        let front = requests.take(last);
        law_batch_keys(front, parsed);
        if keys_answer(requests, parsed) is Ok {
            assert forall|i: int| 0 <= i < requests.len() implies key_answer(
                #[trigger] requests[i],
                parsed[i],
            ) is Ok by {
                if i < last {
                    assert(front[i] == requests[i]);
                }
            }
        } else if keys_answer(front, parsed) is Err {
            let i = choose|i: int|
                0 <= i < front.len() && key_answer(#[trigger] front[i], parsed[i]) is Err;
            assert(front[i] == requests[i]);
        }
    }
}

/// The answer to a batch whose coin types read as `parsed`, given what was read from the indices at
/// its keys.
pub open spec fn batch_reads_answer(
    requests: Seq<GetBalanceRequestView>,
    max_batch_size: u32,
    parsed: Seq<Option<TypeTree>>,
    coins: Seq<Result<Option<i128>, Seq<char>>>,
    addresses: Seq<Result<Option<u128>, Seq<char>>>,
) -> Result<Seq<BalanceView>, RpcErrorView> {
    match batch_step(requests, max_batch_size, parsed) {
        Err(error) => Err(error),
        Ok(keys) => batch_response(rows_answer(batch_rows(keys, coins, addresses))),
    }
}

/// What one request of a batch is answered with, given what was read from the indices at its key.
pub open spec fn read_answer(
    request: GetBalanceRequestView,
    parsed: Option<TypeTree>,
    coin: Result<Option<i128>, Seq<char>>,
    address: Result<Option<u128>, Seq<char>>,
) -> Result<BalanceView, RpcErrorView> {
    match key_answer(request, parsed) {
        Err(error) => Err(RpcErrorView::Request(error)),
        Ok(key) => row_response(
            row_answer(
                RowView { owner: key.owner, type_: key.type_, coin, address, token: None },
            ),
        ),
    }
}

/// A batch within the maximum is answered exactly where each of its requests is, reads that failed
/// included, and with the same balances, in order.
pub proof fn law_batch_answered(
    requests: Seq<GetBalanceRequestView>,
    max_batch_size: u32,
    parsed: Seq<Option<TypeTree>>,
    coins: Seq<Result<Option<i128>, Seq<char>>>,
    addresses: Seq<Result<Option<u128>, Seq<char>>>,
)
    requires
        requests.len() <= max_batch_size,
        parsed.len() == requests.len(),
        coins.len() == requests.len(),
        addresses.len() == requests.len(),
    ensures
        batch_reads_answer(requests, max_batch_size, parsed, coins, addresses) is Ok <==> forall|i: int|
            0 <= i < requests.len() ==> read_answer(
                #[trigger] requests[i],
                parsed[i],
                coins[i],
                addresses[i],
            ) is Ok,
        batch_reads_answer(requests, max_batch_size, parsed, coins, addresses) matches Ok(balances)
            ==> {
            &&& balances.len() == requests.len()
            &&& forall|i: int|
                0 <= i < requests.len() ==> read_answer(
                    requests[i],
                    parsed[i],
                    coins[i],
                    addresses[i],
                ) == Ok::<BalanceView, RpcErrorView>(#[trigger] balances[i])
        },
{
    law_batch_keys(requests, parsed);
    if keys_answer(requests, parsed) is Ok {
        let keys = keys_answer(requests, parsed)->Ok_0;
        let rows = batch_rows(keys, coins, addresses);
        law_rows_answered(rows);
        assert forall|i: int| 0 <= i < requests.len() implies read_answer(
            #[trigger] requests[i],
            parsed[i],
            coins[i],
            addresses[i],
        ) == row_response(row_answer(rows[i])) by {
            assert(key_answer(requests[i], parsed[i]) == Ok::<KeyView, ErrorView>(keys[i]));
        }
        if rows_answer(rows) is Err {
            let i = choose|i: int| 0 <= i < rows.len() && row_answer(#[trigger] rows[i]) is Err;
            assert(read_answer(requests[i], parsed[i], coins[i], addresses[i]) is Err);
        } else {
            assert forall|i: int| 0 <= i < requests.len() implies read_answer(
                #[trigger] requests[i],
                parsed[i],
                coins[i],
                addresses[i],
            ) is Ok by {
                assert(row_answer(rows[i]) is Ok);
            }
        }
    } else {
        let i = choose|i: int|
            0 <= i < requests.len() && key_answer(#[trigger] requests[i], parsed[i]) is Err;
        assert(read_answer(requests[i], parsed[i], coins[i], addresses[i]) is Err);
    }
}

/// The answer to a batch whose coin types read as `parsed`, given what the indices hold at its
/// keys.
pub open spec fn batch_answer(
    requests: Seq<GetBalanceRequestView>,
    max_batch_size: u32,
    parsed: Seq<Option<TypeTree>>,
    coins: Seq<Option<i128>>,
    addresses: Seq<Option<u128>>,
) -> Result<Seq<BalanceView>, RpcErrorView> {
    batch_reads_answer(
        requests,
        max_batch_size,
        parsed,
        coins.map_values(|held: Option<i128>| Ok::<Option<i128>, Seq<char>>(held)),
        addresses.map_values(|held: Option<u128>| Ok::<Option<u128>, Seq<char>>(held)),
    )
}

/// A batch within the maximum is answered exactly where point lookups of all its requests are,
/// and with the same balances, in order.
pub proof fn law_batch_matches_point(
    requests: Seq<GetBalanceRequestView>,
    max_batch_size: u32,
    parsed: Seq<Option<TypeTree>>,
    coins: Seq<Option<i128>>,
    addresses: Seq<Option<u128>>,
)
    requires
        requests.len() <= max_batch_size,
        parsed.len() == requests.len(),
        coins.len() == requests.len(),
        addresses.len() == requests.len(),
    ensures
        batch_answer(requests, max_batch_size, parsed, coins, addresses) is Ok <==> forall|i: int|
            0 <= i < requests.len() ==> point_answer(
                #[trigger] requests[i],
                parsed[i],
                coins[i],
                addresses[i],
            ) is Ok,
        batch_answer(requests, max_batch_size, parsed, coins, addresses) matches Ok(balances) ==> {
            &&& balances.len() == requests.len()
            &&& forall|i: int|
                0 <= i < requests.len() ==> point_answer(
                    requests[i],
                    parsed[i],
                    coins[i],
                    addresses[i],
                ) == Ok::<BalanceView, RpcErrorView>(#[trigger] balances[i])
        },
{
    let coins_read = coins.map_values(|held: Option<i128>| Ok::<Option<i128>, Seq<char>>(held));
    let addresses_read = addresses.map_values(
        |held: Option<u128>| Ok::<Option<u128>, Seq<char>>(held),
    );
    law_batch_answered(requests, max_batch_size, parsed, coins_read, addresses_read);
    assert forall|i: int| 0 <= i < requests.len() implies point_answer(
        #[trigger] requests[i],
        parsed[i],
        coins[i],
        addresses[i],
    ) == read_answer(requests[i], parsed[i], coins_read[i], addresses_read[i]) by {}
    let answer = batch_answer(requests, max_batch_size, parsed, coins, addresses);
    if answer is Err {
        let i = choose|i: int|
            0 <= i < requests.len() && read_answer(
                #[trigger] requests[i],
                parsed[i],
                coins_read[i],
                addresses_read[i],
            ) is Err;
        assert(point_answer(requests[i], parsed[i], coins[i], addresses[i]) is Err);
    }
}

/// A batch of one request is answered as its point lookup is, failures included.
pub proof fn law_batch_of_one(
    request: GetBalanceRequestView,
    max_batch_size: u32,
    parsed: Option<TypeTree>,
    coin: Option<i128>,
    address: Option<u128>,
)
    requires
        max_batch_size >= 1,
    ensures
        batch_answer(seq![request], max_batch_size, seq![parsed], seq![coin], seq![address])
            == match point_answer(request, parsed, coin, address) {
            Ok(balance) => Ok(seq![balance]),
            Err(error) => Err(error),
        },
{
    let requests = seq![request];
    assert(requests.take(0) =~= Seq::empty());
    assert(keys_answer(requests.take(0), seq![parsed]) == Ok::<Seq<KeyView>, ErrorView>(
        Seq::empty(),
    ));
    if key_answer(request, parsed) is Ok {
        let key = key_answer(request, parsed)->Ok_0;
        assert(Seq::<KeyView>::empty().push(key) =~= seq![key]);
        let rows = batch_rows(
            seq![key],
            seq![coin].map_values(|held: Option<i128>| Ok::<Option<i128>, Seq<char>>(held)),
            seq![address].map_values(|held: Option<u128>| Ok::<Option<u128>, Seq<char>>(held)),
        );
        assert(rows =~= seq![point_row(key, coin, address)]);
        assert(rows.drop_last() =~= Seq::empty());
        assert(rows_answer(rows.drop_last()) == Ok::<Seq<BalanceView>, InternalErrorView>(
            Seq::empty(),
        ));
        if row_answer(rows[0]) is Ok {
            let balance = row_answer(rows[0])->Ok_0;
            assert(Seq::<BalanceView>::empty().push(balance) =~= seq![balance]);
        }
    }
}

/// A batch over the maximum is refused whatever it holds.
pub proof fn law_batch_over_maximum(
    requests: Seq<GetBalanceRequestView>,
    max_batch_size: u32,
    parsed: Seq<Option<TypeTree>>,
)
    requires
        requests.len() <= usize::MAX,
    ensures
        requests.len() > max_batch_size <==> batch_step(requests, max_batch_size, parsed) == Err::<
            Seq<KeyView>,
            RpcErrorView,
        >(RpcErrorView::Request(ErrorView::TooManyRequests(requests.len() as usize, max_batch_size))),
{
    if requests.len() <= max_batch_size {
        lemma_key_errors(requests, parsed);
    }
}

/// The requests of a batch are not refused for their number.
proof fn lemma_key_errors(requests: Seq<GetBalanceRequestView>, parsed: Seq<Option<TypeTree>>)
    ensures
        keys_answer(requests, parsed) matches Err(error) ==> !(error is TooManyRequests),
    decreases requests.len(),
{
    if requests.len() > 0 {
        lemma_key_errors(requests.take(requests.len() - 1), parsed);
    }
}

/// A batch without keys is refused as its first bad request is.
pub proof fn law_batch_first_refusal(
    requests: Seq<GetBalanceRequestView>,
    parsed: Seq<Option<TypeTree>>,
)
    requires
        keys_answer(requests, parsed) is Err,
    ensures
        exists|i: int|
            {
                &&& 0 <= i < requests.len()
                &&& forall|j: int|
                    0 <= j < i ==> key_answer(#[trigger] requests[j], parsed[j]) is Ok
                &&& key_answer(#[trigger] requests[i], parsed[i]) == Err::<KeyView, ErrorView>(
                    keys_answer(requests, parsed)->Err_0,
                )
            },
    decreases requests.len(),
{
    let last = requests.len() - 1;
    let front = requests.take(last);
    law_batch_keys(front, parsed);
    if keys_answer(front, parsed) is Err {
        law_batch_first_refusal(front, parsed);
        let error = keys_answer(front, parsed)->Err_0;
        let i = choose|i: int|
            {
                &&& 0 <= i < front.len()
                &&& forall|j: int| 0 <= j < i ==> key_answer(#[trigger] front[j], parsed[j]) is Ok
                &&& key_answer(#[trigger] front[i], parsed[i]) == Err::<KeyView, ErrorView>(error)
            };
        assert(front[i] == requests[i]);
        assert forall|j: int| 0 <= j < i implies key_answer(
            #[trigger] requests[j],
            parsed[j],
        ) is Ok by {
            assert(front[j] == requests[j]);
        }
        assert(key_answer(requests[i], parsed[i]) == Err::<KeyView, ErrorView>(error));
    } else {
        assert forall|j: int| 0 <= j < last implies key_answer(
            #[trigger] requests[j],
            parsed[j],
        ) is Ok by {
            assert(front[j] == requests[j]);
        }
        assert(key_answer(requests[last], parsed[last]) is Err);
    }
}

/// A batch within the maximum has the keys of its requests, or is refused as they are.
pub proof fn law_batch_step(
    requests: Seq<GetBalanceRequestView>,
    max_batch_size: u32,
    parsed: Seq<Option<TypeTree>>,
)
    requires
        requests.len() <= max_batch_size,
    ensures
        keys_answer(requests, parsed) matches Ok(keys) ==> batch_step(
            requests,
            max_batch_size,
            parsed,
        ) == Ok::<Seq<KeyView>, RpcErrorView>(keys),
        keys_answer(requests, parsed) matches Err(error) ==> batch_step(
            requests,
            max_batch_size,
            parsed,
        ) == Err::<Seq<KeyView>, RpcErrorView>(RpcErrorView::Request(error)),
{
}

/// The keys of a batch are the owners that its requests name and the types that were read, each in
/// its place.
pub proof fn law_batch_asks_for_its_requests(
    requests: Seq<GetBalanceRequestView>,
    max_batch_size: u32,
    parsed: Seq<Option<TypeTree>>,
    i: int,
)
    requires
        batch_step(requests, max_batch_size, parsed) is Ok,
        0 <= i < requests.len(),
    ensures
        ({
            let keys = batch_step(requests, max_batch_size, parsed)->Ok_0;
            &&& keys.len() == requests.len()
            &&& names_address(requests[i].owner)
            &&& keys[i].owner.len() == 32
            &&& byte_number(keys[i].owner) == hex_number(requests[i].owner.skip(2))
            &&& parsed[i] == Some(keys[i].type_)
        }),
{
    law_batch_keys(requests, parsed);
    law_request_has_key(requests[i], parsed[i]);
    assert(key_answer(requests[i], parsed[i]) is Ok);
    let keys = batch_step(requests, max_batch_size, parsed)->Ok_0;
    assert(key_answer(requests[i], parsed[i]) == Ok::<KeyView, ErrorView>(keys[i]));
}

/// The rows of a batch go as far as its keys and both lists of reads do, and each has the key and the
/// reads of its place, and no token.
pub proof fn law_batch_rows(
    keys: Seq<KeyView>,
    coins: Seq<Result<Option<i128>, Seq<char>>>,
    addresses: Seq<Result<Option<u128>, Seq<char>>>,
)
    ensures
        ({
            let rows = batch_rows(keys, coins, addresses);
            let n = rows.len();
            &&& n <= keys.len() && n <= coins.len() && n <= addresses.len()
            &&& n == keys.len() || n == coins.len() || n == addresses.len()
            &&& forall|i: int|
                0 <= i < n ==> {
                    &&& (#[trigger] rows[i]).owner == keys[i].owner
                    &&& rows[i].type_ == keys[i].type_
                    &&& rows[i].coin == coins[i]
                    &&& rows[i].address == addresses[i]
                    &&& rows[i].token is None
                }
        }),
{
}

/// The rows of a batch are answered one balance to a row, in order, or fail as the first row without
/// an answer does.
pub proof fn law_batch_response(rows: Seq<RowView>)
    ensures
        ({
            let answer = batch_response(rows_answer(rows));
            &&& answer is Ok <==> forall|i: int|
                0 <= i < rows.len() ==> row_answer(#[trigger] rows[i]) is Ok
            &&& answer matches Ok(balances) ==> balances.len() == rows.len() && forall|i: int|
                0 <= i < rows.len() ==> row_answer(rows[i]) == Ok::<BalanceView, InternalErrorView>(
                    #[trigger] balances[i],
                )
            &&& answer is Err ==> exists|i: int|
                {
                    &&& 0 <= i < rows.len()
                    &&& forall|j: int| 0 <= j < i ==> row_answer(#[trigger] rows[j]) is Ok
                    &&& row_answer(#[trigger] rows[i]) is Err
                    &&& answer->Err_0 == RpcErrorView::Internal(row_answer(rows[i])->Err_0)
                }
        }),
{
    law_rows_answered(rows);
    if rows_answer(rows) is Err {
        let error = rows_answer(rows)->Err_0;
        law_first_failure(rows, error);
        let i = choose|i: int|
            {
                &&& 0 <= i < rows.len()
                &&& forall|j: int| 0 <= j < i ==> row_answer(#[trigger] rows[j]) is Ok
                &&& row_answer(#[trigger] rows[i]) == Err::<BalanceView, InternalErrorView>(error)
            };
        assert(row_answer(rows[i]) is Err);
    }
}

/// The balances of an answered batch show what was read at the keys of its requests, to the unit,
/// each in its place.
pub proof fn law_batch_shows_what_is_held(
    requests: Seq<GetBalanceRequestView>,
    max_batch_size: u32,
    parsed: Seq<Option<TypeTree>>,
    coins: Seq<Result<Option<i128>, Seq<char>>>,
    addresses: Seq<Result<Option<u128>, Seq<char>>>,
    i: int,
)
    requires
        requests.len() <= max_batch_size,
        parsed.len() == requests.len(),
        coins.len() == requests.len(),
        addresses.len() == requests.len(),
        batch_reads_answer(requests, max_batch_size, parsed, coins, addresses) is Ok,
        0 <= i < requests.len(),
    ensures
        ({
            let shown = batch_reads_answer(
                requests,
                max_batch_size,
                parsed,
                coins,
                addresses,
            )->Ok_0[i];
            &&& names_address(requests[i].owner)
            &&& shown.owner matches Some(owner) && hex_number(owner.skip(2)) == hex_number(
                requests[i].owner.skip(2),
            )
            &&& parsed[i] is Some && shown.coin_type == Some(type_text(parsed[i]->0, true))
            &&& shown.coin_balance matches Some(coin) && coin as int == coin_held(coins[i])
            &&& shown.address_balance matches Some(address) && address as int == address_held(
                addresses[i],
            )
            &&& coin_held(coins[i]) + address_held(addresses[i]) < 0x1_0000_0000_0000_0000 ==> {
                shown.total_balance matches Some(total) && total as int == coin_held(coins[i])
                    + address_held(addresses[i])
            }
            &&& shown.page_token is None
        }),
{
    law_batch_answered(requests, max_batch_size, parsed, coins, addresses);
    let balances =
        batch_reads_answer(requests, max_batch_size, parsed, coins, addresses)->Ok_0;
    assert(read_answer(requests[i], parsed[i], coins[i], addresses[i]) == Ok::<
        BalanceView,
        RpcErrorView,
    >(balances[i]));
    law_request_has_key(requests[i], parsed[i]);
    let key = key_answer(requests[i], parsed[i])->Ok_0;
    law_row_shows_what_is_held(
        RowView {
            owner: key.owner,
            type_: key.type_,
            coin: coins[i],
            address: addresses[i],
            token: None,
        },
    );
    law_address_text(key.owner);
}

/// The coin types of requests are read each in its place.
pub proof fn law_types_are_read(requests: Seq<GetBalanceRequestView>, i: int)
    requires
        0 <= i < requests.len(),
    ensures
        parsed_types(requests).len() == requests.len(),
        parsed_types(requests)[i] == read_type(requests[i].coin_type),
{
}

/// Keys, types and reads show their parts, in order.
pub proof fn law_batches_show_their_parts(
    lookup: BatchLookup,
    keys: Seq<AddressKey>,
    types: Seq<Option<TypeTag>>,
    coins: Seq<Result<Option<i128>, String>>,
    addresses: Seq<Result<Option<u128>, String>>,
    i: int,
)
    ensures
        lookup@.len() == lookup.keys@.len(),
        0 <= i < lookup.keys@.len() ==> lookup@[i] == lookup.keys@[i]@,
        address_key_views(keys).len() == keys.len(),
        0 <= i < keys.len() ==> address_key_views(keys)[i] == keys[i]@,
        optional_trees(types).len() == types.len(),
        0 <= i < types.len() ==> match types[i] {
            Some(tag) => optional_trees(types)[i] == Some(tag.tree()),
            None => optional_trees(types)[i] is None,
        },
        coin_reads(coins).len() == coins.len(),
        0 <= i < coins.len() ==> match coins[i] {
            Ok(held) => coin_reads(coins)[i] == Ok::<Option<i128>, Seq<char>>(held),
            Err(cause) => coin_reads(coins)[i] == Err::<Option<i128>, Seq<char>>(cause@),
        },
        address_reads(addresses).len() == addresses.len(),
        0 <= i < addresses.len() ==> match addresses[i] {
            Ok(held) => address_reads(addresses)[i] == Ok::<Option<u128>, Seq<char>>(held),
            Err(cause) => address_reads(addresses)[i] == Err::<Option<u128>, Seq<char>>(cause@),
        },
{
}

} // verus!
