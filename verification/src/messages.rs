//! The requests and responses of the balance service.
use vstd::prelude::*;

verus! {

/// Asks for one balance.
#[derive(Debug)]
pub struct GetBalanceRequest {
    pub owner: Option<String>,
    pub coin_type: Option<String>,
}

/// Asks for several balances at once.
#[derive(Debug)]
pub struct BatchGetBalancesRequest {
    pub requests: Vec<GetBalanceRequest>,
}

/// Asks for a page of the balances of an owner.
#[derive(Debug)]
pub struct ListBalancesRequest {
    pub owner: Option<String>,
    pub page_size: Option<u32>,
    pub after_token: Option<Vec<u8>>,
    pub before_token: Option<Vec<u8>>,
    pub end: Option<i32>,
}

/// The balance of an owner in one coin type.
#[derive(Debug, PartialEq, Eq)]
pub struct Balance {
    pub owner: Option<String>,
    pub coin_type: Option<String>,
    /// The two balances below, together.
    pub total_balance: Option<u64>,
    /// What the address itself holds.
    pub address_balance: Option<u64>,
    /// What the coins of the owner hold.
    pub coin_balance: Option<u64>,
    /// Where a page of balances can be continued from.
    pub page_token: Option<Vec<u8>>,
}

/// The balances that a batch asked for, in its order.
#[derive(Debug, PartialEq, Eq)]
pub struct BatchGetBalancesResponse {
    pub balances: Vec<Balance>,
}

/// A page of balances.
#[derive(Debug, PartialEq, Eq)]
pub struct ListBalancesResponse {
    pub has_previous_page: Option<bool>,
    pub has_next_page: Option<bool>,
    pub balances: Vec<Balance>,
}

/// The mathematical view of a `GetBalanceRequest`. A field that is absent counts as empty.
pub struct GetBalanceRequestView {
    pub owner: Seq<char>,
    pub coin_type: Seq<char>,
}

/// The mathematical view of a `Balance`.
pub struct BalanceView {
    pub owner: Option<Seq<char>>,
    pub coin_type: Option<Seq<char>>,
    pub total_balance: Option<u64>,
    pub address_balance: Option<u64>,
    pub coin_balance: Option<u64>,
    pub page_token: Option<Seq<u8>>,
}

/// The mathematical view of a `ListBalancesResponse`.
pub struct ListBalancesResponseView {
    pub has_previous_page: Option<bool>,
    pub has_next_page: Option<bool>,
    pub balances: Seq<BalanceView>,
}

/// The text of a field; none where it is absent.
pub open spec fn field_text(field: Option<String>) -> Seq<char> {
    match field {
        Some(text) => text@,
        None => Seq::empty(),
    }
}

/// What `balances` show, in order.
pub open spec fn balance_views(balances: Seq<Balance>) -> Seq<BalanceView> {
    balances.map_values(|balance: Balance| balance@)
}

/// What `requests` ask for, in order.
pub open spec fn request_views(requests: Seq<GetBalanceRequest>) -> Seq<GetBalanceRequestView> {
    requests.map_values(|request: GetBalanceRequest| request@)
}

impl View for GetBalanceRequest {
    type V = GetBalanceRequestView;

    open spec fn view(&self) -> GetBalanceRequestView {
        GetBalanceRequestView {
            owner: field_text(self.owner),
            coin_type: field_text(self.coin_type),
        }
    }
}

impl View for Balance {
    type V = BalanceView;

    open spec fn view(&self) -> BalanceView {
        BalanceView {
            owner: match self.owner {
                Some(text) => Some(text@),
                None => None,
            },
            coin_type: match self.coin_type {
                Some(text) => Some(text@),
                None => None,
            },
            total_balance: self.total_balance,
            address_balance: self.address_balance,
            coin_balance: self.coin_balance,
            page_token: match self.page_token {
                Some(token) => Some(token@),
                None => None,
            },
        }
    }
}

impl View for BatchGetBalancesResponse {
    type V = Seq<BalanceView>;

    open spec fn view(&self) -> Seq<BalanceView> {
        balance_views(self.balances@)
    }
}

impl View for ListBalancesResponse {
    type V = ListBalancesResponseView;

    open spec fn view(&self) -> ListBalancesResponseView {
        ListBalancesResponseView {
            has_previous_page: self.has_previous_page,
            has_next_page: self.has_next_page,
            balances: balance_views(self.balances@),
        }
    }
}

/// The text of a field; none where it is absent.
pub fn field_str(field: &Option<String>) -> (text: &str)
    ensures
        text@ == field_text(*field),
{
    match field {
        Some(text) => text.as_str(),
        None => {
            proof {
                reveal_strlit("");
            }
            assert(""@ =~= Seq::<char>::empty());
            ""
        },
    }
}

impl GetBalanceRequest {
    /// The owner asked for; empty where it is absent.
    pub fn owner(&self) -> (text: &str)
        ensures
            text@ == self@.owner,
    {
        field_str(&self.owner)
    }

    /// The coin type asked for; empty where it is absent.
    pub fn coin_type(&self) -> (text: &str)
        ensures
            text@ == self@.coin_type,
    {
        field_str(&self.coin_type)
    }
}

impl ListBalancesRequest {
    /// The owner asked for; empty where it is absent.
    pub fn owner(&self) -> (text: &str)
        ensures
            text@ == field_text(self.owner),
    {
        field_str(&self.owner)
    }
}

/// Requests show their fields, in order, and an absent field as an empty one.
pub proof fn law_requests_show_their_fields(requests: Seq<GetBalanceRequest>, text: String, i: int)
    ensures
        field_text(Some(text)) == text@,
        field_text(None).len() == 0,
        request_views(requests).len() == requests.len(),
        0 <= i < requests.len() ==> {
            let view = request_views(requests)[i];
            &&& view == requests[i]@
            &&& requests[i].owner matches Some(owner) ==> view.owner == owner@
            &&& requests[i].owner is None ==> view.owner.len() == 0
            &&& requests[i].coin_type matches Some(coin_type) ==> view.coin_type == coin_type@
            &&& requests[i].coin_type is None ==> view.coin_type.len() == 0
        },
{
}

/// Balances show their fields, in order.
pub proof fn law_balances_show_their_fields(balances: Seq<Balance>, i: int)
    requires
        0 <= i < balances.len(),
    ensures
        balance_views(balances).len() == balances.len(),
        ({
            let balance = balances[i];
            let view = balance_views(balances)[i];
            &&& view == balance@
            &&& balance.owner matches Some(owner) ==> view.owner == Some(owner@)
            &&& balance.owner is None ==> view.owner is None
            &&& balance.coin_type matches Some(coin_type) ==> view.coin_type == Some(coin_type@)
            &&& balance.coin_type is None ==> view.coin_type is None
            &&& view.total_balance == balance.total_balance
            &&& view.address_balance == balance.address_balance
            &&& view.coin_balance == balance.coin_balance
            &&& balance.page_token matches Some(token) ==> view.page_token == Some(token@)
            &&& balance.page_token is None ==> view.page_token is None
        }),
{
}

/// Responses show their balances and their flags.
pub proof fn law_responses_show_their_fields(
    batch: BatchGetBalancesResponse,
    page: ListBalancesResponse,
)
    ensures
        batch@ == balance_views(batch.balances@),
        page@.balances == balance_views(page.balances@),
        page@.has_previous_page == page.has_previous_page,
        page@.has_next_page == page.has_next_page,
{
}

} // verus!
