//! Reading orders back: role-scoped filtering, newest first, one page at a
//! time.

use vstd::prelude::*;
use vstd::string::{StrSliceExecFns, StringExecFns};
use crate::directory::{
    find_discount, find_product, find_shop, find_user, live_product, live_shop, live_user,
    named_discount, DiscountEntry, ProductEntry, ShopEntry, UserEntry,
};
use crate::ledger::{listed, listing, Price, PriceType};
use crate::listing::{price_type_label, price_type_name};
use crate::order::{Order, OrderDetail, OrderStatus};
use crate::store::{stamps_nondecreasing, OrderStore};

verus! {

/// One page of a listing, and where it stands among the rest.
pub struct PaginationResult<T> {
    pub data: Vec<T>,
    pub total: usize,
    pub page: usize,
    pub per_page: usize,
    pub page_counts: usize,
}

/// The pages that `total` rows fill at `per_page` rows a page.
pub open spec fn page_count(total: nat, per_page: nat) -> nat
    recommends
        per_page > 0,
{
    if total % per_page == 0 {
        total / per_page
    } else {
        total / per_page + 1
    }
}

/// Pages are numbered from 1. Where both `page` and a nonzero `per_page` are
/// given, the rows of that page; otherwise all of them.
pub open spec fn page_rows<T>(rows: Seq<T>, page: Option<usize>, per_page: Option<usize>) -> Seq<T> {
    if page is Some && per_page is Some && per_page->0 > 0 {
        let n = per_page->0 as int;
        let p = page->0 as int;
        if p == 0 {
            Seq::empty()
        } else {
            let start = if (p - 1) * n < rows.len() {
                (p - 1) * n
            } else {
                rows.len() as int
            };
            let end = if start + n < rows.len() {
                start + n
            } else {
                rows.len() as int
            };
            rows.subrange(start, end)
        }
    } else {
        rows
    }
}

/// `r` is the page that `page` and `per_page` select of `rows`, with its
/// place among the rest.
pub open spec fn paged<T>(
    rows: Seq<T>,
    page: Option<usize>,
    per_page: Option<usize>,
    r: PaginationResult<T>,
) -> bool {
    &&& r.data@ == page_rows(rows, page, per_page)
    &&& r.total == rows.len()
    &&& (page is Some && per_page is Some && per_page->0 > 0 ==> r.page == page->0 && r.per_page
        == per_page->0 && r.page_counts == page_count(rows.len(), per_page->0 as nat))
    &&& (!(page is Some && per_page is Some && per_page->0 > 0) ==> r.page == 0 && r.per_page == 0
        && r.page_counts == 0)
}

/// Cuts one page out of `rows`, and reports the page, its size and how many
/// pages there are; without a page and a nonzero size, all rows come back
/// with zeros for those three.
pub fn paginate<T>(rows: Vec<T>, page: Option<usize>, per_page: Option<usize>) -> (r:
    PaginationResult<T>)
    ensures
        paged(rows@, page, per_page, r),
{
    let total = rows.len();
    let ghost all = rows@;
    match (page, per_page) {
        (Some(p), Some(n)) if n > 0 => {
            let counts = if total % n == 0 {
                total / n
            } else {
                proof {
                    assert(n != 1);
                    let (t, m) = (total as int, n as int);
                    assert(t / m < usize::MAX) by (nonlinear_arith)
                        requires
                            m >= 2,
                            0 <= t <= usize::MAX,
                    ;
                }
                total / n + 1
            };
            let mut rows = rows;
            if p == 0 {
                rows.clear();
                proof {
                    assert(rows@ =~= Seq::<T>::empty());
                }
                return PaginationResult { data: rows, total, page: p, per_page: n, page_counts: counts };
            }
            let start = match (p - 1).checked_mul(n) {
                Some(s) => if s < total {
                    s
                } else {
                    total
                },
                None => total,
            };
            let mut data = rows.split_off(start);
            if n < data.len() {
                data.truncate(n);
            }
            proof {
                assert(data@ =~= page_rows(all, page, per_page));
            }
            PaginationResult { data, total, page: p, per_page: n, page_counts: counts }
        },
        _ => PaginationResult { data: rows, total, page: 0, per_page: 0, page_counts: 0 },
    }
}

/// Which orders a caller may see.
#[derive(Clone, Copy, Debug, PartialEq, Eq, Structural)]
pub enum Visibility {
    All,
    /// Only the orders placed by this user.
    OwnOnly(i32),
}

/// Distributors see only their own orders; every other role sees all.
pub open spec fn visibility_spec(role: Seq<char>, caller_id: i32) -> Visibility {
    if role == "Distributor"@ {
        Visibility::OwnOnly(caller_id)
    } else {
        Visibility::All
    }
}

/// What orders a caller in `role` may see.
pub fn visibility(role: &str, caller_id: i32) -> (r: Visibility)
    ensures
        r == visibility_spec(role@, caller_id),
{
    let restricted = String::from_str("Distributor");
    let given = role.to_owned();
    if given == restricted {
        Visibility::OwnOnly(caller_id)
    } else {
        Visibility::All
    }
}

/// The name under which a status is stored and searched.
pub open spec fn status_name(s: OrderStatus) -> Seq<char> {
    match s {
        OrderStatus::Pending => "Pending"@,
    }
}

/// The name of a status.
pub fn status_label(s: OrderStatus) -> (r: String)
    ensures
        r@ == status_name(s),
{
    match s {
        OrderStatus::Pending => String::from_str("Pending"),
    }
}

/// The filters of an order listing. Dates are day numbers since the Unix
/// epoch, amounts are in the currency's minor unit; a range applies only
/// where both its ends are given.
#[derive(Clone, Debug)]
pub struct GetOrdersQuery {
    pub search: Option<String>,
    pub page: Option<usize>,
    pub per_page: Option<usize>,
    pub from_date: Option<u64>,
    pub to_date: Option<u64>,
    pub from_amount: Option<u64>,
    pub to_amount: Option<u64>,
    pub status: Option<String>,
}

/// `needle` occurs in `hay` as a run of consecutive characters.
pub open spec fn contains(hay: Seq<char>, needle: Seq<char>) -> bool {
    exists|i: int| 0 <= i <= hay.len() - needle.len() && #[trigger] hay.subrange(i, i + needle.len()) == needle
}

/// The decimal digit for `d`, where `0 <= d < 10`.
pub open spec fn digit_char(d: int) -> char {
    ('0' as u32 + d) as char
}

/// The decimal digits of `n`, most significant first, without leading zeros.
pub open spec fn decimal_text(n: nat) -> Seq<char>
    decreases n,
{
    if n < 10 {
        seq![digit_char(n as int)]
    } else {
        decimal_text(n / 10).push(digit_char((n % 10) as int))
    }
}

/// How an order identifier reads in decimal.
pub open spec fn id_text(id: i32) -> Seq<char> {
    if id < 0 {
        seq!['-'] + decimal_text((-id) as nat)
    } else {
        decimal_text(id as nat)
    }
}

fn decimal_chars(n: u32) -> (r: Vec<char>)
    ensures
        r@ == decimal_text(n as nat),
    decreases n,
{
    if n < 10 {
        let c = ('0' as u8 + n as u8) as char;
        proof {
            assert(c == digit_char(n as int));
        }
        let mut v: Vec<char> = Vec::new();
        v.push(c);
        proof {
            assert(v@ =~= seq![digit_char(n as int)]);
        }
        v
    } else {
        let mut v = decimal_chars(n / 10);
        let d = n % 10;
        let c = ('0' as u8 + d as u8) as char;
        proof {
            assert(c == digit_char(d as int));
        }
        v.push(c);
        v
    }
}

/// The characters of `id` in decimal.
pub(crate) fn id_chars(id: i32) -> (r: Vec<char>)
    ensures
        r@ == id_text(id),
{
    if id < 0 {
        let digits = decimal_chars((0i64 - id as i64) as u32);
        let mut v: Vec<char> = Vec::new();
        v.push('-');
        let mut i: usize = 0;
        while i < digits.len()
            invariant
                0 <= i <= digits@.len(),
                v@ == seq!['-'] + digits@.subrange(0, i as int),
            decreases digits@.len() - i,
        {
            v.push(digits[i]);
            proof {
                assert(seq!['-'] + digits@.subrange(0, i + 1) =~= (seq!['-'] + digits@.subrange(
                    0,
                    i as int,
                )).push(digits@[i as int]));
            }
            i += 1;
        }
        proof {
            assert(digits@.subrange(0, digits@.len() as int) =~= digits@);
        }
        v
    } else {
        decimal_chars(id as u32)
    }
}

/// The characters of `s`.
pub(crate) fn chars_of(s: &str) -> (r: Vec<char>)
    ensures
        r@ == s@,
{
    let n = s.unicode_len();
    let mut v: Vec<char> = Vec::new();
    let mut i: usize = 0;
    while i < n
        invariant
            n == s@.len(),
            0 <= i <= n,
            v@ == s@.subrange(0, i as int),
        decreases n - i,
    {
        v.push(s.get_char(i));
        proof {
            assert(v@ =~= s@.subrange(0, i + 1));
        }
        i += 1;
    }
    proof {
        assert(s@.subrange(0, n as int) =~= s@);
    }
    v
}

/// Whether `needle` occurs in `hay`.
pub(crate) fn occurs_in(hay: &Vec<char>, needle: &Vec<char>) -> (r: bool)
    ensures
        r == contains(hay@, needle@),
{
    let h = hay.len();
    let n = needle.len();
    if n > h {
        return false;
    }
    let mut i: usize = 0;
    while i <= h - n
        invariant
            h == hay@.len(),
            n == needle@.len(),
            n <= h,
            0 <= i <= h - n + 1,
            forall|j: int| 0 <= j < i ==> #[trigger] hay@.subrange(j, j + n) != needle@,
        decreases h - n + 1 - i,
    {
        let mut k: usize = 0;
        while k < n && hay[i + k] == needle[k]
            invariant
                h == hay@.len(),
                n == needle@.len(),
                i + n <= h,
                0 <= k <= n,
                forall|m: int| 0 <= m < k ==> hay@[i + m] == needle@[m],
            decreases n - k,
        {
            k += 1;
        }
        if k == n {
            proof {
                assert(hay@.subrange(i as int, i + n) =~= needle@);
            }
            return true;
        }
        proof {
            assert(hay@.subrange(i as int, i + n)[k as int] != needle@[k as int]);
        }
        i += 1;
    }
    false
}

/// The day, counted from the Unix epoch, of an instant in seconds.
pub open spec fn day_of(secs: u64) -> int {
    secs as int / 86400
}

/// Order `o` passes the filters of `q` and is visible under `vis`.
pub open spec fn order_selected(o: Order, q: GetOrdersQuery, vis: Visibility) -> bool {
    &&& (vis matches Visibility::OwnOnly(u) ==> o.user_id == u)
    &&& (q.from_date is Some && q.to_date is Some ==> q.from_date->0 <= day_of(o.created_at)
        <= q.to_date->0)
    &&& (q.from_amount is Some && q.to_amount is Some ==> q.from_amount->0 <= o.total_amount
        <= q.to_amount->0)
    &&& (q.status is Some ==> status_name(o.status) == q.status->0@)
}

/// A row of the order listing: the order with its shop and the user who
/// placed it.
#[derive(Clone, Debug, PartialEq, Eq)]
pub struct OrderSummary {
    pub order_id: i32,
    pub shop_name: String,
    pub shop_address: String,
    pub shop_latitude: i32,
    pub shop_longitude: i32,
    pub distributor_name: String,
    pub order_date: u64,
    pub status: OrderStatus,
    pub total_amount: u64,
}

/// The listing row of order `o`, where its shop and its user are both live.
pub open spec fn order_row(o: Order, shops: Seq<ShopEntry>, users: Seq<UserEntry>) -> Option<
    OrderSummary,
> {
    match (live_shop(shops, o.shop_id), live_user(users, o.user_id)) {
        (Some(s), Some(u)) => Some(
            OrderSummary {
                order_id: o.order_id,
                shop_name: s.shop_name,
                shop_address: s.address,
                shop_latitude: s.latitude,
                shop_longitude: s.longitude,
                distributor_name: u.full_name,
                order_date: o.created_at,
                status: o.status,
                total_amount: o.total_amount,
            },
        ),
        _ => None,
    }
}

/// Row `row` is found by the search of `q`: there is none, or it occurs in
/// the order's identifier in decimal, the shop's name or address, the user's
/// name, or the status name.
pub open spec fn row_found(row: OrderSummary, q: GetOrdersQuery) -> bool {
    q.search is Some ==> {
        let t = q.search->0@;
        contains(id_text(row.order_id), t) || contains(row.shop_name@, t) || contains(
            row.shop_address@,
            t,
        ) || contains(row.distributor_name@, t) || contains(status_name(row.status), t)
    }
}

/// The listing rows of the selected orders, newest first.
pub open spec fn selected_orders(
    orders: Seq<Order>,
    shops: Seq<ShopEntry>,
    users: Seq<UserEntry>,
    q: GetOrdersQuery,
    vis: Visibility,
) -> Seq<OrderSummary>
    decreases orders.len(),
{
    if orders.len() == 0 {
        Seq::empty()
    } else {
        let rest = selected_orders(orders.drop_last(), shops, users, q, vis);
        let o = orders.last();
        let row = order_row(o, shops, users);
        if order_selected(o, q, vis) && row is Some && row_found(row->0, q) {
            seq![row->0] + rest
        } else {
            rest
        }
    }
}

proof fn lemma_selected_split(
    a: Seq<Order>,
    b: Seq<Order>,
    shops: Seq<ShopEntry>,
    users: Seq<UserEntry>,
    q: GetOrdersQuery,
    vis: Visibility,
)
    ensures
        selected_orders(a + b, shops, users, q, vis) == selected_orders(b, shops, users, q, vis)
            + selected_orders(a, shops, users, q, vis),
    decreases b.len(),
{
    let sa = selected_orders(a, shops, users, q, vis);
    if b.len() == 0 {
        assert(a + b =~= a);
        assert(Seq::<OrderSummary>::empty() + sa =~= sa);
    } else {
        lemma_selected_split(a, b.drop_last(), shops, users, q, vis);
        assert((a + b).drop_last() =~= a + b.drop_last());
        let sb = selected_orders(b.drop_last(), shops, users, q, vis);
        let row = order_row(b.last(), shops, users);
        if row is Some {
            assert(seq![row->0] + (sb + sa) =~= (seq![row->0] + sb) + sa);
        }
    }
}

/// Rows run from the latest order date to the earliest.
pub open spec fn newest_first(rows: Seq<OrderSummary>) -> bool {
    forall|i: int, j: int|
        0 <= i < j < rows.len() ==> (#[trigger] rows[i]).order_date >= (
        #[trigger] rows[j]).order_date
}

/// Where stamps never go back, the selected rows run newest first, none
/// later than the last order.
proof fn lemma_selected_newest_first(
    orders: Seq<Order>,
    shops: Seq<ShopEntry>,
    users: Seq<UserEntry>,
    q: GetOrdersQuery,
    vis: Visibility,
)
    requires
        stamps_nondecreasing(orders),
    ensures
        newest_first(selected_orders(orders, shops, users, q, vis)),
        orders.len() > 0 ==> forall|k: int|
            0 <= k < selected_orders(orders, shops, users, q, vis).len() ==> (
            #[trigger] selected_orders(orders, shops, users, q, vis)[k]).order_date
                <= orders.last().created_at,
    decreases orders.len(),
{
    if orders.len() > 0 {
        let prev = orders.drop_last();
        assert(stamps_nondecreasing(prev)) by {
            assert forall|i: int, j: int| 0 <= i < j < prev.len() implies (
            #[trigger] prev[i]).created_at <= (#[trigger] prev[j]).created_at by {
                assert(orders[i] == prev[i] && orders[j] == prev[j]);
            }
        }
        lemma_selected_newest_first(prev, shops, users, q, vis);
        if prev.len() > 0 {
            assert(orders[prev.len() - 1].created_at <= orders[orders.len() - 1].created_at);
        }
    }
}

/// A page of rows that run newest first runs newest first.
proof fn lemma_page_newest_first(rows: Seq<OrderSummary>, page: Option<usize>, per_page: Option<usize>)
    requires
        newest_first(rows),
    ensures
        newest_first(page_rows(rows, page, per_page)),
{
    let p = page_rows(rows, page, per_page);
    if page is Some && per_page is Some && per_page->0 > 0 && page->0 > 0 {
        let n = per_page->0 as int;
        let start = if (page->0 - 1) * n < rows.len() {
            (page->0 - 1) * n
        } else {
            rows.len() as int
        };
        assert forall|i: int, j: int| 0 <= i < j < p.len() implies (#[trigger] p[i]).order_date
            >= (#[trigger] p[j]).order_date by {
            assert(p[i] == rows[start + i] && p[j] == rows[start + j]);
        }
    }
}

/// Whether order `o` passes the filters of `q` under `vis`.
pub fn order_matches(o: &Order, q: &GetOrdersQuery, vis: Visibility) -> (r: bool)
    ensures
        r == order_selected(*o, *q, vis),
{
    if let Visibility::OwnOnly(u) = vis {
        if o.user_id != u {
            return false;
        }
    }
    if let (Some(from), Some(to)) = (q.from_date, q.to_date) {
        let day = o.created_at / 86400;
        if day < from || day > to {
            return false;
        }
    }
    if let (Some(from), Some(to)) = (q.from_amount, q.to_amount) {
        if o.total_amount < from || o.total_amount > to {
            return false;
        }
    }
    match &q.status {
        Some(s) => {
            let name = status_label(o.status);
            name == *s
        },
        None => true,
    }
}

/// Whether `row` is found by the search of `q`.
pub fn row_matches(row: &OrderSummary, q: &GetOrdersQuery) -> (r: bool)
    ensures
        r == row_found(*row, *q),
{
    match &q.search {
        Some(text) => {
            let needle = chars_of(text.as_str());
            let id = id_chars(row.order_id);
            let shop = chars_of(row.shop_name.as_str());
            let address = chars_of(row.shop_address.as_str());
            let user = chars_of(row.distributor_name.as_str());
            let name = status_label(row.status);
            let status = chars_of(name.as_str());
            occurs_in(&id, &needle) || occurs_in(&shop, &needle) || occurs_in(&address, &needle)
                || occurs_in(&user, &needle) || occurs_in(&status, &needle)
        },
        None => true,
    }
}

/// The listing row of `o`, where its shop and user are live.
fn summarize(o: &Order, shops: &Vec<ShopEntry>, users: &Vec<UserEntry>) -> (r: Option<
    OrderSummary,
>)
    ensures
        r == order_row(*o, shops@, users@),
{
    let s = match find_shop(shops, o.shop_id) {
        Some(i) => i,
        None => {
            return None;
        },
    };
    let u = match find_user(users, o.user_id) {
        Some(i) => i,
        None => {
            return None;
        },
    };
    let shop = &shops[s];
    let user = &users[u];
    Some(
        OrderSummary {
            order_id: o.order_id,
            shop_name: shop.shop_name.clone(),
            shop_address: shop.address.clone(),
            shop_latitude: shop.latitude,
            shop_longitude: shop.longitude,
            distributor_name: user.full_name.clone(),
            order_date: o.created_at,
            status: o.status,
            total_amount: o.total_amount,
        },
    )
}

/// What `get_orders` returns: the page that `q` asks for of the rows of the
/// orders that a caller in `role` with identifier `caller_id` may see, whose
/// shop and user are live, and that pass the filters and the search, newest
/// first.
pub open spec fn orders_read(
    store: OrderStore,
    q: GetOrdersQuery,
    role: Seq<char>,
    caller_id: i32,
    r: PaginationResult<OrderSummary>,
) -> bool {
    paged(
        selected_orders(store.orders@, store.shops@, store.users@, q, visibility_spec(role, caller_id)),
        q.page,
        q.per_page,
        r,
    )
}

impl OrderStore {
    /// Lists the orders that a caller in `role` may see and that pass the
    /// filters of `query`, newest first, one page at a time. Rows run from
    /// the latest order date to the earliest, as they do in every store that
    /// `add_order` built.
    pub fn get_orders(&self, query: &GetOrdersQuery, role: &str, caller_id: i32) -> (r:
        PaginationResult<OrderSummary>)
        ensures
            orders_read(*self, *query, role@, caller_id, r),
            stamps_nondecreasing(self.orders@) ==> newest_first(r.data@),
    {
        let vis = visibility(role, caller_id);
        let mut rows: Vec<OrderSummary> = Vec::new();
        let mut idx = self.orders.len();
        while idx > 0
            invariant
                0 <= idx <= self.orders@.len(),
                rows@ == selected_orders(
                    self.orders@.subrange(idx as int, self.orders@.len() as int),
                    self.shops@,
                    self.users@,
                    *query,
                    vis,
                ),
            decreases idx,
        {
            idx -= 1;
            let o = self.orders[idx];
            let ghost tail = self.orders@.subrange(idx + 1, self.orders@.len() as int);
            let ghost single = selected_orders(seq![o], self.shops@, self.users@, *query, vis);
            proof {
                let all = self.orders@;
                assert(all.subrange(idx as int, all.len() as int) =~= seq![o] + tail);
                lemma_selected_split(seq![o], tail, self.shops@, self.users@, *query, vis);
                assert(seq![o].drop_last() =~= Seq::<Order>::empty());
                assert(seq![o].last() == o);
                assert(selected_orders(Seq::<Order>::empty(), self.shops@, self.users@, *query, vis)
                    == Seq::<OrderSummary>::empty());
            }
            if order_matches(&o, query, vis) {
                if let Some(row) = summarize(&o, &self.shops, &self.users) {
                    if row_matches(&row, query) {
                        rows.push(row);
                        proof {
                            assert(seq![row] + Seq::<OrderSummary>::empty() =~= seq![row]);
                            assert(single =~= seq![row]);
                        }
                    } else {
                        proof {
                            assert(single =~= Seq::<OrderSummary>::empty());
                        }
                    }
                } else {
                    proof {
                        assert(single =~= Seq::<OrderSummary>::empty());
                    }
                }
            } else {
                proof {
                    assert(single =~= Seq::<OrderSummary>::empty());
                }
            }
            proof {
                assert(rows@ =~= selected_orders(tail, self.shops@, self.users@, *query, vis)
                    + single);
            }
        }
        proof {
            assert(self.orders@.subrange(0, self.orders@.len() as int) =~= self.orders@);
            if stamps_nondecreasing(self.orders@) {
                lemma_selected_newest_first(self.orders@, self.shops@, self.users@, *query, vis);
                lemma_page_newest_first(rows@, query.page, query.per_page);
            }
        }
        paginate(rows, query.page, query.per_page)
    }
}

/// The filters of a listing of order lines: one order's lines, or all;
/// unit prices at order time within a range, which applies only where both
/// its ends are given; and a search text that matches a line whose own
/// identifier or whose order's identifier, in decimal, or whose product
/// name or listing type name contains it.
#[derive(Clone, Debug)]
pub struct GetOrderDetailsQuery {
    pub search: Option<String>,
    pub page: Option<usize>,
    pub per_page: Option<usize>,
    pub order_id: Option<i32>,
    pub from_amount: Option<u64>,
    pub to_amount: Option<u64>,
}

/// A row of the order-line listing: the line with its listing's product and
/// type, and the name of its discount where it had one that is recorded.
#[derive(Clone, Debug, PartialEq, Eq)]
pub struct OrderLine {
    pub order_detail_id: i32,
    pub order_id: i32,
    pub price_id: i32,
    pub product_name: String,
    pub price_type: PriceType,
    pub quantity: i32,
    pub price_at_order: u64,
    pub discount_id: Option<i32>,
    pub discount_name: Option<String>,
}

/// The name of the discount `id`, where a line had one and it is recorded.
pub open spec fn discount_name_of(discounts: Seq<DiscountEntry>, id: Option<i32>) -> Option<
    String,
> {
    match id {
        Some(i) => match named_discount(discounts, i) {
            Some(e) => Some(e.discount_name),
            None => None,
        },
        None => None,
    }
}

/// The listing row of line `d`, where its listing is live and the listing's
/// product is live.
pub open spec fn line_row(
    d: OrderDetail,
    prices: Seq<Price>,
    products: Seq<ProductEntry>,
    discounts: Seq<DiscountEntry>,
) -> Option<OrderLine> {
    if listed(prices, d.price_id as int) {
        let p = listing(prices, d.price_id as int);
        match live_product(products, p.product_id) {
            Some(prod) => Some(
                OrderLine {
                    order_detail_id: d.order_detail_id,
                    order_id: d.order_id,
                    price_id: d.price_id,
                    product_name: prod.product_name,
                    price_type: p.price_type,
                    quantity: d.quantity,
                    price_at_order: d.price_at_order,
                    discount_id: d.discount_id,
                    discount_name: discount_name_of(discounts, d.discount_id),
                },
            ),
            None => None,
        }
    } else {
        None
    }
}

/// Line `d` passes the order and price filters of `q`.
pub open spec fn detail_selected(d: OrderDetail, q: GetOrderDetailsQuery) -> bool {
    &&& (q.order_id is Some ==> d.order_id == q.order_id->0)
    &&& (q.from_amount is Some && q.to_amount is Some ==> q.from_amount->0 <= d.price_at_order
        <= q.to_amount->0)
}

/// Row `row` is found by the search of `q`.
pub open spec fn line_found(row: OrderLine, q: GetOrderDetailsQuery) -> bool {
    q.search is Some ==> {
        let t = q.search->0@;
        contains(id_text(row.order_detail_id), t) || contains(id_text(row.order_id), t)
            || contains(row.product_name@, t) || contains(price_type_name(row.price_type), t)
    }
}

/// The rows of the selected lines, in the order they were recorded; the
/// listing orders them by product name.
pub open spec fn selected_lines(
    ds: Seq<OrderDetail>,
    prices: Seq<Price>,
    products: Seq<ProductEntry>,
    discounts: Seq<DiscountEntry>,
    q: GetOrderDetailsQuery,
) -> Seq<OrderLine>
    decreases ds.len(),
{
    if ds.len() == 0 {
        Seq::empty()
    } else {
        let rest = selected_lines(ds.drop_last(), prices, products, discounts, q);
        let d = ds.last();
        let row = line_row(d, prices, products, discounts);
        if detail_selected(d, q) && row is Some && line_found(row->0, q) {
            rest.push(row->0)
        } else {
            rest
        }
    }
}

/// `a` comes no later than `b` in code-point order, character by character.
pub open spec fn name_le(a: Seq<char>, b: Seq<char>) -> bool
    decreases a.len(),
{
    if a.len() == 0 {
        true
    } else if b.len() == 0 {
        false
    } else if (a[0] as u32) != (b[0] as u32) {
        (a[0] as u32) < (b[0] as u32)
    } else {
        name_le(a.skip(1), b.skip(1))
    }
}

/// `x` put into `rows` after every row whose product name comes no later
/// than its own, scanning back from the end.
pub open spec fn insert_by_name(rows: Seq<OrderLine>, x: OrderLine) -> Seq<OrderLine>
    decreases rows.len(),
{
    if rows.len() == 0 {
        seq![x]
    } else if name_le(rows.last().product_name@, x.product_name@) {
        rows.push(x)
    } else {
        insert_by_name(rows.drop_last(), x).push(rows.last())
    }
}

/// `rows` ordered by product name; rows with the same name keep their order.
pub open spec fn sort_by_name(rows: Seq<OrderLine>) -> Seq<OrderLine>
    decreases rows.len(),
{
    if rows.len() == 0 {
        Seq::empty()
    } else {
        insert_by_name(sort_by_name(rows.drop_last()), rows.last())
    }
}

/// Rows run in order of product name.
pub open spec fn sorted_by_name(rows: Seq<OrderLine>) -> bool {
    forall|i: int, j: int|
        0 <= i < j < rows.len() ==> name_le(
            (#[trigger] rows[i]).product_name@,
            (#[trigger] rows[j]).product_name@,
        )
}

proof fn lemma_name_le_total(a: Seq<char>, b: Seq<char>)
    ensures
        name_le(a, b) || name_le(b, a),
    decreases a.len(),
{
    if a.len() > 0 && b.len() > 0 && (a[0] as u32) == (b[0] as u32) {
        lemma_name_le_total(a.skip(1), b.skip(1));
    }
}

proof fn lemma_name_le_trans(a: Seq<char>, b: Seq<char>, c: Seq<char>)
    requires
        name_le(a, b),
        name_le(b, c),
    ensures
        name_le(a, c),
    decreases a.len(),
{
    if a.len() > 0 && b.len() > 0 && c.len() > 0 && (a[0] as u32) == (b[0] as u32) && (b[0]
        as u32) == (c[0] as u32) {
        lemma_name_le_trans(a.skip(1), b.skip(1), c.skip(1));
    }
}

/// Putting a row into sorted rows keeps them sorted, and adds nothing but
/// that row.
proof fn lemma_insert_sorted(rows: Seq<OrderLine>, x: OrderLine)
    requires
        sorted_by_name(rows),
    ensures
        sorted_by_name(insert_by_name(rows, x)),
        forall|k: int|
            0 <= k < insert_by_name(rows, x).len() ==> #[trigger] insert_by_name(rows, x)[k] == x
                || rows.contains(insert_by_name(rows, x)[k]),
    decreases rows.len(),
{
    let r = insert_by_name(rows, x);
    if rows.len() == 0 {
    } else if name_le(rows.last().product_name@, x.product_name@) {
        assert forall|i: int, j: int| 0 <= i < j < r.len() implies name_le(
            (#[trigger] r[i]).product_name@,
            (#[trigger] r[j]).product_name@,
        ) by {
            if j == rows.len() && i < rows.len() - 1 {
                lemma_name_le_trans(
                    rows[i].product_name@,
                    rows.last().product_name@,
                    x.product_name@,
                );
            }
        }
        assert forall|k: int| 0 <= k < r.len() implies #[trigger] r[k] == x || rows.contains(
            r[k],
        ) by {
            if k < rows.len() {
                assert(rows[k] == r[k]);
            }
        }
    } else {
        let prev = rows.drop_last();
        let last = rows.last();
        assert(sorted_by_name(prev)) by {
            assert forall|i: int, j: int| 0 <= i < j < prev.len() implies name_le(
                (#[trigger] prev[i]).product_name@,
                (#[trigger] prev[j]).product_name@,
            ) by {
                assert(prev[i] == rows[i] && prev[j] == rows[j]);
            }
        }
        lemma_insert_sorted(prev, x);
        let q = insert_by_name(prev, x);
        lemma_name_le_total(last.product_name@, x.product_name@);
        assert forall|k: int| 0 <= k < q.len() implies name_le(
            (#[trigger] q[k]).product_name@,
            last.product_name@,
        ) by {
            if q[k] != x {
                assert(prev.contains(q[k]));
                let i = choose|i: int| 0 <= i < prev.len() && prev[i] == q[k];
                assert(rows[i] == prev[i]);
                assert(rows[rows.len() - 1] == last);
            }
        }
        assert forall|i: int, j: int| 0 <= i < j < r.len() implies name_le(
            (#[trigger] r[i]).product_name@,
            (#[trigger] r[j]).product_name@,
        ) by {
            if j == q.len() {
                assert(r[i] == q[i]);
            } else {
                assert(r[i] == q[i] && r[j] == q[j]);
            }
        }
        assert forall|k: int| 0 <= k < r.len() implies #[trigger] r[k] == x || rows.contains(
            r[k],
        ) by {
            if k == q.len() {
                assert(rows[rows.len() - 1] == r[k]);
            } else {
                assert(r[k] == q[k]);
                if q[k] != x {
                    let i = choose|i: int| 0 <= i < prev.len() && prev[i] == q[k];
                    assert(rows[i] == prev[i]);
                }
            }
        }
    }
}

/// `sort_by_name` orders rows by product name.
pub proof fn lemma_sort_by_name_sorted(rows: Seq<OrderLine>)
    ensures
        sorted_by_name(sort_by_name(rows)),
    decreases rows.len(),
{
    if rows.len() > 0 {
        lemma_sort_by_name_sorted(rows.drop_last());
        lemma_insert_sorted(sort_by_name(rows.drop_last()), rows.last());
    }
}

/// A page of rows sorted by name is sorted by name.
proof fn lemma_page_sorted_by_name(rows: Seq<OrderLine>, page: Option<usize>, per_page: Option<usize>)
    requires
        sorted_by_name(rows),
    ensures
        sorted_by_name(page_rows(rows, page, per_page)),
{
    let p = page_rows(rows, page, per_page);
    if page is Some && per_page is Some && per_page->0 > 0 && page->0 > 0 {
        let n = per_page->0 as int;
        let start = if (page->0 - 1) * n < rows.len() {
            (page->0 - 1) * n
        } else {
            rows.len() as int
        };
        assert forall|i: int, j: int| 0 <= i < j < p.len() implies name_le(
            (#[trigger] p[i]).product_name@,
            (#[trigger] p[j]).product_name@,
        ) by {
            assert(p[i] == rows[start + i] && p[j] == rows[start + j]);
        }
    }
}

/// Whether `a` comes no later than `b` in code-point order.
fn names_in_order(a: &str, b: &str) -> (r: bool)
    ensures
        r == name_le(a@, b@),
{
    let x = chars_of(a);
    let y = chars_of(b);
    let mut i: usize = 0;
    proof {
        assert(x@.skip(0) =~= x@);
        assert(y@.skip(0) =~= y@);
    }
    while i < x.len() && i < y.len() && (x[i] as u32) == (y[i] as u32)
        invariant
            0 <= i <= x@.len(),
            i <= y@.len(),
            name_le(x@, y@) == name_le(x@.skip(i as int), y@.skip(i as int)),
        decreases x@.len() - i,
    {
        proof {
            assert(x@.skip(i as int).skip(1) =~= x@.skip(i + 1));
            assert(y@.skip(i as int).skip(1) =~= y@.skip(i + 1));
        }
        i += 1;
    }
    proof {
        assert(x@.skip(i as int).len() == 0 ==> true);
    }
    if i == x.len() {
        true
    } else if i == y.len() {
        false
    } else {
        proof {
            assert(x@.skip(i as int)[0] == x@[i as int]);
            assert(y@.skip(i as int)[0] == y@[i as int]);
        }
        (x[i] as u32) < (y[i] as u32)
    }
}

/// Puts `x` into `rows` as `insert_by_name` does.
fn insert_row(rows: &mut Vec<OrderLine>, x: OrderLine)
    ensures
        final(rows)@ == insert_by_name(old(rows)@, x),
{
    let ghost s = rows@;
    let mut j = rows.len();
    proof {
        assert(s.subrange(0, s.len() as int) =~= s);
        assert(insert_by_name(s, x) + s.subrange(s.len() as int, s.len() as int) =~= insert_by_name(
            s,
            x,
        ));
    }
    while j > 0 && !names_in_order(rows[j - 1].product_name.as_str(), x.product_name.as_str())
        invariant
            rows@ == s,
            0 <= j <= s.len(),
            insert_by_name(s, x) == insert_by_name(s.subrange(0, j as int), x) + s.subrange(
                j as int,
                s.len() as int,
            ),
        decreases j,
    {
        proof {
            let pre = s.subrange(0, j as int);
            assert(pre.drop_last() =~= s.subrange(0, j - 1));
            assert(pre.last() == s[j - 1]);
            assert(insert_by_name(s.subrange(0, j - 1), x).push(s[j - 1]) + s.subrange(
                j as int,
                s.len() as int,
            ) =~= insert_by_name(s.subrange(0, j - 1), x) + s.subrange(j - 1, s.len() as int));
        }
        j -= 1;
    }
    proof {
        let pre = s.subrange(0, j as int);
        if j > 0 {
            assert(pre.last() == s[j - 1]);
        }
        assert(insert_by_name(pre, x) =~= pre.push(x));
    }
    rows.insert(j, x);
    proof {
        assert(rows@ =~= s.subrange(0, j as int).push(x) + s.subrange(j as int, s.len() as int));
    }
}

/// `rows` ordered as `sort_by_name` orders them.
fn sort_rows(rows: Vec<OrderLine>) -> (r: Vec<OrderLine>)
    ensures
        r@ == sort_by_name(rows@),
{
    let ghost all = rows@;
    let n = rows.len();
    let mut rest = rows;
    let mut sorted: Vec<OrderLine> = Vec::new();
    let mut i: usize = 0;
    proof {
        assert(all.subrange(0, 0) =~= Seq::<OrderLine>::empty());
        assert(all.subrange(0, n as int) =~= all);
    }
    while i < n
        invariant
            n == all.len(),
            0 <= i <= n,
            rest@ == all.subrange(i as int, n as int),
            sorted@ == sort_by_name(all.subrange(0, i as int)),
        decreases n - i,
    {
        proof {
            assert(all.subrange(0, i + 1).drop_last() =~= all.subrange(0, i as int));
        }
        let x = rest.remove(0);
        proof {
            assert(rest@ =~= all.subrange(i + 1, n as int));
        }
        insert_row(&mut sorted, x);
        i += 1;
    }
    sorted
}

/// Whether line `d` passes the order and price filters of `q`.
pub fn detail_matches(d: &OrderDetail, q: &GetOrderDetailsQuery) -> (r: bool)
    ensures
        r == detail_selected(*d, *q),
{
    if let Some(id) = q.order_id {
        if d.order_id != id {
            return false;
        }
    }
    if let (Some(from), Some(to)) = (q.from_amount, q.to_amount) {
        if d.price_at_order < from || d.price_at_order > to {
            return false;
        }
    }
    true
}

/// Whether `row` is found by the search of `q`.
pub fn line_matches(row: &OrderLine, q: &GetOrderDetailsQuery) -> (r: bool)
    ensures
        r == line_found(*row, *q),
{
    match &q.search {
        Some(text) => {
            let needle = chars_of(text.as_str());
            let own = id_chars(row.order_detail_id);
            let order = id_chars(row.order_id);
            let product = chars_of(row.product_name.as_str());
            let name = price_type_label(row.price_type);
            let kind = chars_of(name.as_str());
            occurs_in(&own, &needle) || occurs_in(&order, &needle) || occurs_in(&product, &needle)
                || occurs_in(&kind, &needle)
        },
        None => true,
    }
}

impl OrderStore {
    /// The listing row of line `d`, where its listing and product are live.
    fn line_of(&self, d: &OrderDetail) -> (r: Option<OrderLine>)
        requires
            self.ledger.wf(),
        ensures
            r == line_row(*d, self.ledger.prices@, self.products@, self.discount_names@),
    {
        if d.price_id < 1 || d.price_id as usize > self.ledger.prices.len() {
            return None;
        }
        let p = self.ledger.prices[(d.price_id - 1) as usize];
        if p.deleted {
            return None;
        }
        let prod = match find_product(&self.products, p.product_id) {
            Some(i) => i,
            None => {
                return None;
            },
        };
        let discount_name = match d.discount_id {
            Some(id) => match find_discount(&self.discount_names, id) {
                Some(i) => Some(self.discount_names[i].discount_name.clone()),
                None => None,
            },
            None => None,
        };
        Some(
            OrderLine {
                order_detail_id: d.order_detail_id,
                order_id: d.order_id,
                price_id: d.price_id,
                product_name: self.products[prod].product_name.clone(),
                price_type: p.price_type,
                quantity: d.quantity,
                price_at_order: d.price_at_order,
                discount_id: d.discount_id,
                discount_name,
            },
        )
    }

    /// Lists the recorded order lines whose listing and product are live and
    /// that pass the filters of `query`, ordered by product name (lines of
    /// one product in the order they were recorded), one page at a time.
    pub fn get_order_details(&self, query: &GetOrderDetailsQuery) -> (r: PaginationResult<
        OrderLine,
    >)
        requires
            self.ledger.wf(),
        ensures
            paged(
                sort_by_name(
                    selected_lines(
                        self.details@,
                        self.ledger.prices@,
                        self.products@,
                        self.discount_names@,
                        *query,
                    ),
                ),
                query.page,
                query.per_page,
                r,
            ),
            sorted_by_name(r.data@),
    {
        let mut rows: Vec<OrderLine> = Vec::new();
        let mut i: usize = 0;
        while i < self.details.len()
            invariant
                self.ledger.wf(),
                0 <= i <= self.details@.len(),
                rows@ == selected_lines(
                    self.details@.subrange(0, i as int),
                    self.ledger.prices@,
                    self.products@,
                    self.discount_names@,
                    *query,
                ),
            decreases self.details@.len() - i,
        {
            let d = self.details[i];
            proof {
                assert(self.details@.subrange(0, i + 1).drop_last() =~= self.details@.subrange(
                    0,
                    i as int,
                ));
            }
            if detail_matches(&d, query) {
                if let Some(row) = self.line_of(&d) {
                    if line_matches(&row, query) {
                        rows.push(row);
                    }
                }
            }
            i += 1;
        }
        proof {
            assert(self.details@.subrange(0, self.details@.len() as int) =~= self.details@);
        }
        let sorted = sort_rows(rows);
        proof {
            lemma_sort_by_name_sorted(rows@);
            lemma_page_sorted_by_name(sorted@, query.page, query.per_page);
        }
        paginate(sorted, query.page, query.per_page)
    }
}

/// Reading twice with the same filters and no write between gives the same
/// result: what `get_orders` returns is fixed by the store and the filters.
pub proof fn lemma_read_is_repeatable(
    store: OrderStore,
    q: GetOrdersQuery,
    role: Seq<char>,
    caller_id: i32,
    r1: PaginationResult<OrderSummary>,
    r2: PaginationResult<OrderSummary>,
)
    requires
        orders_read(store, q, role, caller_id, r1),
        orders_read(store, q, role, caller_id, r2),
    ensures
        r1.data@ == r2.data@,
        r1.total == r2.total,
        r1.page == r2.page,
        r1.per_page == r2.per_page,
        r1.page_counts == r2.page_counts,
{
}

} // verus!
