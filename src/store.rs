//! The reservation coordinator: places an order against the ledger as one
//! all-or-nothing step.

use vstd::prelude::*;
use crate::directory::{find_shop, live_shop, DiscountEntry, ProductEntry, ShopEntry, UserEntry};
use crate::discount::{active_discount, DiscountBook, DiscountLink};
use crate::ledger::{listed, listing, reserve_spec, Price, PriceLedger};
use crate::order::{
    details_total, lemma_order_sum_absent, lemma_order_sum_append, lemma_order_sum_single,
    order_sum, order_total, Order, OrderDetail, OrderDetailRequest, OrderRequest, OrderStatus,
};

verus! {

/// Why an order could not be placed, other than a shortfall of stock.
#[derive(Clone, Copy, Debug, PartialEq, Eq, Structural)]
pub enum OrderError {
    /// A line asks for zero or fewer units.
    InvalidQuantity,
    /// No identifier is left for the order or for one of its lines.
    CapacityExhausted,
    /// The order's total does not fit in a `u64`.
    AmountOverflow,
}

/// What `add_order` returns when the stock does not cover the order.
pub const UNAVAILABLE: i32 = 0;

/// The ledger after reserving every line in turn, or `None` where some line
/// cannot be reserved at its turn.
pub open spec fn apply_lines(prices: Seq<Price>, lines: Seq<OrderDetailRequest>) -> Option<
    Seq<Price>,
>
    decreases lines.len(),
{
    if lines.len() == 0 {
        Some(prices)
    } else {
        match apply_lines(prices, lines.drop_last()) {
            Some(p) => reserve_spec(p, lines.last().price_id, lines.last().quantity),
            None => None,
        }
    }
}

/// Every line asks for at least one unit.
pub open spec fn lines_positive(lines: Seq<OrderDetailRequest>) -> bool {
    forall|i: int| 0 <= i < lines.len() ==> (#[trigger] lines[i]).quantity > 0
}

/// The lines of order `order_id`, numbered from `first_id`, each with the
/// listing's unit price and the discount in force.
pub open spec fn new_details(
    prices: Seq<Price>,
    links: Seq<DiscountLink>,
    lines: Seq<OrderDetailRequest>,
    order_id: i32,
    first_id: int,
) -> Seq<OrderDetail> {
    Seq::new(
        lines.len(),
        |k: int|
            OrderDetail {
                order_detail_id: (first_id + k) as i32,
                order_id,
                price_id: lines[k].price_id,
                quantity: lines[k].quantity,
                price_at_order: listing(prices, lines[k].price_id as int).price,
                discount_id: active_discount(links, lines[k].price_id),
            },
    )
}

/// Orders are stamped in the order they were placed: no stamp is earlier
/// than the one before it.
pub open spec fn stamps_nondecreasing(orders: Seq<Order>) -> bool {
    forall|i: int, j: int|
        0 <= i < j < orders.len() ==> (#[trigger] orders[i]).created_at <= (
        #[trigger] orders[j]).created_at
}

/// The stamp of an order placed at `now` after `orders`: `now`, or the
/// latest stamp so far where `now` is earlier, so that stamps never go back.
pub open spec fn stamp(orders: Seq<Order>, now: u64) -> u64 {
    if orders.len() > 0 && orders.last().created_at > now {
        orders.last().created_at
    } else {
        now
    }
}

/// Orders are numbered from 1, lines too; every line belongs to an order
/// and asks for at least one unit; every order's total is the sum of its
/// lines; stamps never go back.
pub open spec fn books_wf(orders: Seq<Order>, details: Seq<OrderDetail>) -> bool {
    &&& stamps_nondecreasing(orders)
    &&& orders.len() < i32::MAX
    &&& details.len() < i32::MAX
    &&& forall|i: int|
        0 <= i < orders.len() ==> (#[trigger] orders[i]).order_id == i + 1
            && orders[i].total_amount == order_sum(details, (i + 1) as i32)
    &&& forall|k: int|
        0 <= k < details.len() ==> (#[trigger] details[k]).order_detail_id == k + 1 && 1
            <= details[k].order_id <= orders.len() && details[k].quantity > 0
}

/// The ledger, the discount links, the shops, users, products and discounts
/// that orders name, and the orders with their lines.
pub struct OrderStore {
    pub ledger: PriceLedger,
    pub discounts: DiscountBook,
    pub shops: Vec<ShopEntry>,
    pub users: Vec<UserEntry>,
    pub products: Vec<ProductEntry>,
    pub discount_names: Vec<DiscountEntry>,
    pub orders: Vec<Order>,
    pub details: Vec<OrderDetail>,
}

impl OrderStore {
    pub open spec fn wf(&self) -> bool {
        self.ledger.wf() && books_wf(self.orders@, self.details@)
    }

    /// Room is left for one more order with `n` lines.
    pub open spec fn has_room(&self, n: int) -> bool {
        self.orders@.len() + 1 < i32::MAX && self.details@.len() + n < i32::MAX
    }

    /// The lines that placing `lines` would record.
    pub open spec fn placed_details(&self, lines: Seq<OrderDetailRequest>) -> Seq<OrderDetail> {
        new_details(
            self.ledger.prices@,
            self.discounts.links@,
            lines,
            (self.orders@.len() + 1) as i32,
            self.details@.len() + 1 as int,
        )
    }

    /// The order can be placed: quantities are positive, the shop is live,
    /// stock covers every line, identifiers remain, and the total fits.
    pub open spec fn admissible(&self, shop_id: i32, lines: Seq<OrderDetailRequest>) -> bool {
        &&& lines_positive(lines)
        &&& live_shop(self.shops@, shop_id) is Some
        &&& apply_lines(self.ledger.prices@, lines) is Some
        &&& self.has_room(lines.len() as int)
        &&& details_total(self.placed_details(lines)) <= u64::MAX
    }

    /// What `add_order` does: `post` and `r` are the outcome of placing `data`
    /// for `user_id` at time `now` on `pre`.
    pub open spec fn placement_step(
        pre: OrderStore,
        data: OrderRequest,
        user_id: i32,
        now: u64,
        r: Result<i32, OrderError>,
        post: OrderStore,
    ) -> bool {
        let lines = data.order_details@;
        let before = pre.ledger.prices@;
        let shop_live = live_shop(pre.shops@, data.shop_id) is Some;
        &&& post.wf()
        &&& (r == Err::<i32, OrderError>(OrderError::InvalidQuantity) <==> !lines_positive(lines))
        &&& (r == Ok::<i32, OrderError>(UNAVAILABLE) <==> lines_positive(lines) && (!shop_live
            || apply_lines(before, lines) is None))
        &&& (r == Err::<i32, OrderError>(OrderError::CapacityExhausted) <==> lines_positive(lines)
            && shop_live && apply_lines(before, lines) is Some && !pre.has_room(
            lines.len() as int,
        ))
        &&& (r == Err::<i32, OrderError>(OrderError::AmountOverflow) <==> lines_positive(lines)
            && shop_live && apply_lines(before, lines) is Some && pre.has_room(lines.len() as int)
            && details_total(pre.placed_details(lines)) > u64::MAX)
        &&& (pre.admissible(data.shop_id, lines) <==> (r is Ok && r != Ok::<i32, OrderError>(
            UNAVAILABLE,
        )))
        &&& (!pre.admissible(data.shop_id, lines) ==> post == pre)
        &&& (pre.admissible(data.shop_id, lines) ==> {
            let id = (pre.orders@.len() + 1) as i32;
            let ds = pre.placed_details(lines);
            &&& r == Ok::<i32, OrderError>(id)
            &&& post.ledger.prices@ == apply_lines(before, lines)->0
            &&& post.discounts == pre.discounts
            &&& post.shops == pre.shops
            &&& post.users == pre.users
            &&& post.products == pre.products
            &&& post.discount_names == pre.discount_names
            &&& post.orders@ == pre.orders@.push(
                Order {
                    order_id: id,
                    shop_id: data.shop_id,
                    user_id,
                    status: OrderStatus::Pending,
                    total_amount: details_total(ds) as u64,
                    created_at: stamp(pre.orders@, now),
                },
            )
            &&& post.details@ == pre.details@ + ds
        })
    }

    /// A store with no listings, links or orders.
    pub fn new() -> (r: OrderStore)
        ensures
            r.wf(),
            r.ledger.prices@.len() == 0,
            r.discounts.links@.len() == 0,
            r.shops@.len() == 0,
            r.users@.len() == 0,
            r.products@.len() == 0,
            r.discount_names@.len() == 0,
            r.orders@.len() == 0,
            r.details@.len() == 0,
    {
        OrderStore {
            ledger: PriceLedger::new(),
            discounts: DiscountBook::new(),
            shops: Vec::new(),
            users: Vec::new(),
            products: Vec::new(),
            discount_names: Vec::new(),
            orders: Vec::new(),
            details: Vec::new(),
        }
    }

    /// Places an order for shop `data.shop_id` on behalf of `user_id` at time
    /// `now`, as one transaction. Every line is checked against the stock
    /// first; if any falls short, or names a listing that is gone, or the
    /// shop is gone, nothing is written and `UNAVAILABLE` comes back. Otherwise the stock of every line
    /// is taken, the order is recorded as pending with one line per request,
    /// each carrying the listing's current price and discount, and the total
    /// is the sum of those lines. The order is stamped `now`, or the latest
    /// stamp so far where `now` is earlier, so that stamps never go back. On
    /// any error nothing is written either.
    pub fn add_order(&mut self, data: &OrderRequest, user_id: i32, now: u64) -> (r: Result<
        i32,
        OrderError,
    >)
        requires
            old(self).wf(),
        ensures
            OrderStore::placement_step(*old(self), *data, user_id, now, r, *final(self)),
    {
        let n = data.order_details.len();
        let ghost before = self.ledger.prices@;
        let mut i: usize = 0;
        while i < n
            invariant
                n == data.order_details@.len(),
                *self == *old(self),
                old(self).wf(),
                0 <= i <= n,
                forall|j: int| 0 <= j < i ==> (#[trigger] data.order_details@[j]).quantity > 0,
            decreases n - i,
        {
            if data.order_details[i].quantity <= 0 {
                proof {
                    assert(!lines_positive(data.order_details@));
                }
                return Err(OrderError::InvalidQuantity);
            }
            i += 1;
        }
        if find_shop(&self.shops, data.shop_id).is_none() {
            return Ok(UNAVAILABLE);
        }
        // Validation runs on a private copy of the ledger, which replaces the
        // store's own only once the whole order has been accepted.
        let mut copy: Vec<Price> = Vec::new();
        let mut c: usize = 0;
        while c < self.ledger.prices.len()
            invariant
                self.ledger.prices@ == before,
                *self == *old(self),
                old(self).wf(),
                live_shop(self.shops@, data.shop_id) is Some,
                lines_positive(data.order_details@),
                n == data.order_details@.len(),
                0 <= c <= before.len(),
                copy@ == before.subrange(0, c as int),
            decreases before.len() - c,
        {
            copy.push(self.ledger.prices[c]);
            c += 1;
        }
        proof {
            assert(copy@ =~= before);
        }
        let mut work = PriceLedger { prices: copy };
        let mut j: usize = 0;
        while j < n
            invariant
                n == data.order_details@.len(),
                self.ledger.prices@ == before,
                lines_positive(data.order_details@),
                live_shop(self.shops@, data.shop_id) is Some,
                old(self).wf(),
                *self == *old(self),
                0 <= j <= n,
                work.wf(),
                apply_lines(before, data.order_details@.subrange(0, j as int)) == Some(work.prices@),
            decreases n - j,
        {
            proof {
                assert(data.order_details@.subrange(0, j + 1).drop_last()
                    =~= data.order_details@.subrange(0, j as int));
            }
            match work.reserve(data.order_details[j].price_id, data.order_details[j].quantity) {
                Ok(_) => {},
                Err(_) => {
                    proof {
                        lemma_apply_prefix_none(before, data.order_details@, j + 1);
                    }
                    return Ok(UNAVAILABLE);
                },
            }
            j += 1;
        }
        proof {
            assert(data.order_details@.subrange(0, n as int) =~= data.order_details@);
        }
        if self.orders.len() + 1 >= i32::MAX as usize || n >= i32::MAX as usize - self.details.len() {
            return Err(OrderError::CapacityExhausted);
        }
        let order_id = (self.orders.len() + 1) as i32;
        let first = self.details.len() + 1;
        let ghost ds = self.placed_details(data.order_details@);
        let mut staged: Vec<OrderDetail> = Vec::new();
        let mut k: usize = 0;
        while k < n
            invariant
                n == data.order_details@.len(),
                *self == *old(self),
                self.wf(),
                first == self.details@.len() + 1,
                first + n <= i32::MAX,
                order_id == self.orders@.len() + 1,
                ds == self.placed_details(data.order_details@),
                apply_lines(before, data.order_details@) is Some,
                self.ledger.prices@ == before,
                lines_positive(data.order_details@),
                live_shop(self.shops@, data.shop_id) is Some,
                0 <= k <= n,
                staged@ == ds.subrange(0, k as int),
            decreases n - k,
        {
            let line = data.order_details[k];
            proof {
                lemma_applied_lines_listed(before, data.order_details@, k as int);
            }
            let price = self.ledger.prices[(line.price_id - 1) as usize].price;
            let discount_id = self.discounts.active_discount_for(line.price_id);
            staged.push(
                OrderDetail {
                    order_detail_id: (first + k) as i32,
                    order_id,
                    price_id: line.price_id,
                    quantity: line.quantity,
                    price_at_order: price,
                    discount_id,
                },
            );
            proof {
                assert(staged@ =~= ds.subrange(0, k + 1));
            }
            k += 1;
        }
        proof {
            assert(staged@ =~= ds);
            assert(crate::order::quantities_nonnegative(staged@));
        }
        let total = match order_total(&staged) {
            Some(t) => t,
            None => {
                return Err(OrderError::AmountOverflow);
            },
        };
        proof {
            crate::order::lemma_details_total_nonnegative(ds);
        }
        let created_at = if self.orders.len() > 0 && self.orders[self.orders.len() - 1].created_at
            > now {
            self.orders[self.orders.len() - 1].created_at
        } else {
            now
        };
        self.ledger = work;
        self.orders.push(
            Order {
                order_id,
                shop_id: data.shop_id,
                user_id,
                status: OrderStatus::Pending,
                total_amount: total,
                created_at,
            },
        );
        self.details.append(&mut staged);
        proof {
            lemma_books_extend(old(self).orders@, old(self).details@, ds, self.orders@.last());
            assert(self.orders@ =~= old(self).orders@.push(self.orders@.last()));
        }
        Ok(order_id)
    }
}

/// Once a prefix of the lines cannot be reserved, the whole order cannot.
pub proof fn lemma_apply_prefix_none(prices: Seq<Price>, lines: Seq<OrderDetailRequest>, k: int)
    requires
        0 <= k <= lines.len(),
        apply_lines(prices, lines.subrange(0, k)) is None,
    ensures
        apply_lines(prices, lines) is None,
    decreases lines.len(),
{
    if k == lines.len() {
        assert(lines.subrange(0, k) =~= lines);
    } else {
        assert(lines.drop_last().subrange(0, k) =~= lines.subrange(0, k));
        lemma_apply_prefix_none(prices, lines.drop_last(), k);
    }
}

/// Reserving lines keeps the ledger's shape: the same listings, prices and
/// deletion marks, with stock that only goes down.
pub proof fn lemma_apply_keeps_listings(prices: Seq<Price>, lines: Seq<OrderDetailRequest>)
    requires
        apply_lines(prices, lines) is Some,
    ensures
        ({
            let q = apply_lines(prices, lines)->0;
            &&& q.len() == prices.len()
            &&& forall|i: int|
                0 <= i < prices.len() ==> (#[trigger] q[i]).price_id == prices[i].price_id
                    && q[i].price == prices[i].price && q[i].deleted == prices[i].deleted
                    && q[i].remaining_quantity <= prices[i].remaining_quantity
        }),
    decreases lines.len(),
{
    if lines.len() > 0 {
        lemma_apply_keeps_listings(prices, lines.drop_last());
    }
}

/// Where every line can be reserved, every line names a listed listing.
pub proof fn lemma_applied_lines_listed(prices: Seq<Price>, lines: Seq<OrderDetailRequest>, k: int)
    requires
        apply_lines(prices, lines) is Some,
        0 <= k < lines.len(),
    ensures
        listed(prices, lines[k].price_id as int),
    decreases lines.len(),
{
    lemma_apply_keeps_listings(prices, lines.drop_last());
    if k < lines.len() - 1 {
        lemma_applied_lines_listed(prices, lines.drop_last(), k);
    }
}

/// Recording a new order whose lines all carry its identifier keeps the
/// books well formed.
proof fn lemma_books_extend(
    orders: Seq<Order>,
    details: Seq<OrderDetail>,
    ds: Seq<OrderDetail>,
    t: Order,
)
    requires
        books_wf(orders, details),
        t.order_id == orders.len() + 1,
        orders.len() + 1 < i32::MAX,
        details.len() + ds.len() < i32::MAX,
        forall|k: int|
            0 <= k < ds.len() ==> (#[trigger] ds[k]).order_id == t.order_id
                && ds[k].order_detail_id == details.len() + 1 + k && ds[k].quantity > 0,
        t.total_amount == details_total(ds),
        orders.len() > 0 ==> orders.last().created_at <= t.created_at,
    ensures
        books_wf(orders.push(t), details + ds),
{
    assert forall|i: int, j: int| 0 <= i < j < orders.len() + 1 implies (
    #[trigger] orders.push(t)[i]).created_at <= (#[trigger] orders.push(t)[j]).created_at by {
        if j == orders.len() && i < orders.len() - 1 {
            assert(orders[i].created_at <= orders[orders.len() - 1].created_at);
        }
    }
    let order_id = t.order_id;
    let os = orders.push(t);
    let all = details + ds;
    assert forall|i: int| 0 <= i < os.len() implies (#[trigger] os[i]).order_id == i + 1
        && os[i].total_amount == order_sum(all, (i + 1) as i32) by {
        lemma_order_sum_append(details, ds, (i + 1) as i32);
        if i < orders.len() {
            lemma_order_sum_single(ds, order_id, (i + 1) as i32);
        } else {
            assert forall|k: int| 0 <= k < details.len() implies (#[trigger] details[k]).order_id
                != order_id by {}
            lemma_order_sum_absent(details, order_id);
            lemma_order_sum_single(ds, order_id, 0);
        }
    }
    assert forall|k: int| 0 <= k < all.len() implies (#[trigger] all[k]).order_detail_id == k + 1
        && 1 <= all[k].order_id <= os.len() && all[k].quantity > 0 by {
        if k >= details.len() {
            assert(all[k] == ds[k - details.len()]);
        }
    }
}

} // verus!
