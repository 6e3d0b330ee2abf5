//! Orders and their lines, and what an order's total is.

use vstd::prelude::*;

verus! {

/// One requested line: a listing and how many units of it.
#[derive(Clone, Copy, Debug, PartialEq, Eq, Structural)]
pub struct OrderDetailRequest {
    pub price_id: i32,
    pub quantity: i32,
}

/// An order as a shop submits it.
#[derive(Clone, Debug)]
pub struct OrderRequest {
    pub shop_id: i32,
    pub order_details: Vec<OrderDetailRequest>,
}

/// Where an order stands. Every order starts out pending.
#[derive(Clone, Copy, Debug, PartialEq, Eq, Structural)]
pub enum OrderStatus {
    Pending,
}

/// The header of a placed order. `total_amount` is in the currency's minor
/// unit; `created_at` is in seconds since the Unix epoch.
#[derive(Clone, Copy, Debug, PartialEq, Eq, Structural)]
pub struct Order {
    pub order_id: i32,
    pub shop_id: i32,
    pub user_id: i32,
    pub status: OrderStatus,
    pub total_amount: u64,
    pub created_at: u64,
}

/// One line of a placed order, with the unit price and the discount that
/// were in force when it was placed.
#[derive(Clone, Copy, Debug, PartialEq, Eq, Structural)]
pub struct OrderDetail {
    pub order_detail_id: i32,
    pub order_id: i32,
    pub price_id: i32,
    pub quantity: i32,
    pub price_at_order: u64,
    pub discount_id: Option<i32>,
}

/// What one line costs: its unit price times its quantity.
pub open spec fn line_amount(d: OrderDetail) -> int {
    d.price_at_order as int * d.quantity as int
}

/// The sum of `line_amount` over a sequence of lines.
pub open spec fn details_total(ds: Seq<OrderDetail>) -> int
    decreases ds.len(),
{
    if ds.len() == 0 {
        0
    } else {
        details_total(ds.drop_last()) + line_amount(ds.last())
    }
}

/// The sum of `line_amount` over the lines that belong to order `order_id`.
pub open spec fn order_sum(ds: Seq<OrderDetail>, order_id: i32) -> int
    decreases ds.len(),
{
    if ds.len() == 0 {
        0
    } else {
        order_sum(ds.drop_last(), order_id) + if ds.last().order_id == order_id {
            line_amount(ds.last())
        } else {
            0
        }
    }
}

/// No line has a negative quantity.
pub open spec fn quantities_nonnegative(ds: Seq<OrderDetail>) -> bool {
    forall|i: int| 0 <= i < ds.len() ==> (#[trigger] ds[i]).quantity >= 0
}

pub proof fn lemma_line_amount_nonnegative(d: OrderDetail)
    requires
        d.quantity >= 0,
    ensures
        line_amount(d) >= 0,
{
    let p = d.price_at_order as int;
    let q = d.quantity as int;
    assert(p * q >= 0) by (nonlinear_arith)
        requires
            p >= 0,
            q >= 0,
    ;
}

pub proof fn lemma_details_total_append(a: Seq<OrderDetail>, b: Seq<OrderDetail>)
    ensures
        details_total(a + b) == details_total(a) + details_total(b),
    decreases b.len(),
{
    if b.len() == 0 {
        assert(a + b =~= a);
    } else {
        lemma_details_total_append(a, b.drop_last());
        assert((a + b).drop_last() =~= a + b.drop_last());
    }
}

pub proof fn lemma_details_total_nonnegative(ds: Seq<OrderDetail>)
    requires
        quantities_nonnegative(ds),
    ensures
        details_total(ds) >= 0,
    decreases ds.len(),
{
    if ds.len() > 0 {
        lemma_details_total_nonnegative(ds.drop_last());
        lemma_line_amount_nonnegative(ds.last());
    }
}

pub proof fn lemma_order_sum_append(a: Seq<OrderDetail>, b: Seq<OrderDetail>, order_id: i32)
    ensures
        order_sum(a + b, order_id) == order_sum(a, order_id) + order_sum(b, order_id),
    decreases b.len(),
{
    if b.len() == 0 {
        assert(a + b =~= a);
    } else {
        lemma_order_sum_append(a, b.drop_last(), order_id);
        assert((a + b).drop_last() =~= a + b.drop_last());
    }
}

/// Over lines that all belong to one order, that order's sum is their total,
/// and every other order's sum is zero.
pub proof fn lemma_order_sum_single(ds: Seq<OrderDetail>, order_id: i32, other: i32)
    requires
        forall|i: int| 0 <= i < ds.len() ==> (#[trigger] ds[i]).order_id == order_id,
        other != order_id,
    ensures
        order_sum(ds, order_id) == details_total(ds),
        order_sum(ds, other) == 0,
    decreases ds.len(),
{
    if ds.len() > 0 {
        lemma_order_sum_single(ds.drop_last(), order_id, other);
    }
}

/// Over lines that belong to orders other than `order_id`, its sum is zero.
pub proof fn lemma_order_sum_absent(ds: Seq<OrderDetail>, order_id: i32)
    requires
        forall|i: int| 0 <= i < ds.len() ==> (#[trigger] ds[i]).order_id != order_id,
    ensures
        order_sum(ds, order_id) == 0,
    decreases ds.len(),
{
    if ds.len() > 0 {
        lemma_order_sum_absent(ds.drop_last(), order_id);
    }
}

/// The total of a sequence of lines, or `None` where it does not fit in a
/// `u64`.
pub fn order_total(details: &Vec<OrderDetail>) -> (r: Option<u64>)
    requires
        quantities_nonnegative(details@),
    ensures
        details_total(details@) <= u64::MAX ==> r == Some(details_total(details@) as u64),
        details_total(details@) > u64::MAX ==> r is None,
{
    let mut acc: u64 = 0;
    let mut i: usize = 0;
    while i < details.len()
        invariant
            0 <= i <= details@.len(),
            quantities_nonnegative(details@),
            acc as int == details_total(details@.subrange(0, i as int)),
        decreases details@.len() - i,
    {
        let d = details[i];
        proof {
            assert(details@.subrange(0, i + 1).drop_last() =~= details@.subrange(0, i as int));
            let rest = details@.subrange(i + 1, details@.len() as int);
            assert(details@.subrange(0, i + 1) + rest =~= details@);
            lemma_details_total_append(details@.subrange(0, i + 1), rest);
            assert(quantities_nonnegative(rest));
            lemma_details_total_nonnegative(rest);
            lemma_line_amount_nonnegative(d);
        }
        let amount = match d.price_at_order.checked_mul(d.quantity as u64) {
            Some(a) => a,
            None => {
                return None;
            },
        };
        acc = match acc.checked_add(amount) {
            Some(s) => s,
            None => {
                return None;
            },
        };
        i += 1;
    }
    proof {
        assert(details@.subrange(0, details@.len() as int) =~= details@);
    }
    Some(acc)
}

} // verus!
