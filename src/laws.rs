//! Properties of order placement that hold for every store and every order.

use vstd::prelude::*;
use crate::ledger::{ledger_wf, listed, listing, Price};
use crate::order::{order_sum, OrderDetailRequest, OrderRequest};
use crate::store::{
    apply_lines, lemma_apply_keeps_listings, lemma_apply_prefix_none, OrderError, OrderStore,
    UNAVAILABLE,
};

verus! {

/// A line falls short on its own: its listing is gone, or holds fewer units
/// than the line asks for.
pub open spec fn line_short(prices: Seq<Price>, line: OrderDetailRequest) -> bool {
    !listed(prices, line.price_id as int) || line.quantity > listing(
        prices,
        line.price_id as int,
    ).remaining_quantity
}

/// The units of listing `id` that `lines` ask for together.
pub open spec fn demand(lines: Seq<OrderDetailRequest>, id: i32) -> int
    decreases lines.len(),
{
    if lines.len() == 0 {
        0
    } else {
        demand(lines.drop_last(), id) + if lines.last().price_id == id {
            lines.last().quantity as int
        } else {
            0
        }
    }
}

/// The units of listing `id` taken by those of `requests` that were placed,
/// that is, whose result is a nonzero identifier.
pub open spec fn taken(
    requests: Seq<OrderRequest>,
    results: Seq<Result<i32, OrderError>>,
    id: i32,
) -> int
    decreases requests.len(),
{
    if requests.len() == 0 || results.len() != requests.len() {
        0
    } else {
        taken(requests.drop_last(), results.drop_last(), id) + if results.last() is Ok
            && results.last() != Ok::<i32, OrderError>(UNAVAILABLE) {
            demand(requests.last().order_details@, id)
        } else {
            0
        }
    }
}

/// All or nothing: if any one line of an order falls short on its own, even
/// where every other line could be served, placing the order writes nothing.
/// No order and no line is recorded, and no listing's stock changes.
pub proof fn lemma_shortfall_writes_nothing(store: OrderStore, data: OrderRequest, j: int)
    requires
        store.wf(),
        0 <= j < data.order_details@.len(),
        line_short(store.ledger.prices@, data.order_details@[j]),
    ensures
        !store.admissible(data.shop_id, data.order_details@),
        forall|user_id: i32, now: u64, r: Result<i32, OrderError>, post: OrderStore|
            #[trigger] OrderStore::placement_step(store, data, user_id, now, r, post) ==> post
                == store && (r == Ok::<i32, OrderError>(UNAVAILABLE) || r == Err::<
                i32,
                OrderError,
            >(OrderError::InvalidQuantity)),
{
    let prices = store.ledger.prices@;
    let lines = data.order_details@;
    let pre = lines.subrange(0, j);
    let upto = lines.subrange(0, j + 1);
    assert(upto.drop_last() =~= pre);
    if apply_lines(prices, pre) is Some {
        lemma_apply_keeps_listings(prices, pre);
    }
    assert(apply_lines(prices, upto) is None);
    lemma_apply_prefix_none(prices, lines, j + 1);
}

/// Every recorded order's total is exactly the sum, over the lines recorded
/// for it, of the unit price at order time times the quantity.
pub proof fn lemma_total_matches_lines(store: OrderStore, i: int)
    requires
        store.wf(),
        0 <= i < store.orders@.len(),
    ensures
        store.orders@[i].total_amount == order_sum(store.details@, store.orders@[i].order_id),
{
}

/// Reserving `lines` takes from listing `id` exactly what they ask of it.
pub proof fn lemma_apply_takes_demand(prices: Seq<Price>, lines: Seq<OrderDetailRequest>, id: i32)
    requires
        ledger_wf(prices),
        apply_lines(prices, lines) is Some,
        1 <= id <= prices.len(),
    ensures
        listing(apply_lines(prices, lines)->0, id as int).remaining_quantity == listing(
            prices,
            id as int,
        ).remaining_quantity - demand(lines, id),
    decreases lines.len(),
{
    if lines.len() > 0 {
        lemma_apply_takes_demand(prices, lines.drop_last(), id);
        lemma_apply_keeps_listings(prices, lines.drop_last());
    }
}

/// Over a run of placements, what they took from listing `id` is what its
/// stock went down by.
proof fn lemma_run_takes(
    states: Seq<OrderStore>,
    requests: Seq<OrderRequest>,
    users: Seq<i32>,
    times: Seq<u64>,
    results: Seq<Result<i32, OrderError>>,
    id: i32,
)
    requires
        states.len() == requests.len() + 1,
        users.len() == requests.len(),
        times.len() == requests.len(),
        results.len() == requests.len(),
        states[0].wf(),
        forall|i: int|
            0 <= i < requests.len() ==> #[trigger] OrderStore::placement_step(
                states[i],
                requests[i],
                users[i],
                times[i],
                results[i],
                states[i + 1],
            ),
        1 <= id <= states[0].ledger.prices@.len(),
    ensures
        states.last().wf(),
        states.last().ledger.prices@.len() == states[0].ledger.prices@.len(),
        taken(requests, results, id) == listing(
            states[0].ledger.prices@,
            id as int,
        ).remaining_quantity - listing(states.last().ledger.prices@, id as int).remaining_quantity,
    decreases requests.len(),
{
    if requests.len() > 0 {
        let n = requests.len() - 1;
        assert(OrderStore::placement_step(
            states[n],
            requests[n],
            users[n],
            times[n],
            results[n],
            states[n + 1],
        ));
        lemma_run_takes(
            states.drop_last(),
            requests.drop_last(),
            users.drop_last(),
            times.drop_last(),
            results.drop_last(),
            id,
        );
        let pre = states[n];
        let lines = requests[n].order_details@;
        if pre.admissible(requests[n].shop_id, lines) {
            lemma_apply_keeps_listings(pre.ledger.prices@, lines);
            lemma_apply_takes_demand(pre.ledger.prices@, lines, id);
        }
    }
}

/// No oversell: however many placements run against a store, one after
/// another in any order, the units of listing `id` that the placed ones took
/// together never exceed what the listing held at the start.
pub proof fn lemma_no_oversell(
    states: Seq<OrderStore>,
    requests: Seq<OrderRequest>,
    users: Seq<i32>,
    times: Seq<u64>,
    results: Seq<Result<i32, OrderError>>,
    id: i32,
)
    requires
        states.len() == requests.len() + 1,
        users.len() == requests.len(),
        times.len() == requests.len(),
        results.len() == requests.len(),
        states[0].wf(),
        forall|i: int|
            0 <= i < requests.len() ==> #[trigger] OrderStore::placement_step(
                states[i],
                requests[i],
                users[i],
                times[i],
                results[i],
                states[i + 1],
            ),
        1 <= id <= states[0].ledger.prices@.len(),
    ensures
        taken(requests, results, id) <= listing(states[0].ledger.prices@, id as int).remaining_quantity,
{
    lemma_run_takes(states, requests, users, times, results, id);
    let last = states.last().ledger.prices@;
    assert(last[id - 1].remaining_quantity >= 0);
}

} // verus!
