use shop_orders::ledger::{LedgerError, PriceRequest, PriceType, ReserveError};
use shop_orders::order::{order_total, OrderDetail, OrderDetailRequest, OrderRequest, OrderStatus};
use shop_orders::directory::{ShopEntry, UserEntry};
use shop_orders::store::{OrderError, OrderStore, UNAVAILABLE};

fn open_store() -> OrderStore {
    let mut store = OrderStore::new();
    store.shops.push(ShopEntry {
        shop_id: 9,
        shop_name: "Corner Mart".to_string(),
        address: "1 Main St".to_string(),
        latitude: 16_800_000,
        longitude: 96_150_000,
        deleted: false,
    });
    store.users.push(UserEntry { user_id: 4, full_name: "Ko Ko".to_string(), deleted: false });
    store
}

fn listing(price: u64, remaining: i32) -> PriceRequest {
    PriceRequest {
        product_id: 1,
        price,
        price_type: PriceType::SingleItem,
        package_quantity: 1,
        remaining_quantity: remaining,
    }
}

fn request(lines: &[(i32, i32)]) -> OrderRequest {
    OrderRequest {
        shop_id: 9,
        order_details: lines
            .iter()
            .map(|&(price_id, quantity)| OrderDetailRequest { price_id, quantity })
            .collect(),
    }
}

fn remaining(store: &OrderStore, id: i32) -> i32 {
    store.ledger.prices[(id - 1) as usize].remaining_quantity
}

#[test]
fn partial_depletion_leaves_the_rest() {
    let mut store = open_store();
    let l = store.ledger.add_price(&listing(250, 5)).unwrap();
    let id = store.add_order(&request(&[(l, 3)]), 4, 1_700_000_000).unwrap();
    assert_ne!(id, UNAVAILABLE);
    assert_eq!(remaining(&store, l), 2);
    assert_eq!(store.orders.len(), 1);
    assert_eq!(store.orders[0].order_id, id);
    assert_eq!(store.orders[0].total_amount, 3 * 250);
    assert_eq!(store.orders[0].status, OrderStatus::Pending);
    assert_eq!(store.orders[0].user_id, 4);
    assert_eq!(store.orders[0].shop_id, 9);
}

#[test]
fn one_short_line_rejects_all() {
    let mut store = open_store();
    let l = store.ledger.add_price(&listing(250, 2)).unwrap();
    let m = store.ledger.add_price(&listing(100, 10)).unwrap();
    let r = store.add_order(&request(&[(l, 3), (m, 1)]), 4, 10);
    assert_eq!(r, Ok(UNAVAILABLE));
    assert_eq!(remaining(&store, l), 2);
    assert_eq!(remaining(&store, m), 10);
    assert!(store.orders.is_empty());
    assert!(store.details.is_empty());
}

#[test]
fn short_line_last_rejects_all() {
    let mut store = open_store();
    let l = store.ledger.add_price(&listing(250, 2)).unwrap();
    let m = store.ledger.add_price(&listing(100, 10)).unwrap();
    let r = store.add_order(&request(&[(m, 1), (l, 3)]), 4, 10);
    assert_eq!(r, Ok(UNAVAILABLE));
    assert_eq!(remaining(&store, l), 2);
    assert_eq!(remaining(&store, m), 10);
    assert!(store.orders.is_empty());
}

#[test]
fn competing_orders_one_wins() {
    let mut store = open_store();
    let l = store.ledger.add_price(&listing(100, 10)).unwrap();
    let first = store.add_order(&request(&[(l, 6)]), 1, 10);
    let second = store.add_order(&request(&[(l, 6)]), 2, 11);
    let placed = [first, second].iter().filter(|r| matches!(r, Ok(id) if *id != UNAVAILABLE)).count();
    assert_eq!(placed, 1);
    assert_eq!(first, Ok(1));
    assert_eq!(second, Ok(UNAVAILABLE));
    assert_eq!(remaining(&store, l), 4);
    assert_eq!(store.orders.len(), 1);
}

#[test]
fn total_is_sum_of_lines() {
    let mut store = open_store();
    let a = store.ledger.add_price(&listing(250, 10)).unwrap();
    let b = store.ledger.add_price(&listing(100, 10)).unwrap();
    let id = store.add_order(&request(&[(a, 3), (b, 2)]), 1, 10).unwrap();
    assert_eq!(store.orders[0].total_amount, 950);
    let mine: u64 = store
        .details
        .iter()
        .filter(|d| d.order_id == id)
        .map(|d| d.price_at_order * d.quantity as u64)
        .sum();
    assert_eq!(mine, 950);
    assert_eq!(store.details.len(), 2);
    assert_eq!(store.details[0].order_detail_id, 1);
    assert_eq!(store.details[1].order_detail_id, 2);
    assert_eq!(store.details[1].price_at_order, 100);
    assert_eq!(store.details[1].quantity, 2);
}

#[test]
fn second_order_totals_its_own_lines() {
    let mut store = open_store();
    let a = store.ledger.add_price(&listing(250, 10)).unwrap();
    store.add_order(&request(&[(a, 1)]), 1, 10).unwrap();
    let second = store.add_order(&request(&[(a, 2)]), 1, 11).unwrap();
    assert_eq!(second, 2);
    assert_eq!(store.orders[1].total_amount, 500);
    assert_eq!(store.orders[0].total_amount, 250);
    assert_eq!(store.details[1].order_id, 2);
    assert_eq!(remaining(&store, a), 7);
}

#[test]
fn empty_order_has_no_lines_and_zero_total() {
    let mut store = open_store();
    let id = store.add_order(&request(&[]), 1, 10).unwrap();
    assert_eq!(id, 1);
    assert_eq!(store.orders[0].total_amount, 0);
    assert!(store.details.is_empty());
}

#[test]
fn exact_stock_is_enough() {
    let mut store = open_store();
    let l = store.ledger.add_price(&listing(10, 3)).unwrap();
    assert_eq!(store.add_order(&request(&[(l, 3)]), 1, 10), Ok(1));
    assert_eq!(remaining(&store, l), 0);
}

#[test]
fn repeated_listing_counts_together() {
    let mut store = open_store();
    let l = store.ledger.add_price(&listing(10, 5)).unwrap();
    assert_eq!(store.add_order(&request(&[(l, 3), (l, 3)]), 1, 10), Ok(UNAVAILABLE));
    assert_eq!(remaining(&store, l), 5);
    assert_eq!(store.add_order(&request(&[(l, 3), (l, 2)]), 1, 10), Ok(1));
    assert_eq!(remaining(&store, l), 0);
}

#[test]
fn unknown_or_deleted_listing_is_unavailable() {
    let mut store = open_store();
    let l = store.ledger.add_price(&listing(10, 5)).unwrap();
    assert_eq!(store.add_order(&request(&[(l + 1, 1)]), 1, 10), Ok(UNAVAILABLE));
    assert_eq!(store.add_order(&request(&[(0, 1)]), 1, 10), Ok(UNAVAILABLE));
    store.ledger.delete_price(l).unwrap();
    assert_eq!(store.add_order(&request(&[(l, 1)]), 1, 10), Ok(UNAVAILABLE));
    assert!(store.orders.is_empty());
}

#[test]
fn non_positive_quantity_is_refused() {
    let mut store = open_store();
    let l = store.ledger.add_price(&listing(10, 5)).unwrap();
    assert_eq!(store.add_order(&request(&[(l, 0)]), 1, 10), Err(OrderError::InvalidQuantity));
    assert_eq!(store.add_order(&request(&[(l, 1), (l, -2)]), 1, 10), Err(OrderError::InvalidQuantity));
    assert_eq!(remaining(&store, l), 5);
    assert!(store.orders.is_empty());
}

#[test]
fn overflowing_total_is_refused() {
    let mut store = open_store();
    let l = store.ledger.add_price(&listing(u64::MAX, 5)).unwrap();
    assert_eq!(store.add_order(&request(&[(l, 2)]), 1, 10), Err(OrderError::AmountOverflow));
    assert_eq!(remaining(&store, l), 5);
    assert!(store.orders.is_empty());
    assert_eq!(store.add_order(&request(&[(l, 1)]), 1, 10), Ok(1));
    assert_eq!(store.orders[0].total_amount, u64::MAX);
}

#[test]
fn price_and_discount_are_snapshots() {
    let mut store = open_store();
    let a = store.ledger.add_price(&listing(300, 10)).unwrap();
    let b = store.ledger.add_price(&listing(400, 10)).unwrap();
    store.discounts.link(a, 7);
    let id = store.add_order(&request(&[(a, 1), (b, 1)]), 1, 10).unwrap();
    store.ledger.update_price(a, &listing(999, 10)).unwrap();
    store.discounts.unlink_discount(7);
    assert_eq!(store.details[0].discount_id, Some(7));
    assert_eq!(store.details[0].price_at_order, 300);
    assert_eq!(store.details[1].discount_id, None);
    assert_eq!(store.orders[(id - 1) as usize].total_amount, 700);
    assert_eq!(store.discounts.active_discount_for(a), None);
}

#[test]
fn two_live_discounts_count_as_none() {
    let mut store = open_store();
    let a = store.ledger.add_price(&listing(300, 10)).unwrap();
    store.discounts.link(a, 7);
    store.discounts.link(a, 8);
    assert_eq!(store.discounts.active_discount_for(a), None);
    store.discounts.unlink_discount(8);
    assert_eq!(store.discounts.active_discount_for(a), Some(7));
}

#[test]
fn reserve_reports_stock_before() {
    let mut store = open_store();
    let l = store.ledger.add_price(&listing(10, 5)).unwrap();
    assert_eq!(store.ledger.reserve(l, 2), Ok(5));
    assert_eq!(store.ledger.reserve(l, 4), Err(ReserveError::InsufficientStock));
    assert_eq!(store.ledger.reserve(l, 0), Err(ReserveError::InvalidQuantity));
    assert_eq!(store.ledger.reserve(l + 1, 1), Err(ReserveError::ListingUnavailable));
    assert_eq!(remaining(&store, l), 3);
}

#[test]
fn ledger_edits() {
    let mut store = open_store();
    assert_eq!(store.ledger.add_price(&listing(10, -1)), Err(LedgerError::NegativeStock));
    let l = store.ledger.add_price(&listing(10, 5)).unwrap();
    assert_eq!(l, 1);
    assert_eq!(store.ledger.update_price(l, &listing(20, -3)), Err(LedgerError::NegativeStock));
    assert_eq!(store.ledger.update_price(l, &listing(20, 8)), Ok(()));
    let p = store.ledger.get_price_by_id(l).unwrap();
    assert_eq!(p.price, 20);
    assert_eq!(p.remaining_quantity, 8);
    assert_eq!(store.ledger.delete_price(l), Ok(()));
    assert_eq!(store.ledger.get_price_by_id(l), None);
    assert_eq!(store.ledger.delete_price(l), Err(LedgerError::NotFound));
    assert_eq!(store.ledger.update_price(l, &listing(20, 8)), Err(LedgerError::NotFound));
}

#[test]
fn order_total_sums_and_detects_overflow() {
    let line = |price: u64, quantity: i32| OrderDetail {
        order_detail_id: 1,
        order_id: 1,
        price_id: 1,
        quantity,
        price_at_order: price,
        discount_id: None,
    };
    assert_eq!(order_total(&vec![]), Some(0));
    assert_eq!(order_total(&vec![line(250, 3), line(100, 2)]), Some(950));
    assert_eq!(order_total(&vec![line(u64::MAX, 1), line(1, 1)]), None);
}

#[test]
fn many_orders_never_oversell() {
    let mut store = open_store();
    let l = store.ledger.add_price(&listing(10, 10)).unwrap();
    let other = store.ledger.add_price(&listing(10, 100)).unwrap();
    let mut taken = 0;
    for k in 0..20 {
        let q = (k % 4) + 1;
        let lines = if k % 3 == 0 { vec![(l, q), (other, 1)] } else { vec![(l, q)] };
        match store.add_order(&request(&lines), k, k as u64) {
            Ok(UNAVAILABLE) => {}
            Ok(_) => taken += q,
            Err(e) => panic!("{e:?}"),
        }
        assert!(taken <= 10);
        assert_eq!(remaining(&store, l), 10 - taken);
    }
    assert_eq!(taken, 10);
}

#[test]
fn missing_or_deleted_shop_is_unavailable() {
    let mut store = open_store();
    let l = store.ledger.add_price(&listing(10, 5)).unwrap();
    let mut data = request(&[(l, 1)]);
    data.shop_id = 10;
    assert_eq!(store.add_order(&data, 1, 10), Ok(UNAVAILABLE));
    store.shops[0].deleted = true;
    assert_eq!(store.add_order(&request(&[(l, 1)]), 1, 10), Ok(UNAVAILABLE));
    assert_eq!(remaining(&store, l), 5);
    assert!(store.orders.is_empty());
    store.shops.push(ShopEntry {
        shop_id: 9,
        shop_name: "Corner Mart".to_string(),
        address: "2 Main St".to_string(),
        latitude: 0,
        longitude: 0,
        deleted: false,
    });
    assert_eq!(store.add_order(&request(&[(l, 1)]), 1, 10), Ok(1));
}

#[test]
fn discount_links_follow_edits() {
    let mut store = open_store();
    let a = store.ledger.add_price(&listing(10, 5)).unwrap();
    let b = store.ledger.add_price(&listing(10, 5)).unwrap();
    store.discounts.link_prices(3, &vec![a, b]);
    assert_eq!(store.discounts.active_discount_for(a), Some(3));
    assert_eq!(store.discounts.active_discount_for(b), Some(3));
    store.discounts.replace_links(3, &vec![b]);
    assert_eq!(store.discounts.active_discount_for(a), None);
    assert_eq!(store.discounts.active_discount_for(b), Some(3));
    assert_eq!(store.discounts.links.len(), 3);
    store.discounts.unlink_discount(3);
    assert_eq!(store.discounts.active_discount_for(b), None);
}
