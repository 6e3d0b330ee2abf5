use shop_orders::listing::GetPricesQuery;
use shop_orders::ledger::{PriceRequest, PriceType};
use shop_orders::order::{OrderDetailRequest, OrderRequest};
use shop_orders::query::{paginate, status_label, visibility, GetOrderDetailsQuery, GetOrdersQuery, Visibility};
use shop_orders::order::OrderStatus;
use shop_orders::directory::{DiscountEntry, ProductEntry, ShopEntry, UserEntry};
use shop_orders::store::OrderStore;

fn open_store() -> OrderStore {
    let mut store = OrderStore::new();
    for (shop_id, name, address) in [(1, "Golden Shop", "7 River Rd"), (3, "Corner Mart", "1 Main St")] {
        store.shops.push(ShopEntry {
            shop_id,
            shop_name: name.to_string(),
            address: address.to_string(),
            latitude: 16_800_000,
            longitude: 96_150_000,
            deleted: false,
        });
    }
    store.users.push(UserEntry { user_id: 1, full_name: "Aye Aye".to_string(), deleted: false });
    store.users.push(UserEntry { user_id: 2, full_name: "Ko Ko".to_string(), deleted: false });
    store.products.push(ProductEntry { product_id: 1, product_name: "Tea".to_string(), deleted: false });
    store
}

fn no_filters() -> GetOrdersQuery {
    GetOrdersQuery {
        search: None,
        page: None,
        per_page: None,
        from_date: None,
        to_date: None,
        from_amount: None,
        to_amount: None,
        status: None,
    }
}

// Five orders: users 1, 2, 1, 2, 1; totals 100, 200, ..., 500; one a day.
fn store_with_orders() -> OrderStore {
    let mut store = open_store();
    let l = store
        .ledger
        .add_price(&PriceRequest {
            product_id: 1,
            price: 100,
            price_type: PriceType::Package,
            package_quantity: 12,
            remaining_quantity: 100,
        })
        .unwrap();
    for k in 1..=5 {
        let data = OrderRequest {
            shop_id: 3,
            order_details: vec![OrderDetailRequest { price_id: l, quantity: k }],
        };
        let user = if k % 2 == 1 { 1 } else { 2 };
        store.add_order(&data, user, (k as u64) * 86_400 + 5).unwrap();
    }
    store
}

fn ids(store: &OrderStore, q: &GetOrdersQuery, role: &str, caller: i32) -> Vec<i32> {
    store.get_orders(q, role, caller).data.iter().map(|o| o.order_id).collect()
}

#[test]
fn newest_first_without_filters() {
    let store = store_with_orders();
    let r = store.get_orders(&no_filters(), "Admin", 1);
    assert_eq!(r.data.iter().map(|o| o.order_id).collect::<Vec<_>>(), vec![5, 4, 3, 2, 1]);
    assert_eq!(r.total, 5);
    assert_eq!((r.page, r.per_page, r.page_counts), (0, 0, 0));
}

#[test]
fn distributor_sees_own_orders_only() {
    let store = store_with_orders();
    assert_eq!(ids(&store, &no_filters(), "Distributor", 2), vec![4, 2]);
    assert_eq!(ids(&store, &no_filters(), "Distributor", 7), Vec::<i32>::new());
    assert_eq!(visibility("Distributor", 2), Visibility::OwnOnly(2));
    assert_eq!(visibility("Admin", 2), Visibility::All);
    assert_eq!(visibility("distributor", 2), Visibility::All);
}

#[test]
fn amount_and_date_ranges() {
    let store = store_with_orders();
    let mut q = no_filters();
    q.from_amount = Some(200);
    q.to_amount = Some(400);
    assert_eq!(ids(&store, &q, "Admin", 1), vec![4, 3, 2]);
    q.to_amount = None;
    assert_eq!(ids(&store, &q, "Admin", 1), vec![5, 4, 3, 2, 1]);
    let mut q = no_filters();
    q.from_date = Some(2);
    q.to_date = Some(3);
    assert_eq!(ids(&store, &q, "Admin", 1), vec![3, 2]);
}

#[test]
fn status_filter() {
    let store = store_with_orders();
    let mut q = no_filters();
    q.status = Some("Pending".to_string());
    assert_eq!(ids(&store, &q, "Admin", 1).len(), 5);
    q.status = Some("Delivered".to_string());
    assert!(ids(&store, &q, "Admin", 1).is_empty());
    assert_eq!(status_label(OrderStatus::Pending), "Pending");
}

#[test]
fn pages_of_orders() {
    let store = store_with_orders();
    let mut q = no_filters();
    q.page = Some(3);
    q.per_page = Some(2);
    let r = store.get_orders(&q, "Admin", 1);
    assert_eq!(r.data.iter().map(|o| o.order_id).collect::<Vec<_>>(), vec![1]);
    assert_eq!((r.total, r.page, r.per_page, r.page_counts), (5, 3, 2, 3));
    q.page = Some(1);
    assert_eq!(ids(&store, &q, "Admin", 1), vec![5, 4]);
}

#[test]
fn reading_twice_gives_the_same() {
    let store = store_with_orders();
    let mut q = no_filters();
    q.page = Some(1);
    q.per_page = Some(3);
    q.from_amount = Some(150);
    q.to_amount = Some(10_000);
    let a = store.get_orders(&q, "Distributor", 1);
    let b = store.get_orders(&q, "Distributor", 1);
    assert_eq!(a.data, b.data);
    assert_eq!((a.total, a.page, a.per_page, a.page_counts), (b.total, b.page, b.per_page, b.page_counts));
    assert_eq!(a.data.iter().map(|o| o.order_id).collect::<Vec<_>>(), vec![5, 3]);
}

#[test]
fn paginate_edges() {
    let r = paginate(vec![1, 2, 3, 4, 5, 6], Some(2), Some(3));
    assert_eq!((r.data, r.page_counts), (vec![4, 5, 6], 2));
    let r = paginate(vec![1, 2, 3], Some(0), Some(2));
    assert!(r.data.is_empty());
    let r = paginate(vec![1, 2, 3], Some(9), Some(2));
    assert!(r.data.is_empty());
    assert_eq!(r.page_counts, 2);
    let r = paginate(vec![1, 2, 3], Some(1), Some(0));
    assert_eq!((r.data, r.page, r.per_page, r.page_counts), (vec![1, 2, 3], 0, 0, 0));
    let r = paginate(Vec::<i32>::new(), Some(1), Some(10));
    assert_eq!((r.total, r.page_counts), (0, 0));
    let r = paginate(vec![1, 2, 3], Some(usize::MAX), Some(usize::MAX));
    assert!(r.data.is_empty());
}

#[test]
fn listings_of_one_product() {
    let mut store = open_store();
    let req = |product_id, price_type| PriceRequest {
        product_id,
        price: 100,
        price_type,
        package_quantity: 1,
        remaining_quantity: 5,
    };
    store.ledger.add_price(&req(1, PriceType::SingleItem)).unwrap();
    store.ledger.add_price(&req(2, PriceType::Package)).unwrap();
    store.ledger.add_price(&req(1, PriceType::Package)).unwrap();
    store.ledger.add_price(&req(1, PriceType::SingleItem)).unwrap();
    store.ledger.add_price(&req(1, PriceType::Package)).unwrap();
    store.ledger.delete_price(5).unwrap();
    let mut q = GetPricesQuery { search: None, page: None, per_page: None, product_id: 1 };
    let ids = |store: &OrderStore, q: &GetPricesQuery| {
        store.ledger.get_prices(q).data.iter().map(|p| p.price_id).collect::<Vec<_>>()
    };
    assert_eq!(ids(&store, &q), vec![3, 1, 4]);
    q.search = Some("single".to_string());
    assert_eq!(ids(&store, &q), vec![1, 4]);
    q.search = Some("3".to_string());
    assert_eq!(ids(&store, &q), vec![3]);
    q.search = None;
    q.page = Some(2);
    q.per_page = Some(2);
    let r = store.ledger.get_prices(&q);
    assert_eq!((r.data.len(), r.total, r.page_counts), (1, 3, 2));
}

#[test]
fn search_by_id_text_or_status() {
    let store = store_with_orders();
    let mut q = no_filters();
    q.search = Some("3".to_string());
    assert_eq!(ids(&store, &q, "Admin", 1), vec![3]);
    q.search = Some("end".to_string());
    assert_eq!(ids(&store, &q, "Admin", 1), vec![5, 4, 3, 2, 1]);
    q.search = Some(String::new());
    assert_eq!(ids(&store, &q, "Admin", 1).len(), 5);
    q.search = Some("pending".to_string());
    assert!(ids(&store, &q, "Admin", 1).is_empty());
    q.search = Some("12".to_string());
    assert!(ids(&store, &q, "Admin", 1).is_empty());
}

#[test]
fn search_reads_multi_digit_ids() {
    let mut store = open_store();
    for _ in 0..12 {
        store.add_order(&OrderRequest { shop_id: 1, order_details: vec![] }, 1, 0).unwrap();
    }
    let mut q = no_filters();
    q.search = Some("1".to_string());
    assert_eq!(ids(&store, &q, "Admin", 1), vec![12, 11, 10, 1]);
    q.search = Some("12".to_string());
    assert_eq!(ids(&store, &q, "Admin", 1), vec![12]);
}

fn details(store: &OrderStore, q: &GetOrderDetailsQuery) -> Vec<(i32, i32)> {
    store.get_order_details(q).data.iter().map(|d| (d.order_detail_id, d.order_id)).collect()
}

#[test]
fn order_lines_by_order_price_and_search() {
    let mut store = open_store();
    let cheap = PriceRequest { product_id: 1, price: 50, price_type: PriceType::SingleItem, package_quantity: 1, remaining_quantity: 100 };
    let dear = PriceRequest { price: 900, ..cheap };
    let a = store.ledger.add_price(&cheap).unwrap();
    let b = store.ledger.add_price(&dear).unwrap();
    let line = |price_id, quantity| OrderDetailRequest { price_id, quantity };
    store.add_order(&OrderRequest { shop_id: 1, order_details: vec![line(a, 1), line(b, 1)] }, 1, 0).unwrap();
    store.add_order(&OrderRequest { shop_id: 1, order_details: vec![line(b, 2)] }, 1, 0).unwrap();
    let all = GetOrderDetailsQuery { search: None, page: None, per_page: None, order_id: None, from_amount: None, to_amount: None };
    assert_eq!(details(&store, &all), vec![(1, 1), (2, 1), (3, 2)]);
    let mut q = all.clone();
    q.order_id = Some(1);
    assert_eq!(details(&store, &q), vec![(1, 1), (2, 1)]);
    let mut q = all.clone();
    q.from_amount = Some(100);
    q.to_amount = Some(1000);
    assert_eq!(details(&store, &q), vec![(2, 1), (3, 2)]);
    let mut q = all.clone();
    q.search = Some("2".to_string());
    assert_eq!(details(&store, &q), vec![(2, 1), (3, 2)]);
    let mut q = all.clone();
    q.search = Some("Tea".to_string());
    assert_eq!(details(&store, &q).len(), 3);
    let mut q = all.clone();
    q.page = Some(2);
    q.per_page = Some(2);
    let r = store.get_order_details(&q);
    assert_eq!((r.data.len(), r.total, r.page_counts), (1, 3, 2));
}

#[test]
fn rows_carry_shop_and_user() {
    let store = store_with_orders();
    let r = store.get_orders(&no_filters(), "Admin", 1);
    let row = &r.data[0];
    assert_eq!(row.order_id, 5);
    assert_eq!(row.shop_name, "Corner Mart");
    assert_eq!(row.shop_address, "1 Main St");
    assert_eq!((row.shop_latitude, row.shop_longitude), (16_800_000, 96_150_000));
    assert_eq!(row.distributor_name, "Aye Aye");
    assert_eq!(row.order_date, 5 * 86_400 + 5);
    assert_eq!(row.total_amount, 500);
    assert_eq!(row.status, OrderStatus::Pending);
}

#[test]
fn search_by_shop_and_user_names() {
    let store = store_with_orders();
    let mut q = no_filters();
    q.search = Some("Ko".to_string());
    assert_eq!(ids(&store, &q, "Admin", 1), vec![4, 2]);
    q.search = Some("Main".to_string());
    assert_eq!(ids(&store, &q, "Admin", 1).len(), 5);
    q.search = Some("Golden".to_string());
    assert!(ids(&store, &q, "Admin", 1).is_empty());
}

#[test]
fn orders_of_deleted_users_or_shops_are_hidden() {
    let mut store = store_with_orders();
    store.users[1].deleted = true;
    assert_eq!(ids(&store, &no_filters(), "Admin", 1), vec![5, 3, 1]);
    store.shops[1].deleted = true;
    assert!(ids(&store, &no_filters(), "Admin", 1).is_empty());
    assert_eq!(store.get_orders(&no_filters(), "Admin", 1).total, 0);
}

#[test]
fn order_lines_carry_names_and_hide_gone_listings() {
    let mut store = open_store();
    store.products.push(ProductEntry { product_id: 2, product_name: "Rice".to_string(), deleted: false });
    store.discount_names.push(DiscountEntry { discount_id: 7, discount_name: "Monsoon".to_string() });
    let tea = PriceRequest { product_id: 1, price: 50, price_type: PriceType::SingleItem, package_quantity: 1, remaining_quantity: 100 };
    let rice = PriceRequest { product_id: 2, price_type: PriceType::Package, ..tea };
    let a = store.ledger.add_price(&tea).unwrap();
    let b = store.ledger.add_price(&rice).unwrap();
    store.discounts.link(b, 7);
    let line = |price_id, quantity| OrderDetailRequest { price_id, quantity };
    store.add_order(&OrderRequest { shop_id: 1, order_details: vec![line(a, 1), line(b, 2)] }, 1, 0).unwrap();
    let all = GetOrderDetailsQuery { search: None, page: None, per_page: None, order_id: None, from_amount: None, to_amount: None };
    let r = store.get_order_details(&all);
    assert_eq!(r.data.len(), 2);
    assert_eq!(r.data[1].product_name, "Tea");
    assert_eq!(r.data[1].price_type, PriceType::SingleItem);
    assert_eq!((r.data[1].discount_id, r.data[1].discount_name.clone()), (None, None));
    assert_eq!(r.data[0].product_name, "Rice");
    assert_eq!(r.data[0].price_type, PriceType::Package);
    assert_eq!(r.data[0].discount_id, Some(7));
    assert_eq!(r.data[0].discount_name, Some("Monsoon".to_string()));
    let mut q = all.clone();
    q.search = Some("package".to_string());
    assert_eq!(store.get_order_details(&q).data.len(), 1);
    store.ledger.delete_price(a).unwrap();
    assert_eq!(details(&store, &all), vec![(2, 1)]);
    store.products[1].deleted = true;
    assert!(details(&store, &all).is_empty());
}

#[test]
fn listing_follows_stamps_not_arrival() {
    let mut store = open_store();
    let empty = || OrderRequest { shop_id: 3, order_details: vec![] };
    store.add_order(&empty(), 1, 200).unwrap();
    store.add_order(&empty(), 1, 100).unwrap();
    store.add_order(&empty(), 1, 300).unwrap();
    assert_eq!(store.orders[1].created_at, 200);
    let r = store.get_orders(&no_filters(), "Admin", 1);
    let dates: Vec<u64> = r.data.iter().map(|o| o.order_date).collect();
    assert_eq!(dates, vec![300, 200, 200]);
    assert_eq!(r.data.iter().map(|o| o.order_id).collect::<Vec<_>>(), vec![3, 2, 1]);
}

#[test]
fn order_lines_by_product_name() {
    let mut store = open_store();
    store.products.push(ProductEntry { product_id: 2, product_name: "Coffee".to_string(), deleted: false });
    store.products.push(ProductEntry { product_id: 3, product_name: "Sugar".to_string(), deleted: false });
    let req = |product_id| PriceRequest { product_id, price: 10, price_type: PriceType::SingleItem, package_quantity: 1, remaining_quantity: 100 };
    let tea = store.ledger.add_price(&req(1)).unwrap();
    let coffee = store.ledger.add_price(&req(2)).unwrap();
    let sugar = store.ledger.add_price(&req(3)).unwrap();
    let line = |price_id, quantity| OrderDetailRequest { price_id, quantity };
    store.add_order(&OrderRequest { shop_id: 1, order_details: vec![line(sugar, 1), line(tea, 1), line(coffee, 1)] }, 1, 0).unwrap();
    store.add_order(&OrderRequest { shop_id: 1, order_details: vec![line(tea, 2), line(coffee, 2)] }, 1, 0).unwrap();
    let all = GetOrderDetailsQuery { search: None, page: None, per_page: None, order_id: None, from_amount: None, to_amount: None };
    let r = store.get_order_details(&all);
    let names: Vec<(&str, i32)> = r.data.iter().map(|d| (d.product_name.as_str(), d.order_detail_id)).collect();
    assert_eq!(names, vec![("Coffee", 3), ("Coffee", 5), ("Sugar", 1), ("Tea", 2), ("Tea", 4)]);
    let mut q = all.clone();
    q.page = Some(2);
    q.per_page = Some(2);
    let ids: Vec<i32> = store.get_order_details(&q).data.iter().map(|d| d.order_detail_id).collect();
    assert_eq!(ids, vec![1, 2]);
}
