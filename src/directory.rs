//! The shops that orders are placed for and the users who place them, as
//! far as orders need them.

use vstd::prelude::*;

verus! {

/// A shop. Coordinates are in millionths of a degree, zero where unknown.
#[derive(Clone, Debug)]
pub struct ShopEntry {
    pub shop_id: i32,
    pub shop_name: String,
    pub address: String,
    pub latitude: i32,
    pub longitude: i32,
    pub deleted: bool,
}

/// A user who may place orders.
#[derive(Clone, Debug)]
pub struct UserEntry {
    pub user_id: i32,
    pub full_name: String,
    pub deleted: bool,
}

/// The live shop with identifier `id`; where several are recorded, the one
/// recorded last.
pub open spec fn live_shop(shops: Seq<ShopEntry>, id: i32) -> Option<ShopEntry>
    decreases shops.len(),
{
    if shops.len() == 0 {
        None
    } else if shops.last().shop_id == id && !shops.last().deleted {
        Some(shops.last())
    } else {
        live_shop(shops.drop_last(), id)
    }
}

/// The live user with identifier `id`; where several are recorded, the one
/// recorded last.
pub open spec fn live_user(users: Seq<UserEntry>, id: i32) -> Option<UserEntry>
    decreases users.len(),
{
    if users.len() == 0 {
        None
    } else if users.last().user_id == id && !users.last().deleted {
        Some(users.last())
    } else {
        live_user(users.drop_last(), id)
    }
}

/// Where the live shop `id` stands in `shops`.
pub fn find_shop(shops: &Vec<ShopEntry>, id: i32) -> (r: Option<usize>)
    ensures
        r is None <==> live_shop(shops@, id) is None,
        r is Some ==> r->0 < shops@.len() && live_shop(shops@, id) == Some(shops@[r->0 as int]),
{
    let mut found: Option<usize> = None;
    let mut i: usize = 0;
    while i < shops.len()
        invariant
            0 <= i <= shops@.len(),
            found is None <==> live_shop(shops@.subrange(0, i as int), id) is None,
            found is Some ==> found->0 < i && live_shop(shops@.subrange(0, i as int), id) == Some(
                shops@[found->0 as int],
            ),
        decreases shops@.len() - i,
    {
        proof {
            assert(shops@.subrange(0, i + 1).drop_last() =~= shops@.subrange(0, i as int));
        }
        if shops[i].shop_id == id && !shops[i].deleted {
            found = Some(i);
        }
        i += 1;
    }
    proof {
        assert(shops@.subrange(0, shops@.len() as int) =~= shops@);
    }
    found
}

/// Where the live user `id` stands in `users`.
pub fn find_user(users: &Vec<UserEntry>, id: i32) -> (r: Option<usize>)
    ensures
        r is None <==> live_user(users@, id) is None,
        r is Some ==> r->0 < users@.len() && live_user(users@, id) == Some(users@[r->0 as int]),
{
    let mut found: Option<usize> = None;
    let mut i: usize = 0;
    while i < users.len()
        invariant
            0 <= i <= users@.len(),
            found is None <==> live_user(users@.subrange(0, i as int), id) is None,
            found is Some ==> found->0 < i && live_user(users@.subrange(0, i as int), id) == Some(
                users@[found->0 as int],
            ),
        decreases users@.len() - i,
    {
        proof {
            assert(users@.subrange(0, i + 1).drop_last() =~= users@.subrange(0, i as int));
        }
        if users[i].user_id == id && !users[i].deleted {
            found = Some(i);
        }
        i += 1;
    }
    proof {
        assert(users@.subrange(0, users@.len() as int) =~= users@);
    }
    found
}

/// A product, as far as order lines name it.
#[derive(Clone, Debug)]
pub struct ProductEntry {
    pub product_id: i32,
    pub product_name: String,
    pub deleted: bool,
}

/// A discount, as far as order lines name it.
#[derive(Clone, Debug)]
pub struct DiscountEntry {
    pub discount_id: i32,
    pub discount_name: String,
}

/// The live product with identifier `id`; where several are recorded, the
/// one recorded last.
pub open spec fn live_product(products: Seq<ProductEntry>, id: i32) -> Option<ProductEntry>
    decreases products.len(),
{
    if products.len() == 0 {
        None
    } else if products.last().product_id == id && !products.last().deleted {
        Some(products.last())
    } else {
        live_product(products.drop_last(), id)
    }
}

/// The discount with identifier `id`, deleted or not; where several are
/// recorded, the one recorded last.
pub open spec fn named_discount(discounts: Seq<DiscountEntry>, id: i32) -> Option<DiscountEntry>
    decreases discounts.len(),
{
    if discounts.len() == 0 {
        None
    } else if discounts.last().discount_id == id {
        Some(discounts.last())
    } else {
        named_discount(discounts.drop_last(), id)
    }
}

/// Where the live product `id` stands in `products`.
pub fn find_product(products: &Vec<ProductEntry>, id: i32) -> (r: Option<usize>)
    ensures
        r is None <==> live_product(products@, id) is None,
        r is Some ==> r->0 < products@.len() && live_product(products@, id) == Some(
            products@[r->0 as int],
        ),
{
    let mut found: Option<usize> = None;
    let mut i: usize = 0;
    while i < products.len()
        invariant
            0 <= i <= products@.len(),
            found is None <==> live_product(products@.subrange(0, i as int), id) is None,
            found is Some ==> found->0 < i && live_product(products@.subrange(0, i as int), id)
                == Some(products@[found->0 as int]),
        decreases products@.len() - i,
    {
        proof {
            assert(products@.subrange(0, i + 1).drop_last() =~= products@.subrange(0, i as int));
        }
        if products[i].product_id == id && !products[i].deleted {
            found = Some(i);
        }
        i += 1;
    }
    proof {
        assert(products@.subrange(0, products@.len() as int) =~= products@);
    }
    found
}

/// Where the discount `id` stands in `discounts`.
pub fn find_discount(discounts: &Vec<DiscountEntry>, id: i32) -> (r: Option<usize>)
    ensures
        r is None <==> named_discount(discounts@, id) is None,
        r is Some ==> r->0 < discounts@.len() && named_discount(discounts@, id) == Some(
            discounts@[r->0 as int],
        ),
{
    let mut found: Option<usize> = None;
    let mut i: usize = 0;
    while i < discounts.len()
        invariant
            0 <= i <= discounts@.len(),
            found is None <==> named_discount(discounts@.subrange(0, i as int), id) is None,
            found is Some ==> found->0 < i && named_discount(discounts@.subrange(0, i as int), id)
                == Some(discounts@[found->0 as int]),
        decreases discounts@.len() - i,
    {
        proof {
            assert(discounts@.subrange(0, i + 1).drop_last() =~= discounts@.subrange(0, i as int));
        }
        if discounts[i].discount_id == id {
            found = Some(i);
        }
        i += 1;
    }
    proof {
        assert(discounts@.subrange(0, discounts@.len() as int) =~= discounts@);
    }
    found
}

} // verus!
