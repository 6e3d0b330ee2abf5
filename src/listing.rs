//! The list requests of the catalogue, geography and discount screens. Each
//! names an optional search text and a page. The listings of one product are
//! read here; the other requests are carried to where their rows are kept.

use vstd::prelude::*;
use vstd::string::StringExecFns;
use crate::ledger::{Price, PriceLedger, PriceType};
use crate::query::{
    chars_of, contains, id_chars, id_text, occurs_in, paged, paginate, PaginationResult,
};

verus! {

/// A request for one page of brands.
#[derive(Clone, Debug)]
pub struct GetBrandsQuery {
    pub search: Option<String>,
    pub page: Option<usize>,
    pub per_page: Option<usize>,
}


/// A request for one page of discounts.
#[derive(Clone, Debug)]
pub struct GetDiscountsQuery {
    pub search: Option<String>,
    pub page: Option<usize>,
    pub per_page: Option<usize>,
    pub role: Option<String>,
}


/// A request for one page of products.
#[derive(Clone, Debug)]
pub struct GetProductsQuery {
    pub search: Option<String>,
    pub page: Option<usize>,
    pub per_page: Option<usize>,
    pub category_id: Option<usize>,
    pub brand_id: Option<usize>,
}


/// A request for one page of the listings of one product.
#[derive(Clone, Debug)]
pub struct GetPricesQuery {
    pub search: Option<String>,
    pub page: Option<usize>,
    pub per_page: Option<usize>,
    pub product_id: i32,
}


/// A request for one page of shops.
#[derive(Clone, Debug)]
pub struct GetShopsQuery {
    pub search: Option<String>,
    pub page: Option<usize>,
    pub per_page: Option<usize>,
    pub weekdays: Option<String>,
}


/// A request for one page of townships.
#[derive(Clone, Debug)]
pub struct GetTownshipsQuery {
    pub search: Option<String>,
    pub page: Option<usize>,
    pub per_page: Option<usize>,
}


/// A request for one page of wards.
#[derive(Clone, Debug)]
pub struct GetWardsQuery {
    pub search: Option<String>,
    pub page: Option<usize>,
    pub per_page: Option<usize>,
}


/// The name under which a listing type is stored and searched.
pub open spec fn price_type_name(t: PriceType) -> Seq<char> {
    match t {
        PriceType::Package => "package"@,
        PriceType::SingleItem => "single_item"@,
    }
}

/// The name of a listing type.
pub fn price_type_label(t: PriceType) -> (r: String)
    ensures
        r@ == price_type_name(t),
{
    match t {
        PriceType::Package => String::from_str("package"),
        PriceType::SingleItem => String::from_str("single_item"),
    }
}

/// Listing `p` is a live listing of type `t` of the product that `q` names,
/// found by its search: one that occurs in the listing's identifier in
/// decimal or in its type's name.
pub open spec fn price_selected(p: Price, q: GetPricesQuery, t: PriceType) -> bool {
    &&& p.product_id == q.product_id
    &&& !p.deleted
    &&& p.price_type == t
    &&& (q.search is Some ==> contains(id_text(p.price_id), q.search->0@) || contains(
        price_type_name(p.price_type),
        q.search->0@,
    ))
}

/// The selected listings of type `t`, in order of identifier.
pub open spec fn prices_of_type(prices: Seq<Price>, q: GetPricesQuery, t: PriceType) -> Seq<Price>
    decreases prices.len(),
{
    if prices.len() == 0 {
        Seq::empty()
    } else {
        let rest = prices_of_type(prices.drop_last(), q, t);
        if price_selected(prices.last(), q, t) {
            rest.push(prices.last())
        } else {
            rest
        }
    }
}

/// The listings that `get_prices` lists, ordered by type name: packages,
/// then single items.
pub open spec fn prices_listed(prices: Seq<Price>, q: GetPricesQuery) -> Seq<Price> {
    prices_of_type(prices, q, PriceType::Package) + prices_of_type(
        prices,
        q,
        PriceType::SingleItem,
    )
}

/// Whether listing `p` is selected by `q` under type `t`.
fn price_matches(p: &Price, q: &GetPricesQuery, t: PriceType) -> (r: bool)
    ensures
        r == price_selected(*p, *q, t),
{
    if p.product_id != q.product_id || p.deleted || p.price_type != t {
        return false;
    }
    match &q.search {
        Some(text) => {
            let needle = chars_of(text.as_str());
            let id = id_chars(p.price_id);
            if occurs_in(&id, &needle) {
                return true;
            }
            let name = price_type_label(p.price_type);
            let label = chars_of(name.as_str());
            occurs_in(&label, &needle)
        },
        None => true,
    }
}

impl PriceLedger {
    fn collect_prices(&self, q: &GetPricesQuery, t: PriceType) -> (r: Vec<Price>)
        ensures
            r@ == prices_of_type(self.prices@, *q, t),
    {
        let mut rows: Vec<Price> = Vec::new();
        let mut i: usize = 0;
        while i < self.prices.len()
            invariant
                0 <= i <= self.prices@.len(),
                rows@ == prices_of_type(self.prices@.subrange(0, i as int), *q, t),
            decreases self.prices@.len() - i,
        {
            proof {
                assert(self.prices@.subrange(0, i + 1).drop_last() =~= self.prices@.subrange(
                    0,
                    i as int,
                ));
            }
            let p = self.prices[i];
            if price_matches(&p, q, t) {
                rows.push(p);
            }
            i += 1;
        }
        proof {
            assert(self.prices@.subrange(0, self.prices@.len() as int) =~= self.prices@);
        }
        rows
    }

    /// Lists the live listings of the product that `query` names, found by
    /// its search, packages first, then single items, each in order of
    /// identifier, one page at a time.
    pub fn get_prices(&self, query: &GetPricesQuery) -> (r: PaginationResult<Price>)
        ensures
            paged(prices_listed(self.prices@, *query), query.page, query.per_page, r),
    {
        let mut rows = self.collect_prices(query, PriceType::Package);
        let mut singles = self.collect_prices(query, PriceType::SingleItem);
        rows.append(&mut singles);
        paginate(rows, query.page, query.per_page)
    }
}

} // verus!
