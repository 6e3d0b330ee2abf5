//! The price ledger: every sellable listing of a product, its unit price and
//! its remaining stock.

use vstd::prelude::*;

verus! {

/// How a listing is sold.
#[derive(Clone, Copy, Debug, PartialEq, Eq, Structural)]
pub enum PriceType {
    SingleItem,
    Package,
}

/// One sellable configuration of a product. `price` is a fixed-point amount
/// in the currency's minor unit.
#[derive(Clone, Copy, Debug, PartialEq, Eq, Structural)]
pub struct Price {
    pub price_id: i32,
    pub product_id: i32,
    pub price: u64,
    pub price_type: PriceType,
    pub package_quantity: i32,
    pub remaining_quantity: i32,
    pub deleted: bool,
}

/// What an administrator supplies to create or replace a listing.
#[derive(Clone, Copy, Debug, PartialEq, Eq, Structural)]
pub struct PriceRequest {
    pub product_id: i32,
    pub price: u64,
    pub price_type: PriceType,
    pub package_quantity: i32,
    pub remaining_quantity: i32,
}

/// Why a reservation was refused.
#[derive(Clone, Copy, Debug, PartialEq, Eq, Structural)]
pub enum ReserveError {
    /// No such listing, or it was soft-deleted.
    ListingUnavailable,
    /// The quantity asked for is zero or negative.
    InvalidQuantity,
    /// More was asked for than remains.
    InsufficientStock,
}

/// Why a listing could not be written.
#[derive(Clone, Copy, Debug, PartialEq, Eq, Structural)]
pub enum LedgerError {
    /// No such listing, or it was soft-deleted.
    NotFound,
    /// The remaining quantity given is negative.
    NegativeStock,
    /// No identifier is left for a new listing.
    Full,
}

/// Listings are numbered from 1 in order of creation, and stock never goes
/// below zero.
pub open spec fn ledger_wf(prices: Seq<Price>) -> bool {
    &&& prices.len() < i32::MAX
    &&& forall|i: int|
        0 <= i < prices.len() ==> (#[trigger] prices[i]).price_id == i + 1
            && prices[i].remaining_quantity >= 0
}

/// The listing `id` exists and is not soft-deleted.
pub open spec fn listed(prices: Seq<Price>, id: int) -> bool {
    1 <= id <= prices.len() && !prices[id - 1].deleted
}

/// The listing with identifier `id` (meaningful where `1 <= id <= len`).
pub open spec fn listing(prices: Seq<Price>, id: int) -> Price {
    prices[id - 1]
}

/// The ledger after taking `qty` units of listing `id`, or `None` where the
/// listing is unavailable, the quantity is not positive, or too little
/// remains.
pub open spec fn reserve_spec(prices: Seq<Price>, id: i32, qty: i32) -> Option<Seq<Price>> {
    if listed(prices, id as int) && 0 < qty <= listing(prices, id as int).remaining_quantity {
        let p = listing(prices, id as int);
        Some(
            prices.update(
                id - 1,
                Price { remaining_quantity: (p.remaining_quantity - qty) as i32, ..p },
            ),
        )
    } else {
        None
    }
}

/// The listing that a request describes, under identifier `id`.
pub open spec fn listing_from(id: i32, data: PriceRequest) -> Price {
    Price {
        price_id: id,
        product_id: data.product_id,
        price: data.price,
        price_type: data.price_type,
        package_quantity: data.package_quantity,
        remaining_quantity: data.remaining_quantity,
        deleted: false,
    }
}

/// The listings of the shop, indexed by identifier.
pub struct PriceLedger {
    pub prices: Vec<Price>,
}

impl PriceLedger {
    pub open spec fn wf(&self) -> bool {
        ledger_wf(self.prices@)
    }

    /// An empty ledger.
    pub fn new() -> (r: PriceLedger)
        ensures
            r.wf(),
            r.prices@ == Seq::<Price>::empty(),
    {
        PriceLedger { prices: Vec::new() }
    }

    /// Adds a listing and returns its identifier, the next free one.
    pub fn add_price(&mut self, data: &PriceRequest) -> (r: Result<i32, LedgerError>)
        requires
            old(self).wf(),
        ensures
            final(self).wf(),
            data.remaining_quantity < 0 ==> r == Err::<i32, LedgerError>(LedgerError::NegativeStock),
            data.remaining_quantity >= 0 && old(self).prices@.len() + 1 >= i32::MAX ==> r == Err::<
                i32,
                LedgerError,
            >(LedgerError::Full),
            r is Err ==> *final(self) == *old(self),
            data.remaining_quantity >= 0 && old(self).prices@.len() + 1 < i32::MAX ==> {
                &&& r == Ok::<i32, LedgerError>((old(self).prices@.len() + 1) as i32)
                &&& final(self).prices@ == old(self).prices@.push(
                    listing_from((old(self).prices@.len() + 1) as i32, *data),
                )
            },
    {
        if data.remaining_quantity < 0 {
            return Err(LedgerError::NegativeStock);
        }
        if self.prices.len() + 1 >= i32::MAX as usize {
            return Err(LedgerError::Full);
        }
        let id = (self.prices.len() + 1) as i32;
        self.prices.push(
            Price {
                price_id: id,
                product_id: data.product_id,
                price: data.price,
                price_type: data.price_type,
                package_quantity: data.package_quantity,
                remaining_quantity: data.remaining_quantity,
                deleted: false,
            },
        );
        Ok(id)
    }

    /// The listing with this identifier, unless it is absent or soft-deleted.
    pub fn get_price_by_id(&self, price_id: i32) -> (r: Option<Price>)
        requires
            self.wf(),
        ensures
            listed(self.prices@, price_id as int) ==> r == Some(listing(self.prices@, price_id as int)),
            !listed(self.prices@, price_id as int) ==> r is None,
    {
        if price_id < 1 || price_id as usize > self.prices.len() {
            return None;
        }
        let p = self.prices[(price_id - 1) as usize];
        if p.deleted {
            None
        } else {
            Some(p)
        }
    }

    /// Replaces the price, type, package size and stock of a listing.
    pub fn update_price(&mut self, price_id: i32, data: &PriceRequest) -> (r: Result<(), LedgerError>)
        requires
            old(self).wf(),
        ensures
            final(self).wf(),
            !listed(old(self).prices@, price_id as int) ==> r == Err::<(), LedgerError>(LedgerError::NotFound),
            listed(old(self).prices@, price_id as int) && data.remaining_quantity < 0 ==> r == Err::<
                (),
                LedgerError,
            >(LedgerError::NegativeStock),
            r is Err ==> *final(self) == *old(self),
            listed(old(self).prices@, price_id as int) && data.remaining_quantity >= 0 ==> {
                &&& r is Ok
                &&& final(self).prices@ == old(self).prices@.update(
                    price_id - 1,
                    Price {
                        product_id: listing(old(self).prices@, price_id as int).product_id,
                        ..listing_from(price_id, *data)
                    },
                )
            },
    {
        if price_id < 1 || price_id as usize > self.prices.len() {
            return Err(LedgerError::NotFound);
        }
        let i = (price_id - 1) as usize;
        let p = self.prices[i];
        if p.deleted {
            return Err(LedgerError::NotFound);
        }
        if data.remaining_quantity < 0 {
            return Err(LedgerError::NegativeStock);
        }
        self.prices.set(
            i,
            Price {
                price_id,
                product_id: p.product_id,
                price: data.price,
                price_type: data.price_type,
                package_quantity: data.package_quantity,
                remaining_quantity: data.remaining_quantity,
                deleted: false,
            },
        );
        Ok(())
    }

    /// Soft-deletes a listing: it stays in the ledger, marked deleted.
    pub fn delete_price(&mut self, price_id: i32) -> (r: Result<(), LedgerError>)
        requires
            old(self).wf(),
        ensures
            final(self).wf(),
            !listed(old(self).prices@, price_id as int) ==> r == Err::<(), LedgerError>(LedgerError::NotFound)
                && *final(self) == *old(self),
            listed(old(self).prices@, price_id as int) ==> r is Ok && final(self).prices@
                == old(self).prices@.update(
                price_id - 1,
                Price { deleted: true, ..listing(old(self).prices@, price_id as int) },
            ),
    {
        if price_id < 1 || price_id as usize > self.prices.len() {
            return Err(LedgerError::NotFound);
        }
        let i = (price_id - 1) as usize;
        let p = self.prices[i];
        if p.deleted {
            return Err(LedgerError::NotFound);
        }
        self.prices.set(i, Price { deleted: true, ..p });
        Ok(())
    }

    /// Takes `quantity` units of listing `price_id` and returns how many
    /// remained before. Nothing changes when it is refused.
    pub fn reserve(&mut self, price_id: i32, quantity: i32) -> (r: Result<i32, ReserveError>)
        requires
            old(self).wf(),
        ensures
            final(self).wf(),
            !listed(old(self).prices@, price_id as int) ==> r == Err::<i32, ReserveError>(
                ReserveError::ListingUnavailable,
            ),
            listed(old(self).prices@, price_id as int) && quantity <= 0 ==> r == Err::<
                i32,
                ReserveError,
            >(ReserveError::InvalidQuantity),
            listed(old(self).prices@, price_id as int) && 0 < quantity && quantity > listing(
                old(self).prices@,
                price_id as int,
            ).remaining_quantity ==> r == Err::<i32, ReserveError>(ReserveError::InsufficientStock),
            r is Err ==> *final(self) == *old(self),
            reserve_spec(old(self).prices@, price_id, quantity) is Some ==> r == Ok::<i32, ReserveError>(
                listing(old(self).prices@, price_id as int).remaining_quantity,
            ) && final(self).prices@ == reserve_spec(old(self).prices@, price_id, quantity)->0,
    {
        if price_id < 1 || price_id as usize > self.prices.len() {
            return Err(ReserveError::ListingUnavailable);
        }
        let i = (price_id - 1) as usize;
        let p = self.prices[i];
        if p.deleted {
            return Err(ReserveError::ListingUnavailable);
        }
        if quantity <= 0 {
            return Err(ReserveError::InvalidQuantity);
        }
        if quantity > p.remaining_quantity {
            return Err(ReserveError::InsufficientStock);
        }
        self.prices.set(i, Price { remaining_quantity: p.remaining_quantity - quantity, ..p });
        Ok(p.remaining_quantity)
    }
}

} // verus!
