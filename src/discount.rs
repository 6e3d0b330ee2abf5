//! Discount lookup: which discount, if any, a listing carries right now.

use vstd::prelude::*;

verus! {

/// Associates a listing with a discount.
#[derive(Clone, Copy, Debug, PartialEq, Eq, Structural)]
pub struct DiscountLink {
    pub price_id: i32,
    pub discount_id: i32,
    pub deleted: bool,
}

/// A live link from listing `price_id` to discount `discount_id`.
pub open spec fn live_link(price_id: i32, discount_id: i32) -> DiscountLink {
    DiscountLink { price_id, discount_id, deleted: false }
}

/// The discounts of the live links of listing `price_id`, in order.
pub open spec fn active_ids(links: Seq<DiscountLink>, price_id: i32) -> Seq<i32>
    decreases links.len(),
{
    if links.len() == 0 {
        Seq::empty()
    } else {
        let rest = active_ids(links.drop_last(), price_id);
        let l = links.last();
        if l.price_id == price_id && !l.deleted {
            rest.push(l.discount_id)
        } else {
            rest
        }
    }
}

/// The discount in force for a listing: the one live link's discount, and
/// none where there is no live link or more than one.
pub open spec fn active_discount(links: Seq<DiscountLink>, price_id: i32) -> Option<i32> {
    if active_ids(links, price_id).len() == 1 {
        Some(active_ids(links, price_id)[0])
    } else {
        None
    }
}

/// The links between listings and discounts.
pub struct DiscountBook {
    pub links: Vec<DiscountLink>,
}

impl DiscountBook {
    /// A book with no links.
    pub fn new() -> (r: DiscountBook)
        ensures
            r.links@ == Seq::<DiscountLink>::empty(),
    {
        DiscountBook { links: Vec::new() }
    }

    /// Links listing `price_id` to discount `discount_id`.
    pub fn link(&mut self, price_id: i32, discount_id: i32)
        ensures
            final(self).links@ == old(self).links@.push(
                DiscountLink { price_id, discount_id, deleted: false },
            ),
    {
        self.links.push(DiscountLink { price_id, discount_id, deleted: false });
    }

    /// Links each listing of `price_ids`, in order, to discount `discount_id`.
    pub fn link_prices(&mut self, discount_id: i32, price_ids: &Vec<i32>)
        ensures
            final(self).links@ == old(self).links@ + price_ids@.map_values(
                |p: i32| live_link(p, discount_id),
            ),
    {
        let mut i: usize = 0;
        while i < price_ids.len()
            invariant
                0 <= i <= price_ids@.len(),
                self.links@ == old(self).links@ + price_ids@.subrange(0, i as int).map_values(
                    |p: i32| live_link(p, discount_id),
                ),
            decreases price_ids@.len() - i,
        {
            self.link(price_ids[i], discount_id);
            proof {
                assert(price_ids@.subrange(0, i + 1).map_values(
                    |p: i32| live_link(p, discount_id),
                ) =~= price_ids@.subrange(0, i as int).map_values(
                    |p: i32| live_link(p, discount_id),
                ).push(live_link(price_ids@[i as int], discount_id)));
            }
            i += 1;
        }
        proof {
            assert(price_ids@.subrange(0, price_ids@.len() as int) =~= price_ids@);
        }
    }

    /// Soft-deletes every live link of discount `discount_id`.
    pub fn unlink_discount(&mut self, discount_id: i32)
        ensures
            final(self).links@.len() == old(self).links@.len(),
            forall|i: int|
                0 <= i < old(self).links@.len() ==> #[trigger] final(self).links@[i] == if old(
                    self,
                ).links@[i].discount_id == discount_id {
                    DiscountLink { deleted: true, ..old(self).links@[i] }
                } else {
                    old(self).links@[i]
                },
    {
        let n = self.links.len();
        let mut i: usize = 0;
        while i < n
            invariant
                n == old(self).links@.len(),
                self.links@.len() == n,
                0 <= i <= n,
                forall|j: int|
                    i <= j < n ==> #[trigger] self.links@[j] == old(self).links@[j],
                forall|j: int|
                    0 <= j < i ==> #[trigger] self.links@[j] == if old(self).links@[j].discount_id
                        == discount_id {
                        DiscountLink { deleted: true, ..old(self).links@[j] }
                    } else {
                        old(self).links@[j]
                    },
            decreases n - i,
        {
            let l = self.links[i];
            if l.discount_id == discount_id {
                self.links.set(i, DiscountLink { deleted: true, ..l });
            }
            i += 1;
        }
    }

    /// The discount in force for listing `price_id`, read without locking.
    pub fn active_discount_for(&self, price_id: i32) -> (r: Option<i32>)
        ensures
            r == active_discount(self.links@, price_id),
    {
        let mut count: usize = 0;
        let mut first: i32 = 0;
        let mut i: usize = 0;
        while i < self.links.len()
            invariant
                0 <= i <= self.links@.len(),
                count <= i,
                count == active_ids(self.links@.subrange(0, i as int), price_id).len(),
                count > 0 ==> first == active_ids(self.links@.subrange(0, i as int), price_id)[0],
            decreases self.links@.len() - i,
        {
            let l = self.links[i];
            proof {
                assert(self.links@.subrange(0, i + 1).drop_last() =~= self.links@.subrange(
                    0,
                    i as int,
                ));
            }
            if l.price_id == price_id && !l.deleted {
                if count == 0 {
                    first = l.discount_id;
                }
                count += 1;
            }
            i += 1;
        }
        proof {
            assert(self.links@.subrange(0, self.links@.len() as int) =~= self.links@);
        }
        if count == 1 {
            Some(first)
        } else {
            None
        }
    }
}

impl DiscountBook {
    /// Makes `price_ids` the listings of discount `discount_id`: its earlier
    /// links are soft-deleted and the new ones added in order.
    pub fn replace_links(&mut self, discount_id: i32, price_ids: &Vec<i32>)
        ensures
            final(self).links@.len() == old(self).links@.len() + price_ids@.len(),
            forall|i: int|
                0 <= i < old(self).links@.len() ==> #[trigger] final(self).links@[i] == if old(
                    self,
                ).links@[i].discount_id == discount_id {
                    DiscountLink { deleted: true, ..old(self).links@[i] }
                } else {
                    old(self).links@[i]
                },
            forall|k: int|
                0 <= k < price_ids@.len() ==> #[trigger] final(self).links@[old(self).links@.len()
                    + k] == live_link(price_ids@[k], discount_id),
    {
        self.unlink_discount(discount_id);
        let ghost mid = self.links@;
        self.link_prices(discount_id, price_ids);
        proof {
            assert forall|k: int| 0 <= k < price_ids@.len() implies #[trigger] self.links@[mid.len()
                + k] == live_link(price_ids@[k], discount_id) by {
                assert(self.links@[mid.len() + k] == price_ids@.map_values(
                    |p: i32| live_link(p, discount_id),
                )[k]);
            }
        }
    }
}

} // verus!
