//! The price of a cart.

use crate::text::str_eq;
use vstd::prelude::*;

verus! {

#[derive(Debug)]
pub struct CartItem {
    pub name: String,
    pub category: String,
    pub price: i32,
}

/// Takes an amount off every item of a category.
#[derive(Debug)]
pub struct Coupon {
    pub target_category: String,
    pub discount_amount: i32,
}

/// The price of an item with a coupon, never below 0 where the coupon is for it.
pub open spec fn price_of(item: CartItem, coupon: Option<Coupon>) -> int {
    match coupon {
        Some(c) => if item.category@ == c.target_category@ {
            if item.price < c.discount_amount {
                0
            } else {
                item.price - c.discount_amount
            }
        } else {
            item.price as int
        },
        None => item.price as int,
    }
}

/// The price of a cart with a coupon.
pub open spec fn total_of(cart: Seq<CartItem>, coupon: Option<Coupon>) -> int
    decreases cart.len(),
{
    if cart.len() == 0 {
        0
    } else {
        total_of(cart.drop_last(), coupon) + price_of(cart.last(), coupon)
    }
}

/// No sum or difference leaves the range of its type.
pub open spec fn prices_fit(cart: Seq<CartItem>, coupon: Option<Coupon>) -> bool {
    &&& forall|n: int|
        #![trigger cart.take(n)]
        0 <= n <= cart.len() ==> i32::MIN <= total_of(cart.take(n), coupon) <= i32::MAX
    &&& coupon matches Some(c) ==> forall|i: int|
        0 <= i < cart.len() && (#[trigger] cart[i]).category@ == c.target_category@ ==> i32::MIN
            <= cart[i].price - c.discount_amount <= i32::MAX
}

/// The price of a cart with a coupon.
pub fn calculate_total_price(cart: &Vec<CartItem>, coupon: &Option<Coupon>) -> (r: i32)
    requires
        prices_fit(cart@, *coupon),
    ensures
        r == total_of(cart@, *coupon),
{
    let mut total: i32 = 0;
    let mut i: usize = 0;
    while i < cart.len()
        invariant
            i <= cart@.len(),
            prices_fit(cart@, *coupon),
            total == total_of(cart@.take(i as int), *coupon),
        decreases cart@.len() - i,
    {
        let item = &cart[i];
        proof {
            let next = cart@.take(i + 1);
            assert(next.drop_last() == cart@.take(i as int));
            assert(next.last() == *item);
        }
        let price: i32 = match coupon {
            Some(c) => if str_eq(item.category.as_str(), c.target_category.as_str()) {
                let discounted: i32 = item.price - c.discount_amount;
                if discounted < 0 {
                    0
                } else {
                    discounted
                }
            } else {
                item.price
            },
            None => item.price,
        };
        total = total + price;
        i += 1;
    }
    assert(cart@.take(cart@.len() as int) == cart@);
    total
}

/// A coupon never makes a cart of prices from 0 up cost less than nothing.
pub proof fn lemma_never_negative(cart: Seq<CartItem>, coupon: Option<Coupon>)
    requires
        forall|i: int| 0 <= i < cart.len() ==> (#[trigger] cart[i]).price >= 0,
    ensures
        total_of(cart, coupon) >= 0,
    decreases cart.len(),
{
    if cart.len() > 0 {
        let rest = cart.drop_last();
        assert(forall|i: int| 0 <= i < rest.len() ==> rest[i] == cart[i]);
        lemma_never_negative(rest, coupon);
        assert(cart[cart.len() - 1].price >= 0);
    }
}

/// A coupon takes its amount off what is of its category, down to nothing, and nothing off the
/// rest.
pub proof fn lemma_price(item: CartItem, c: Coupon)
    ensures
        price_of(item, None) == item.price,
        item.category@ != c.target_category@ ==> price_of(item, Some(c)) == item.price,
        item.category@ == c.target_category@ && item.price >= c.discount_amount ==> price_of(
            item,
            Some(c),
        ) + c.discount_amount == item.price,
        item.category@ == c.target_category@ && item.price <= c.discount_amount ==> price_of(
            item,
            Some(c),
        ) == 0,
{
}

/// The total is what each thing costs, together.
pub proof fn lemma_total_adds_up(cart: Seq<CartItem>, item: CartItem, coupon: Option<Coupon>)
    ensures
        total_of(Seq::empty(), coupon) == 0,
        total_of(cart.push(item), coupon) == total_of(cart, coupon) + price_of(item, coupon),
{
    assert(cart.push(item).drop_last() =~= cart);
}

}
