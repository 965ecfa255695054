//! What things cost, in whole numbers.
use crate::cards::Edition;
use crate::double::{lemma_floored, Double};
use crate::exact::{
    lemma_half, lemma_in_halves, lemma_product, lemma_quotient, lemma_sum, lemma_whole,
};
use crate::items::{edition_cost, law_prices_are_positive, price, resale};
use vstd::arithmetic::power2;
use vstd::prelude::*;

verus! {

/// A price in whole numbers: what something costs in full, and a half, with the
/// discount, without the places after the point; at least 1.
pub open spec fn whole_price(full: int, discount: int) -> int {
    let cost = ((2 * full + 1) * (100 - discount)) / 200;
    if cost < 1 {
        1
    } else {
        cost
    }
}

/// Half of a price in whole numbers, at least 1.
pub open spec fn half_price(full: int, discount: int) -> int {
    let half = whole_price(full, discount) / 2;
    if half < 1 {
        1
    } else {
        half
    }
}

/// What something costs, without rounding: its base and its edition, with the
/// discount.
pub proof fn law_prices_in_whole_numbers(base: i64, edition: Edition, discount: i64)
    requires
        0 <= base <= 1_000_000,
        0 <= discount <= 100,
    ensures
        price(base, edition, discount, false) == whole_price(
            base + edition_cost(edition),
            discount as int,
        ),
{
    reveal(price);
    let n = (base + edition_cost(edition)) as nat;
    let rest = (100 - discount) as nat;
    let p = (2 * n + 1) * rest;
    assert(p <= 300_000_000) by (nonlinear_arith)
        requires
            p == (2 * n + 1) * rest,
            n <= 1_000_005,
            rest <= 100,
    ;
    power2::lemma2_to64();
    lemma_in_halves(n);
    lemma_half();
    lemma_sum(Double::of(n as int), 2 * n, Double::frac(5, 10), 1, 1);
    let full = Double::of(n as int).plus(Double::frac(5, 10));
    lemma_whole(rest);
    lemma_product(full, 2 * n + 1, 1, Double::of(rest as int), rest);
    let cut = full.times(Double::of(rest as int));
    lemma_whole(100);
    lemma_quotient(cut, p, 1, Double::of(100), 100);
    lemma_floored(cut.over(Double::of(100)));
}

/// What something sells for: half of what it costs, and what was added to it. A
/// coupon does not lower it.
pub proof fn law_resale_in_whole_numbers(base: i64, edition: Edition, discount: i64, extra: i64)
    requires
        0 <= base <= 1_000_000,
        0 <= discount <= 100,
        extra + half_price(base + edition_cost(edition), discount as int) <= i64::MAX,
    ensures
        resale(base, edition, discount, extra) == half_price(
            base + edition_cost(edition),
            discount as int,
        ) + extra,
{
    law_prices_in_whole_numbers(base, edition, discount);
    law_prices_are_positive(base, edition, discount);
}

} // verus!
