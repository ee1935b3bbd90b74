//! Quotes in fixed-point form and the exact return factor of a path.

use crate::price_path::{PricingPath, Side};
use crate::price_store::PriceStore;
use crate::wide::{limbs_gt, product, product_limbs};
use vstd::prelude::*;

verus! {

/// Prices are fixed-point integers: a price `p` stands for `p / PRICE_SCALE`
/// (eight decimal places).
pub const PRICE_SCALE: u64 = 100_000_000;

/// The latest best quote for one market, prices in units of `1 / PRICE_SCALE`.
#[derive(Debug)]
pub struct TopOfBookUpdate {
    pub symbol: String,
    pub bid_price: u64,
    pub ask_price: u64,
}

impl Clone for TopOfBookUpdate {
    fn clone(&self) -> (r: Self)
        ensures
            r == *self,
    {
        TopOfBookUpdate {
            symbol: self.symbol.clone(),
            bid_price: self.bid_price,
            ask_price: self.ask_price,
        }
    }
}

/// The multiplicative result of running a path from one unit of the home
/// asset: `num / den`, where `num` and `den` are the products of the three
/// numerator and the three denominator factors.
#[derive(Debug, Clone, Copy)]
pub struct ReturnFactor {
    pub numerator: (u64, u64, u64),
    pub denominator: (u64, u64, u64),
}

impl ReturnFactor {
    pub open spec fn num(self) -> int {
        self.numerator.0 * self.numerator.1 * self.numerator.2
    }

    pub open spec fn den(self) -> int {
        self.denominator.0 * self.denominator.1 * self.denominator.2
    }

    /// More than one unit comes back: `num / den > 1`.
    pub open spec fn spec_is_profitable(self) -> bool {
        self.num() > self.den()
    }

    /// `self` is strictly greater than `other` as a fraction.
    pub open spec fn spec_exceeds(self, other: ReturnFactor) -> bool {
        self.num() * other.den() > other.num() * self.den()
    }

    /// Whether the path returns strictly more than it started with; break-even is not profitable.
    pub fn is_profitable(&self) -> (r: bool)
        ensures
            r == self.spec_is_profitable(),
    {
        let n = product_limbs(&vec![self.numerator.0, self.numerator.1, self.numerator.2]);
        let d = product_limbs(&vec![self.denominator.0, self.denominator.1, self.denominator.2]);
        proof {
            lemma_product3(self.numerator.0, self.numerator.1, self.numerator.2);
            lemma_product3(self.denominator.0, self.denominator.1, self.denominator.2);
        }
        limbs_gt(&n, &d)
    }

    /// Whether `self` is strictly greater than `other`.
    pub fn exceeds(&self, other: &ReturnFactor) -> (r: bool)
        ensures
            r == self.spec_exceeds(*other),
    {
        let a = self.numerator;
        let b = other.denominator;
        let c = other.numerator;
        let d = self.denominator;
        let left = product_limbs(&vec![a.0, a.1, a.2, b.0, b.1, b.2]);
        let right = product_limbs(&vec![c.0, c.1, c.2, d.0, d.1, d.2]);
        proof {
            lemma_product6(a.0, a.1, a.2, b.0, b.1, b.2);
            lemma_product6(c.0, c.1, c.2, d.0, d.1, d.2);
        }
        limbs_gt(&left, &right)
    }
}

proof fn lemma_product_push(s: Seq<u64>, x: u64)
    ensures
        product(s.push(x)) == product(s) * x,
{
    assert(s.push(x).drop_last() =~= s);
}

proof fn lemma_product3(x: u64, y: u64, z: u64)
    ensures
        product(seq![x, y, z]) == x * y * z,
{
    let e = Seq::<u64>::empty();
    lemma_product_push(e, x);
    lemma_product_push(e.push(x), y);
    lemma_product_push(e.push(x).push(y), z);
    assert(e.push(x).push(y).push(z) =~= seq![x, y, z]);
}

proof fn lemma_product6(x1: u64, x2: u64, x3: u64, y1: u64, y2: u64, y3: u64)
    ensures
        product(seq![x1, x2, x3, y1, y2, y3]) == (x1 * x2 * x3) * (y1 * y2 * y3),
{
    let s3 = seq![x1, x2, x3];
    lemma_product3(x1, x2, x3);
    lemma_product_push(s3, y1);
    lemma_product_push(s3.push(y1), y2);
    lemma_product_push(s3.push(y1).push(y2), y3);
    assert(s3.push(y1).push(y2).push(y3) =~= seq![x1, x2, x3, y1, y2, y3]);
    let p = x1 * x2 * x3;
    assert(p * y1 * y2 * y3 == p * (y1 * y2 * y3)) by (nonlinear_arith);
}

/// The conversion rate of one leg as a fraction `(num, den)` of a quote
/// `(bid, ask)`: an `Ask` leg divides by the ask price, a `Bid` leg
/// multiplies by the bid price.
pub open spec fn leg_rate(side: Side, quote: (u64, u64)) -> (u64, u64) {
    match side {
        Side::Ask => (PRICE_SCALE, quote.1),
        Side::Bid => (quote.0, PRICE_SCALE),
    }
}

fn exec_leg_rate(side: Side, quote: (u64, u64)) -> (r: (u64, u64))
    ensures
        r == leg_rate(side, quote),
{
    match side {
        Side::Ask => (PRICE_SCALE, quote.1),
        Side::Bid => (quote.0, PRICE_SCALE),
    }
}

/// The return factor of `path` given the quotes of its three legs.
pub open spec fn return_with(path: PricingPath, q1: (u64, u64), q2: (u64, u64), q3: (u64, u64)) -> ReturnFactor {
    let r1 = leg_rate(path.leg1.side, q1);
    let r2 = leg_rate(path.leg2.side, q2);
    let r3 = leg_rate(path.leg3.side, q3);
    ReturnFactor { numerator: (r1.0, r2.0, r3.0), denominator: (r1.1, r2.1, r3.1) }
}

/// The return factor of `path` under `prices`, or `None` while one of its
/// markets has no quote yet.
pub open spec fn return_of(prices: Map<Seq<char>, (u64, u64)>, path: PricingPath) -> Option<ReturnFactor> {
    let s1 = path.leg1.symbol.symbol@;
    let s2 = path.leg2.symbol.symbol@;
    let s3 = path.leg3.symbol.symbol@;
    if prices.contains_key(s1) && prices.contains_key(s2) && prices.contains_key(s3) {
        Some(return_with(path, prices[s1], prices[s2], prices[s3]))
    } else {
        None
    }
}

/// The return factor of `path` under `prices` when it is profitable.
pub open spec fn profitable_return(prices: Map<Seq<char>, (u64, u64)>, path: PricingPath) -> Option<
    ReturnFactor,
> {
    match return_of(prices, path) {
        Some(r) => if r.spec_is_profitable() {
            Some(r)
        } else {
            None
        },
        None => None,
    }
}

/// Computes the return factor of `path` from the quotes in `store`; `None`
/// while one of its markets has no quote yet.
pub fn path_return(store: &PriceStore, path: &PricingPath) -> (r: Option<ReturnFactor>)
    ensures
        r == return_of(store@, *path),
{
    let q1 = match store.get(&path.leg1.symbol.symbol) {
        Some(q) => q,
        None => return None,
    };
    let q2 = match store.get(&path.leg2.symbol.symbol) {
        Some(q) => q,
        None => return None,
    };
    let q3 = match store.get(&path.leg3.symbol.symbol) {
        Some(q) => q,
        None => return None,
    };
    let r1 = exec_leg_rate(path.leg1.side, q1);
    let r2 = exec_leg_rate(path.leg2.side, q2);
    let r3 = exec_leg_rate(path.leg3.side, q3);
    Some(ReturnFactor { numerator: (r1.0, r2.0, r3.0), denominator: (r1.1, r2.1, r3.1) })
}

/// The return factor of `path` when it is profitable under `store`.
pub fn profitable_path_return(store: &PriceStore, path: &PricingPath) -> (r: Option<ReturnFactor>)
    ensures
        r == profitable_return(store@, *path),
{
    match path_return(store, path) {
        Some(f) => if f.is_profitable() {
            Some(f)
        } else {
            None
        },
        None => None,
    }
}

} // verus!
