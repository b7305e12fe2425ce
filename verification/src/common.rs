//! The closed type system around a pool: assets, trade sides, swap
//! directions, and the fixed two-slot per-asset container.

use vstd::prelude::*;

verus! {

use crate::math::SqrtPriceQ64F96;
use crate::math::min_sqrt_price;
use crate::math::max_sqrt_price;
use crate::math::min_sqrt_price_value;
use crate::math::max_sqrt_price_value;

/// An opaque identifier naming the owner of a position.
pub type LiquidityProvider = i32;

/// A side of a trade: a taker either buys or sells the Base asset.
#[derive(Clone, Copy, Debug, PartialEq, Eq, Structural)]
pub enum Side {
    Buy,
    Sell,
}

/// One of the two assets of a pool.
#[derive(Clone, Copy, Debug, PartialEq, Eq, Structural)]
pub enum Pairs {
    Base,
    Quote,
}

impl Side {
    pub open spec fn spec_to_sold_pair(self) -> Pairs {
        match self {
            Side::Buy => Pairs::Quote,
            Side::Sell => Pairs::Base,
        }
    }

    /// The asset a taker on this side hands over.
    pub fn to_sold_pair(&self) -> (r: Pairs)
        ensures
            r == self.spec_to_sold_pair(),
    {
        match self {
            Side::Buy => Pairs::Quote,
            Side::Sell => Pairs::Base,
        }
    }

    pub open spec fn spec_not(self) -> Side {
        match self {
            Side::Sell => Side::Buy,
            Side::Buy => Side::Sell,
        }
    }

    /// The opposite side; applying it twice gives the side back.
    pub fn not(self) -> (r: Side)
        ensures
            r == self.spec_not(),
    {
        match self {
            Side::Sell => Side::Buy,
            Side::Buy => Side::Sell,
        }
    }
}

impl Pairs {
    pub open spec fn spec_not(self) -> Pairs {
        match self {
            Pairs::Base => Pairs::Quote,
            Pairs::Quote => Pairs::Base,
        }
    }

    /// The other asset; applying it twice gives the asset back.
    pub fn not(self) -> (r: Pairs)
        ensures
            r == self.spec_not(),
    {
        match self {
            Pairs::Base => Pairs::Quote,
            Pairs::Quote => Pairs::Base,
        }
    }

    pub open spec fn spec_sell_order(self) -> Side {
        match self {
            Pairs::Base => Side::Sell,
            Pairs::Quote => Side::Buy,
        }
    }

    /// The side whose taker sells this asset.
    pub fn sell_order(&self) -> (r: Side)
        ensures
            r == self.spec_sell_order(),
    {
        match self {
            Pairs::Base => Side::Sell,
            Pairs::Quote => Side::Buy,
        }
    }
}

/// Negating a side or an asset twice gives the original back, and the sold
/// asset of the opposite side is the opposite asset.
pub proof fn lemma_negation_involutive(side: Side, pair: Pairs)
    ensures
        side.spec_not().spec_not() == side,
        pair.spec_not().spec_not() == pair,
        side.spec_not().spec_to_sold_pair() == side.spec_to_sold_pair().spec_not(),
        pair.spec_sell_order().spec_to_sold_pair() == pair,
{
}

/// A fixed container with one slot for each asset; both slots are always
/// populated.
#[derive(Clone, Copy, Debug, PartialEq, Eq)]
pub struct PoolPairsMap<T> {
    pub base: T,
    pub quote: T,
}

impl<T> PoolPairsMap<T> {

    /// Apply `f` to both slots, handing it the matching asset.
    pub fn map_with_pair<R, F: Fn(Pairs, T) -> R>(self, f: F) -> (r: PoolPairsMap<R>)
        requires
            call_requires(f, (Pairs::Base, self.base)),
            call_requires(f, (Pairs::Quote, self.quote)),
        ensures
            call_ensures(f, (Pairs::Base, self.base), r.base),
            call_ensures(f, (Pairs::Quote, self.quote), r.quote),
    {
        let PoolPairsMap { base, quote } = self;
        PoolPairsMap { base: f(Pairs::Base, base), quote: f(Pairs::Quote, quote) }
    }
}

impl PoolPairsMap<crate::uint256::U256> {
    /// Pointwise combination: both slots added elementwise, for sums known
    /// to fit the amount width.
    pub fn add(self, rhs: PoolPairsMap<crate::uint256::U256>) -> (r: PoolPairsMap<
        crate::uint256::U256,
    >)
        requires
            self.base@ + rhs.base@
                < 0x10000000000000000000000000000000000000000000000000000000000000000nat,
            self.quote@ + rhs.quote@
                < 0x10000000000000000000000000000000000000000000000000000000000000000nat,
        ensures
            r.base@ == self.base@ + rhs.base@,
            r.quote@ == self.quote@ + rhs.quote@,
    {
        let (base, _o1) = self.base.overflowing_add(&rhs.base);
        let (quote, _o2) = self.quote.overflowing_add(&rhs.quote);
        PoolPairsMap { base, quote }
    }
}

impl<T: Copy> PoolPairsMap<T> {
    /// Build from an array: slot order is Base, then Quote.
    pub fn from_array(array: [T; 2]) -> (r: Self)
        ensures
            r.base == array@[0],
            r.quote == array@[1],
    {
        Self { base: array[0], quote: array[1] }
    }
}

/// A statically chosen direction of a swap: which asset is sold, which sqrt
/// price bounds the move, and which way "worse" points.
pub trait SwapDirection {
    /// The asset this direction sells (what the taker provides).
    spec fn spec_input_side() -> Pairs;

    /// The sqrt price at the far end of this direction.
    spec fn spec_worst_sqrt_price() -> nat;

    /// Whether `a` is strictly further in the unfavorable direction than `b`.
    spec fn spec_more_unfavorable(a: nat, b: nat) -> bool;

    /// The asset this direction of swap sells.
    fn input_side() -> (r: Pairs)
        ensures
            r == Self::spec_input_side(),
    ;

    /// The worst price in this swap direction.
    fn worst_sqrt_price() -> (r: SqrtPriceQ64F96)
        ensures
            r@ == Self::spec_worst_sqrt_price(),
    ;

    /// "More unfavorable" is a strict total order on prices.
    proof fn lemma_more_unfavorable_total(a: nat, b: nat, c: nat)
        ensures
            !(Self::spec_more_unfavorable(a, b) && Self::spec_more_unfavorable(b, a)),
            Self::spec_more_unfavorable(a, b) || Self::spec_more_unfavorable(b, a) || a == b,
            !Self::spec_more_unfavorable(b, c) && Self::spec_more_unfavorable(b, a) ==> !Self::spec_more_unfavorable(a, c),
            !Self::spec_more_unfavorable(a, b) && !Self::spec_more_unfavorable(b, c) ==> !Self::spec_more_unfavorable(a, c),
    ;

    /// The sold asset determines the whole direction: selling Base means the
    /// sqrt price falls (lower is worse, the minimum is the far end), selling
    /// Quote means it rises.
    proof fn lemma_direction_consistent()
        ensures
            Self::spec_input_side() == Pairs::Base ==> (forall|a: nat, b: nat|
                Self::spec_more_unfavorable(a, b) <==> a < b)
                && Self::spec_worst_sqrt_price() == min_sqrt_price_value(),
            Self::spec_input_side() == Pairs::Quote ==> (forall|a: nat, b: nat|
                Self::spec_more_unfavorable(a, b) <==> a > b)
                && Self::spec_worst_sqrt_price() == max_sqrt_price_value(),
    ;

    /// Whether `sqrt_price` is more than `sqrt_price_other` for this
    /// direction of swap, "more" pointing the unfavorable way.
    fn sqrt_price_op_more_than(
        sqrt_price: SqrtPriceQ64F96,
        sqrt_price_other: SqrtPriceQ64F96,
    ) -> (r: bool)
        ensures
            r == Self::spec_more_unfavorable(sqrt_price@, sqrt_price_other@),
    ;
}

/// The direction that sells Base and buys Quote: the sqrt price falls.
pub struct BaseToQuote {}

/// The direction that sells Quote and buys Base: the sqrt price rises.
pub struct QuoteToBase {}

impl SwapDirection for BaseToQuote {
    open spec fn spec_input_side() -> Pairs {
        Pairs::Base
    }

    open spec fn spec_worst_sqrt_price() -> nat {
        min_sqrt_price_value()
    }

    open spec fn spec_more_unfavorable(a: nat, b: nat) -> bool {
        a < b
    }

    proof fn lemma_more_unfavorable_total(a: nat, b: nat, c: nat) {
    }

    proof fn lemma_direction_consistent() {
    }

    fn input_side() -> (r: Pairs) {
        Pairs::Base
    }

    fn worst_sqrt_price() -> (r: SqrtPriceQ64F96) {
        min_sqrt_price()
    }

    fn sqrt_price_op_more_than(
        sqrt_price: SqrtPriceQ64F96,
        sqrt_price_other: SqrtPriceQ64F96,
    ) -> (r: bool) {
        sqrt_price.lt(&sqrt_price_other)
    }
}

impl SwapDirection for QuoteToBase {
    open spec fn spec_input_side() -> Pairs {
        Pairs::Quote
    }

    open spec fn spec_worst_sqrt_price() -> nat {
        max_sqrt_price_value()
    }

    open spec fn spec_more_unfavorable(a: nat, b: nat) -> bool {
        a > b
    }

    proof fn lemma_more_unfavorable_total(a: nat, b: nat, c: nat) {
    }

    proof fn lemma_direction_consistent() {
    }

    fn input_side() -> (r: Pairs) {
        Pairs::Quote
    }

    fn worst_sqrt_price() -> (r: SqrtPriceQ64F96) {
        max_sqrt_price()
    }

    fn sqrt_price_op_more_than(
        sqrt_price: SqrtPriceQ64F96,
        sqrt_price_other: SqrtPriceQ64F96,
    ) -> (r: bool) {
        sqrt_price_other.lt(&sqrt_price)
    }
}

} // verus!
