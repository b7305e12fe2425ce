//! The shape of a pool snapshot as delivered by an external node, and the
//! extraction of the `(tick, amount)` and `(range, liquidity)` pairs the
//! pool is seeded from.

use vstd::prelude::*;

verus! {

use crate::common::PoolPairsMap;
use crate::common::Side;
use crate::math::Amount;
use crate::math::Tick;
use crate::range_orders::Liquidity;

/// A node response wrapping a result payload.
#[derive(Clone, Debug)]
pub struct Rpc<T> {
    pub result: T,
}

/// Per-direction grouping of the limit orders: asks sell Base, bids sell
/// Quote.
#[derive(Clone, Debug)]
pub struct AskBidMap<S> {
    pub asks: S,
    pub bids: S,
}

/// One range order as reported in a snapshot.
#[derive(Clone, Debug)]
pub struct RangeOrder {
    pub lp: String,
    pub id: Amount,
    pub range_start: Tick,
    pub range_end: Tick,
    pub liquidity: Liquidity,
    pub fees_earned: PoolPairsMap<Amount>,
}

/// One limit order as reported in a snapshot.
#[derive(Clone, Debug)]
pub struct LimitOrder {
    pub lp: String,
    pub id: Amount,
    pub tick: Tick,
    pub sell_amount: Amount,
    pub fees_earned: Amount,
    pub original_sell_amount: Amount,
}

/// The orders of one pool, as reported in a snapshot.
#[derive(Clone, Debug)]
pub struct PoolOrders {
    /// Limit orders, grouped by which asset they sell.
    pub limit_orders: AskBidMap<Vec<LimitOrder>>,
    /// Range orders can be both buy and/or sell, so they are not split; the
    /// current range-order price determines which they are.
    pub range_orders: Vec<RangeOrder>,
}

pub type PoolOrdersRpc = Rpc<PoolOrders>;

impl Rpc<PoolOrders> {
    /// The seeds for a fresh pool serving `side`: the `(tick, sell amount)`
    /// of each limit order on the side the taker consumes, in snapshot
    /// order, and the `(tick range, liquidity)` of every range order, in
    /// snapshot order.
    pub fn into_pool_orders(self, side: &Side) -> (r: (
        Vec<(Tick, Amount)>,
        Vec<((Tick, Tick), Liquidity)>,
    ))
        ensures
            ({
                let chosen = match side {
                    Side::Buy => self.result.limit_orders.asks@,
                    Side::Sell => self.result.limit_orders.bids@,
                };
                r.0@.len() == chosen.len() && forall|i: int|
                    0 <= i < chosen.len() ==> r.0@[i] == (
                        (#[trigger] chosen[i]).tick,
                        chosen[i].sell_amount,
                    )
            }),
            r.1@.len() == self.result.range_orders@.len(),
            forall|i: int|
                0 <= i < self.result.range_orders@.len() ==> r.1@[i] == (
                    (
                        (#[trigger] self.result.range_orders@[i]).range_start,
                        self.result.range_orders@[i].range_end,
                    ),
                    self.result.range_orders@[i].liquidity,
                ),
    {
        let orders = match side {
            Side::Buy => &self.result.limit_orders.asks,
            Side::Sell => &self.result.limit_orders.bids,
        };
        let mut limit_seeds: Vec<(Tick, Amount)> = Vec::new();
        let mut i: usize = 0;
        while i < orders.len()
            invariant
                i <= orders@.len(),
                limit_seeds@.len() == i,
                forall|k: int|
                    0 <= k < i ==> limit_seeds@[k] == (
                        (#[trigger] orders@[k]).tick,
                        orders@[k].sell_amount,
                    ),
            decreases orders@.len() - i,
        {
            limit_seeds.push((orders[i].tick, orders[i].sell_amount));
            i = i + 1;
        }
        let mut range_seeds: Vec<((Tick, Tick), Liquidity)> = Vec::new();
        let mut j: usize = 0;
        while j < self.result.range_orders.len()
            invariant
                j <= self.result.range_orders@.len(),
                range_seeds@.len() == j,
                forall|k: int|
                    0 <= k < j ==> range_seeds@[k] == (
                        (
                            (#[trigger] self.result.range_orders@[k]).range_start,
                            self.result.range_orders@[k].range_end,
                        ),
                        self.result.range_orders@[k].liquidity,
                    ),
            decreases self.result.range_orders@.len() - j,
        {
            let o = &self.result.range_orders[j];
            range_seeds.push(((o.range_start, o.range_end), o.liquidity));
            j = j + 1;
        }
        (limit_seeds, range_seeds)
    }
}

} // verus!
