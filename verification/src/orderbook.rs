//! Per-symbol central limit order book with price-time priority.
//!
//! Each side of the book is a vector of price levels; bids are kept in
//! strictly descending price order and asks in strictly ascending order,
//! so the best level of either side is at index 0. Within a level the
//! resting orders form a FIFO queue: arrival order is time priority.

use vstd::prelude::*;

use crate::fixed::{PRICE_LIMIT, VOLUME_LIMIT};
use crate::market::{Trade, TradeType};
use crate::rng;

verus! {

/// Whether an order buys or sells the base currency.
#[derive(Clone, Copy, Debug, PartialEq, Eq, Structural)]
pub enum OrderSide {
    Buy,
    Sell,
}

/// The matching policy an order asks for.
#[derive(Clone, Copy, Debug, PartialEq, Eq, Structural)]
pub enum OrderType {
    Market,
    Limit,
    Stop,
    StopLimit,
}

/// A client or participant order. Ephemeral unless it rests on a book.
#[derive(Clone, Debug)]
pub struct Order {
    pub id: u128,
    pub symbol: String,
    pub side: OrderSide,
    /// Base-currency units; must be positive to enter a book.
    pub amount: u64,
    /// Micro-units of quote currency per base unit; must be positive.
    pub price: u64,
    /// Unix seconds at creation.
    pub timestamp: i64,
    pub participant_id: String,
    pub order_type: OrderType,
}

/// One price level: a FIFO queue of resting orders sharing a price.
#[derive(Clone, Debug)]
pub struct PriceLevel {
    pub price: u64,
    pub orders: Vec<Order>,
}

/// A central limit order book for one symbol.
#[derive(Clone, Debug)]
pub struct OrderBook {
    pub symbol: String,
    /// Price levels in strictly descending price order (best bid first).
    pub bids: Vec<PriceLevel>,
    /// Price levels in strictly ascending price order (best ask first).
    pub asks: Vec<PriceLevel>,
    pub last_trade_price: u64,
    pub total_volume: u128,
}

/// Book volume counters are clamped at this ceiling.
pub const TOTAL_VOLUME_LIMIT: u128 = 1_000_000_000_000_000_000_000_000_000_000_000_000;

/// Clamp a running volume total at its ceiling.
pub open spec fn clamp_total(x: int) -> u128 {
    if x > TOTAL_VOLUME_LIMIT {
        TOTAL_VOLUME_LIMIT
    } else {
        x as u128
    }
}

/// An order fit to enter a book: positive bounded amount and price.
pub open spec fn order_valid(o: Order) -> bool {
    &&& 0 < o.amount <= VOLUME_LIMIT
    &&& 0 < o.price <= PRICE_LIMIT
}

/// A well-formed price level of the given side: non-empty, and every
/// resting order carries the side and the level's price.
pub open spec fn level_wf(l: PriceLevel, side: OrderSide) -> bool {
    &&& l.orders.len() > 0
    &&& 0 < l.price <= PRICE_LIMIT
    &&& forall|j: int|
        0 <= j < l.orders.len() ==> {
            &&& (#[trigger] l.orders[j]).side == side
            &&& l.orders[j].price == l.price
            &&& order_valid(l.orders[j])
        }
}

/// A well-formed book side: every level well formed, prices strictly
/// sorted with the best price first (descending for bids, ascending for
/// asks).
pub open spec fn side_wf(levels: Seq<PriceLevel>, side: OrderSide) -> bool {
    &&& forall|i: int| 0 <= i < levels.len() ==> level_wf(#[trigger] levels[i], side)
    &&& forall|i: int, j: int|
        0 <= i < j < levels.len() ==> (if side == OrderSide::Buy {
            (#[trigger] levels[i]).price > (#[trigger] levels[j]).price
        } else {
            levels[i].price < levels[j].price
        })
}

/// Add a fill to a running volume total, clamping at the ceiling.
pub fn add_total(total: u128, fill: u64) -> (r: u128)
    requires
        total <= TOTAL_VOLUME_LIMIT,
    ensures
        r == clamp_total(total + fill),
        r <= TOTAL_VOLUME_LIMIT,
{
    let s: u128 = total + fill as u128;
    if s > TOTAL_VOLUME_LIMIT {
        TOTAL_VOLUME_LIMIT
    } else {
        s
    }
}

/// Total volume of a sequence of trades.
pub open spec fn sum_volumes(ts: Seq<Trade>) -> int
    decreases ts.len(),
{
    if ts.len() == 0 {
        0
    } else {
        ts[0].volume + sum_volumes(ts.drop_first())
    }
}

/// The trade's seller is a resting sell order in `levels` at the trade's
/// price; with `full`, one whose whole amount the trade consumed.
pub open spec fn seller_from(levels: Seq<PriceLevel>, t: Trade, full: bool) -> bool {
    exists|i: int, j: int|
        0 <= i < levels.len() && 0 <= j < levels[i].orders.len() && {
            let o = #[trigger] levels[i].orders[j];
            &&& o.participant_id == t.seller_id
            &&& o.side == OrderSide::Sell
            &&& o.price == t.price
            &&& (full ==> o.amount == t.volume)
        }
}

/// The trade's buyer is a resting buy order in `levels` at the trade's
/// price; with `full`, one whose whole amount the trade consumed.
pub open spec fn buyer_from(levels: Seq<PriceLevel>, t: Trade, full: bool) -> bool {
    exists|i: int, j: int|
        0 <= i < levels.len() && 0 <= j < levels[i].orders.len() && {
            let o = #[trigger] levels[i].orders[j];
            &&& o.participant_id == t.buyer_id
            &&& o.side == OrderSide::Buy
            &&& o.price == t.price
            &&& (full ==> o.amount == t.volume)
        }
}

/// `post` is `pre` with only its amount possibly lowered (never to zero).
pub open spec fn reduced_order(pre: Order, post: Order) -> bool {
    &&& post.id == pre.id
    &&& post.symbol == pre.symbol
    &&& post.side == pre.side
    &&& 0 < post.amount <= pre.amount
    &&& post.price == pre.price
    &&& post.timestamp == pre.timestamp
    &&& post.participant_id == pre.participant_id
    &&& post.order_type == pre.order_type
}

/// `post` is `pre` with some orders removed from the front of the queue
/// and the now-first order's amount possibly reduced; later orders are
/// untouched. This is exactly FIFO (time-priority) consumption.
pub open spec fn level_consumed_from_front(pre: PriceLevel, post: PriceLevel) -> bool {
    &&& post.price == pre.price
    &&& exists|j: int|
        0 <= j < pre.orders.len() && #[trigger] consumed_level_witness(pre, post, j)
}

/// The body of `level_consumed_from_front` for a fixed split point `j`.
pub open spec fn consumed_level_witness(pre: PriceLevel, post: PriceLevel, j: int) -> bool {
    &&& post.orders.len() == pre.orders.len() - j
    &&& reduced_order(pre.orders[j], post.orders[0])
    &&& forall|l: int| 1 <= l < post.orders.len() ==> post.orders[l] == pre.orders[j + l]
}

/// `post` is `pre` with some whole front levels removed and the next level
/// consumed from its front; later levels are untouched. This is exactly
/// price-priority consumption: a level is touched only after every better
/// level is gone, and within a level consumption is FIFO.
pub open spec fn consumed_from_front(pre: Seq<PriceLevel>, post: Seq<PriceLevel>) -> bool {
    exists|k: int| 0 <= k <= pre.len() && #[trigger] consumed_side_witness(pre, post, k)
}

/// The body of `consumed_from_front` for a fixed number `k` of fully
/// removed front levels.
pub open spec fn consumed_side_witness(pre: Seq<PriceLevel>, post: Seq<PriceLevel>, k: int) -> bool {
    &&& post.len() == pre.len() - k
    &&& (post.len() > 0 ==> level_consumed_from_front(pre[k], post[0]))
    &&& forall|i: int| 1 <= i < post.len() ==> post[i] == pre[k + i]
}

/// FIFO consumption composes.
proof fn lemma_level_consumed_trans(a: PriceLevel, b: PriceLevel, c: PriceLevel)
    requires
        level_consumed_from_front(a, b),
        level_consumed_from_front(b, c),
    ensures
        level_consumed_from_front(a, c),
{
    let j1 = choose|j: int| 0 <= j < a.orders.len() && #[trigger] consumed_level_witness(a, b, j);
    let j2 = choose|j: int| 0 <= j < b.orders.len() && #[trigger] consumed_level_witness(b, c, j);
    if j2 == 0 {
        assert(consumed_level_witness(a, c, j1));
    } else {
        assert(b.orders[j2] == a.orders[j1 + j2]);
        assert(consumed_level_witness(a, c, j1 + j2));
    }
}

/// The order `o` with its amount replaced.
pub open spec fn with_amount(o: Order, a: u64) -> Order {
    Order { amount: a, ..o }
}

/// `post` is `pre` with `o` appended at the tail of the existing level at
/// index `pos`, which already carries `o`'s price.
pub open spec fn rested_existing(pre: Seq<PriceLevel>, post: Seq<PriceLevel>, o: Order, pos: int) -> bool {
    &&& post.len() == pre.len()
    &&& pre[pos].price == o.price
    &&& post[pos].price == o.price
    &&& post[pos].orders@ == pre[pos].orders@.push(o)
    &&& forall|k: int| 0 <= k < post.len() && k != pos ==> post[k] == pre[k]
}

/// `post` is `pre` with a fresh one-order level for `o` inserted at `pos`.
pub open spec fn rested_new(pre: Seq<PriceLevel>, post: Seq<PriceLevel>, o: Order, pos: int) -> bool {
    &&& post.len() == pre.len() + 1
    &&& post[pos].price == o.price
    &&& post[pos].orders.len() == 1
    &&& post[pos].orders[0] == o
    &&& forall|k: int| 0 <= k < pos ==> post[k] == pre[k]
    &&& forall|k: int| pos < k < post.len() ==> post[k] == pre[k - 1]
}

/// `o` came to rest in its side: appended FIFO-last at its price level, or
/// on a new level of its own; every other resting order is untouched.
pub open spec fn rested_into(pre: Seq<PriceLevel>, post: Seq<PriceLevel>, o: Order) -> bool {
    ||| exists|pos: int| 0 <= pos < pre.len() && #[trigger] rested_existing(pre, post, o, pos)
    ||| exists|pos: int| 0 <= pos <= pre.len() && #[trigger] rested_new(pre, post, o, pos)
}

/// How many orders rest across a side's levels.
pub open spec fn count_orders(levels: Seq<PriceLevel>) -> int
    decreases levels.len(),
{
    if levels.len() == 0 {
        0
    } else {
        count_orders(levels.drop_last()) + levels.last().orders.len()
    }
}

/// A side's order count is never negative.
proof fn lemma_count_orders_nonneg(levels: Seq<PriceLevel>)
    ensures
        count_orders(levels) >= 0,
    decreases levels.len(),
{
    if levels.len() > 0 {
        lemma_count_orders_nonneg(levels.drop_last());
    }
}

/// Aggregate the resting volume of one price level.
fn aggregate_level(level: &PriceLevel) -> (r: u128)
    requires
        forall|j: int|
            0 <= j < level.orders.len() ==> (#[trigger] level.orders[j]).amount <= VOLUME_LIMIT,
    ensures
        r == level_volume(level.orders@),
{
    let mut sum: u128 = 0;
    let mut j: usize = 0;
    while j < level.orders.len()
        invariant
            forall|l: int|
                0 <= l < level.orders.len() ==> (#[trigger] level.orders[l]).amount
                    <= VOLUME_LIMIT,
            j <= level.orders@.len(),
            sum == level_volume(level.orders@.take(j as int)),
            sum <= j * VOLUME_LIMIT,
        decreases level.orders@.len() - j,
    {
        proof {
            assert(level.orders@.take(j as int + 1).drop_last() =~= level.orders@.take(j as int));
            assert(level.orders@.take(j as int + 1).last() == level.orders@[j as int]);
            assert(j * VOLUME_LIMIT <= 0xFFFF_FFFF_FFFF_FFFFu64 * VOLUME_LIMIT)
                by (nonlinear_arith)
                requires j <= 0xFFFF_FFFF_FFFF_FFFFu64;
        }
        sum = sum + level.orders[j].amount as u128;
        j += 1;
    }
    proof {
        assert(level.orders@.take(level.orders@.len() as int) =~= level.orders@);
    }
    sum
}

/// Count the orders resting on a side, clamped at the volume ceiling.
fn count_side(levels: &Vec<PriceLevel>) -> (r: u128)
    ensures
        r == clamp_total(count_orders(levels@)),
        r <= TOTAL_VOLUME_LIMIT,
{
    let mut cnt: u128 = 0;
    let mut n: usize = 0;
    while n < levels.len()
        invariant
            n <= levels@.len(),
            cnt == clamp_total(count_orders(levels@.take(n as int))),
            cnt <= TOTAL_VOLUME_LIMIT,
        decreases levels@.len() - n,
    {
        proof {
            assert(levels@.take(n as int + 1).drop_last() =~= levels@.take(n as int));
            assert(levels@.take(n as int + 1).last() == levels@[n as int]);
            lemma_count_orders_nonneg(levels@.take(n as int));
        }
        let len: u64 = levels[n].orders.len() as u64;
        cnt = add_total(cnt, len);
        n += 1;
    }
    proof {
        assert(levels@.take(levels@.len() as int) =~= levels@);
    }
    cnt
}

/// Remove the first resting order of the side whose id matches, scanning
/// levels in order and FIFO queues front to back; a level that empties is
/// dropped. Returns whether an order was removed.
fn remove_from_side(levels: &mut Vec<PriceLevel>, id: u128) -> (r: bool)
    requires
        forall|i: int|
            0 <= i < old(levels)@.len() ==> (#[trigger] old(levels)@[i]).orders.len() > 0,
    ensures
        !r ==> *final(levels) == *old(levels) && !contains_id(old(levels)@, id),
        r ==> contains_id(old(levels)@, id) && removed_one(old(levels)@, final(levels)@, id),
        side_wf(old(levels)@, OrderSide::Buy) ==> side_wf(final(levels)@, OrderSide::Buy),
        side_wf(old(levels)@, OrderSide::Sell) ==> side_wf(final(levels)@, OrderSide::Sell),
        final(levels)@.len() > 0 ==> old(levels)@.len() > 0 && (final(levels)@[0].price == old(
            levels,
        )@[0].price || (old(levels)@.len() > 1 && final(levels)@[0].price == old(levels)@[1].price)),
{
    let ghost pre = levels@;
    let mut i: usize = 0;
    while i < levels.len()
        invariant
            pre == old(levels)@,
            *levels == *old(levels),
            i <= pre.len(),
            forall|i: int|
                0 <= i < pre.len() ==> (#[trigger] pre[i]).orders.len() > 0,
            forall|k: int, l: int|
                0 <= k < i && 0 <= l < pre[k].orders.len() ==> (#[trigger] pre[k].orders[l]).id
                    != id,
        decreases pre.len() - i,
    {
        let mut j: usize = 0;
        while j < levels[i].orders.len() && levels[i].orders[j].id != id
            invariant
                pre == old(levels)@,
                *levels == *old(levels),
                i < pre.len(),
                j <= pre[i as int].orders.len(),
                forall|l: int| 0 <= l < j ==> (#[trigger] pre[i as int].orders[l]).id != id,
            decreases pre[i as int].orders.len() - j,
        {
            j += 1;
        }
        if j < levels[i].orders.len() {
            let mut level = levels.remove(i);
            level.orders.remove(j);
            let kept = level.orders.len() > 0;
            if kept {
                levels.insert(i, level);
            }
            proof {
                let gi = i as int;
                let gj = j as int;
                pre[gi].orders@.remove_ensures(gj);
                if kept {
                    assert(levels@ =~= pre.update(gi, levels@[gi]));
                    assert(removed_at(pre, levels@, gi, gj));
                    assert forall|k: int|
                        0 <= k < levels@.len() ==> (#[trigger] levels@[k]).price
                            == pre[k].price by {}
                    if side_wf(pre, OrderSide::Buy) {
                        assert forall|k: int| 0 <= k < levels@.len() implies level_wf(
                            #[trigger] levels@[k],
                            OrderSide::Buy,
                        ) by {
                            assert(level_wf(pre[k], OrderSide::Buy));
                        }
                    }
                    if side_wf(pre, OrderSide::Sell) {
                        assert forall|k: int| 0 <= k < levels@.len() implies level_wf(
                            #[trigger] levels@[k],
                            OrderSide::Sell,
                        ) by {
                            assert(level_wf(pre[k], OrderSide::Sell));
                        }
                    }
                } else {
                    assert(levels@ =~= pre.remove(gi));
                    pre.remove_ensures(gi);
                    assert(removed_at(pre, levels@, gi, gj));
                }
                assert(contains_id(pre, id));
                assert(removed_one(pre, levels@, id));
            }
            return true;
        }
        i += 1;
    }
    proof {
        assert forall|k: int, l: int|
            0 <= k < pre.len() && 0 <= l < pre[k].orders.len() implies (
        #[trigger] pre[k].orders[l]).id != id by {}
    }
    false
}

/// In a well-formed book whose sides are both populated, the best bid is
/// strictly below the best ask, and the best price of either side really is
/// the extreme one: every other bid is lower, every other ask higher.
pub proof fn lemma_best_bid_below_best_ask(book: OrderBook)
    requires
        book.wf(),
        book.bids@.len() > 0,
        book.asks@.len() > 0,
    ensures
        book.bids@[0].price < book.asks@[0].price,
        forall|k: int| 0 < k < book.bids@.len() ==> (#[trigger] book.bids@[k]).price
            < book.bids@[0].price,
        forall|k: int| 0 < k < book.asks@.len() ==> (#[trigger] book.asks@[k]).price
            > book.asks@[0].price,
{
}

/// In a well-formed book, a resting order's side tells which half of the
/// book it rests on: it is in the bids exactly when it buys, and in the
/// asks exactly when it sells.
pub proof fn lemma_resting_side(book: OrderBook, o: Order)
    requires
        book.wf(),
        resting_in(book.bids@, o) || resting_in(book.asks@, o),
    ensures
        o.side == OrderSide::Buy <==> resting_in(book.bids@, o),
        o.side == OrderSide::Sell <==> resting_in(book.asks@, o),
{
    if resting_in(book.bids@, o) {
        let (i, j) = choose|i: int, j: int|
            0 <= i < book.bids@.len() && 0 <= j < book.bids@[i].orders.len()
                && #[trigger] book.bids@[i].orders[j] == o;
        assert(level_wf(book.bids@[i], OrderSide::Buy));
        assert(o.side == OrderSide::Buy);
    }
    if resting_in(book.asks@, o) {
        let (i, j) = choose|i: int, j: int|
            0 <= i < book.asks@.len() && 0 <= j < book.asks@[i].orders.len()
                && #[trigger] book.asks@[i].orders[j] == o;
        assert(level_wf(book.asks@[i], OrderSide::Sell));
        assert(o.side == OrderSide::Sell);
    }
}

/// Price-time priority of a single match walk. Take two orders `a` and `b`
/// resting at the same price level, `a` ahead of `b` in the FIFO queue
/// (`a` arrived first). If the walk touched `b` at all — `b` no longer
/// rests intact — then `a` was consumed entirely: no order with `a`'s id
/// remains on the side.
pub proof fn lemma_price_time_priority(
    pre: Seq<PriceLevel>,
    post: Seq<PriceLevel>,
    i: int,
    j1: int,
    j2: int,
)
    requires
        consumed_from_front(pre, post),
        ids_unique(pre),
        0 <= i < pre.len(),
        0 <= j1 < j2 < pre[i].orders.len(),
        !resting_in(post, pre[i].orders[j2]),
    ensures
        !contains_id(post, pre[i].orders[j1].id),
{
    let a = pre[i].orders[j1];
    let b = pre[i].orders[j2];
    let k = choose|k: int| 0 <= k <= pre.len() && #[trigger] consumed_side_witness(pre, post, k);
    if post.len() == 0 {
        assert(!contains_id(post, a.id));
        return ;
    }
    let j = choose|j: int|
        0 <= j < pre[k].orders.len() && #[trigger] consumed_level_witness(pre[k], post[0], j);
    if i > k {
        // level i is untouched, so b still rests intact: contradiction.
        assert(post[i - k] == pre[i]);
        assert(post[i - k].orders[j2] == b);
        assert(resting_in(post, b));
        assert(false);
    }
    if i == k && j2 > j {
        // b sits behind the split point, so it survived intact:
        // contradiction.
        assert(post[0].orders[j2 - j] == b);
        assert(resting_in(post, b));
        assert(false);
    }
    if i == k && j2 == j {
        // b is the split order itself; were it unreduced it would rest
        // intact, so its amount shrank and in particular j1 < j.
        if post[0].orders[0] == b {
            assert(resting_in(post, b));
            assert(false);
        }
    }
    // Now i < k, or i == k with j1 < j2 <= j: position (i, j1) was fully
    // consumed. No surviving order carries a's id.
    assert forall|x: int, y: int|
        0 <= x < post.len() && 0 <= y < post[x].orders.len() implies (
    #[trigger] post[x].orders[y]).id != a.id by {
        if x == 0 {
            if y == 0 {
                assert(post[0].orders[0].id == pre[k].orders[j].id);
                assert((k, j) != (i, j1));
            } else {
                assert(post[0].orders[y] == pre[k].orders[j + y]);
                assert((k, j + y) != (i, j1));
            }
        } else {
            assert(post[x] == pre[k + x]);
            assert((k + x, y) != (i, j1));
        }
    }
}

/// Conservation: the fills of one incoming order never exceed its amount,
/// whatever its type.
pub proof fn lemma_conservation(
    pre: OrderBook,
    post: OrderBook,
    order: Order,
    r: Option<Vec<Trade>>,
)
    requires
        market_order_post(pre, post, order, r) || limit_order_post(pre, post, order, r)
            || stop_order_post(pre, post, order, r) || stop_limit_order_post(pre, post, order, r),
    ensures
        0 <= sum_volumes(trades_of(r)) <= order.amount,
{
}

/// Every emitted trade has a positive volume and price, its buyer on the
/// buying side and its seller on the selling side: for a Buy taker the
/// buyer is the taker and the seller a resting sell order, and symmetric
/// for a Sell taker. (Buyer and seller may be the same participant:
/// self-trading is not prevented.)
pub proof fn lemma_trade_validity(pre: OrderBook, post: OrderBook, order: Order, r: Option<
    Vec<Trade>,
>, n: int)
    requires
        market_order_post(pre, post, order, r),
        0 <= n < trades_of(r).len(),
    ensures
        trades_of(r)[n].volume > 0,
        trades_of(r)[n].price > 0,
        order.side == OrderSide::Buy ==> trades_of(r)[n].buyer_id == order.participant_id
            && seller_from(pre.asks@, trades_of(r)[n], false),
        order.side == OrderSide::Sell ==> trades_of(r)[n].seller_id == order.participant_id
            && buyer_from(pre.bids@, trades_of(r)[n], false),
{
    if order.side == OrderSide::Buy {
        assert(pre.buy_trade_ok(order, None, trades_of(r)[n], n + 1 < trades_of(r).len()));
    } else {
        assert(pre.sell_trade_ok(order, None, trades_of(r)[n], n + 1 < trades_of(r).len()));
    }
}

/// An untouched well-formed side counts as consumed-from-front (nothing
/// was consumed).
proof fn lemma_consumed_refl(levels: Seq<PriceLevel>, side: OrderSide)
    requires
        side_wf(levels, side),
    ensures
        consumed_from_front(levels, levels),
{
    if levels.len() > 0 {
        assert(level_wf(levels[0], side));
        assert(reduced_order(levels[0].orders[0], levels[0].orders[0]));
        assert(consumed_level_witness(levels[0], levels[0], 0));
    }
    assert(consumed_side_witness(levels, levels, 0));
}

/// Price-priority consumption composes.
pub proof fn lemma_consumed_trans(a: Seq<PriceLevel>, b: Seq<PriceLevel>, c: Seq<PriceLevel>)
    requires
        consumed_from_front(a, b),
        consumed_from_front(b, c),
    ensures
        consumed_from_front(a, c),
{
    let k1 = choose|k: int| 0 <= k <= a.len() && #[trigger] consumed_side_witness(a, b, k);
    let k2 = choose|k: int| 0 <= k <= b.len() && #[trigger] consumed_side_witness(b, c, k);
    if c.len() == 0 {
        assert(consumed_side_witness(a, c, k1 + k2));
    } else if k2 == 0 {
        lemma_level_consumed_trans(a[k1], b[0], c[0]);
        assert(consumed_side_witness(a, c, k1));
    } else {
        assert(b[k2] == a[k1 + k2]);
        assert(consumed_side_witness(a, c, k1 + k2));
    }
}

/// Every resting order of `sub` also rests in `sup`.
pub open spec fn embeds(sub: Seq<PriceLevel>, sup: Seq<PriceLevel>) -> bool {
    forall|i: int, j: int|
        0 <= i < sub.len() && 0 <= j < sub[i].orders.len() ==> resting_in(
            sup,
            #[trigger] sub[i].orders[j],
        )
}

/// The exact order `o` rests somewhere in `levels`.
pub open spec fn resting_in(levels: Seq<PriceLevel>, o: Order) -> bool {
    exists|i: int, j: int|
        0 <= i < levels.len() && 0 <= j < levels[i].orders.len() && #[trigger] levels[i].orders[j]
            == o
}

/// A seller (or buyer) drawn from an embedded side is drawn from the
/// enclosing side as well.
proof fn lemma_party_from_embeds(sub: Seq<PriceLevel>, sup: Seq<PriceLevel>, t: Trade, full: bool)
    requires
        embeds(sub, sup),
    ensures
        seller_from(sub, t, full) ==> seller_from(sup, t, full),
        buyer_from(sub, t, full) ==> buyer_from(sup, t, full),
{
    if seller_from(sub, t, full) {
        let (i, j) = choose|i: int, j: int|
            0 <= i < sub.len() && 0 <= j < sub[i].orders.len() && {
                let o = #[trigger] sub[i].orders[j];
                &&& o.participant_id == t.seller_id
                &&& o.side == OrderSide::Sell
                &&& o.price == t.price
                &&& (full ==> o.amount == t.volume)
            };
        assert(resting_in(sup, sub[i].orders[j]));
    }
    if buyer_from(sub, t, full) {
        let (i, j) = choose|i: int, j: int|
            0 <= i < sub.len() && 0 <= j < sub[i].orders.len() && {
                let o = #[trigger] sub[i].orders[j];
                &&& o.participant_id == t.buyer_id
                &&& o.side == OrderSide::Buy
                &&& o.price == t.price
                &&& (full ==> o.amount == t.volume)
            };
        assert(resting_in(sup, sub[i].orders[j]));
    }
}

/// Aggregated resting volume of a queue of orders.
pub open spec fn level_volume(s: Seq<Order>) -> int
    decreases s.len(),
{
    if s.len() == 0 {
        0
    } else {
        level_volume(s.drop_last()) + s.last().amount
    }
}

/// Aggregated resting volume of a whole book side.
pub open spec fn side_volume(levels: Seq<PriceLevel>) -> int
    decreases levels.len(),
{
    if levels.len() == 0 {
        0
    } else {
        level_volume(levels[0].orders@) + side_volume(levels.drop_first())
    }
}

/// The resting sell orders a Buy taker with this limit may consume, in
/// priority order: the orders of every ask level priced within the limit,
/// best level first, FIFO within a level.
pub open spec fn matchable_asks(levels: Seq<PriceLevel>, limit: Option<u64>) -> Seq<Order>
    decreases levels.len(),
{
    if levels.len() == 0 {
        Seq::<Order>::empty()
    } else if (limit matches Some(l) && levels[0].price > l) {
        Seq::<Order>::empty()
    } else {
        levels[0].orders@ + matchable_asks(levels.drop_first(), limit)
    }
}

/// The resting buy orders a Sell taker with this limit may consume, in
/// priority order.
pub open spec fn matchable_bids(levels: Seq<PriceLevel>, limit: Option<u64>) -> Seq<Order>
    decreases levels.len(),
{
    if levels.len() == 0 {
        Seq::<Order>::empty()
    } else if (limit matches Some(l) && levels[0].price < l) {
        Seq::<Order>::empty()
    } else {
        levels[0].orders@ + matchable_bids(levels.drop_first(), limit)
    }
}

/// The fill volumes of one match walk over the maker queue: each maker in
/// turn takes the smaller of its amount and what remains of the taker.
pub open spec fn fill_volumes(makers: Seq<Order>, remaining: int) -> Seq<int>
    decreases makers.len(),
{
    if remaining <= 0 || makers.len() == 0 {
        Seq::<int>::empty()
    } else {
        let f = if makers[0].amount <= remaining {
            makers[0].amount as int
        } else {
            remaining
        };
        seq![f] + fill_volumes(makers.drop_first(), remaining - f)
    }
}

/// The trades of one walk, pointwise: trade `n` fills maker `n` of the
/// matchable queue by exactly the walk's fill volume, at the maker's price,
/// against the maker's participant. This pins the number, order, volumes
/// and prices of the emitted trades completely.
pub open spec fn fills_makers(
    makers: Seq<Order>,
    remaining: int,
    ts: Seq<Trade>,
    taker_buys: bool,
) -> bool {
    let fills = fill_volumes(makers, remaining);
    &&& ts.len() == fills.len()
    &&& forall|n: int|
        0 <= n < ts.len() ==> {
            &&& (#[trigger] ts[n]).volume == fills[n]
            &&& ts[n].price == makers[n].price
            &&& (if taker_buys {
                ts[n].seller_id == makers[n].participant_id
            } else {
                ts[n].buyer_id == makers[n].participant_id
            })
        }
}

/// Dropping a queue's first order lowers its volume by that order's amount.
proof fn lemma_level_volume_drop_first(s: Seq<Order>)
    requires
        s.len() > 0,
    ensures
        level_volume(s.drop_first()) == level_volume(s) - s[0].amount,
    decreases s.len(),
{
    if s.len() == 1 {
        assert(s.drop_first() =~= Seq::<Order>::empty());
        assert(s.drop_last() =~= Seq::<Order>::empty());
    } else {
        assert(s.drop_first().drop_last() =~= s.drop_last().drop_first());
        assert(s.drop_first().last() == s.last());
        lemma_level_volume_drop_first(s.drop_last());
    }
}

/// Replacing a queue's first order changes its volume by the amount
/// difference.
proof fn lemma_level_volume_update_first(s: Seq<Order>, o: Order)
    requires
        s.len() > 0,
    ensures
        level_volume(s.update(0, o)) == level_volume(s) - s[0].amount + o.amount,
    decreases s.len(),
{
    if s.len() == 1 {
        assert(s.update(0, o) =~= seq![o]);
        assert(seq![o].drop_last() =~= Seq::<Order>::empty());
        assert(s.drop_last() =~= Seq::<Order>::empty());
    } else {
        assert(s.update(0, o).drop_last() =~= s.drop_last().update(0, o));
        assert(s.update(0, o).last() == s.last());
        lemma_level_volume_update_first(s.drop_last(), o);
    }
}

/// A walk emits at most one fill per maker.
proof fn lemma_fill_volumes_len(makers: Seq<Order>, remaining: int)
    ensures
        fill_volumes(makers, remaining).len() <= makers.len(),
    decreases makers.len(),
{
    if !(remaining <= 0 || makers.len() == 0) {
        let f = if makers[0].amount <= remaining {
            makers[0].amount as int
        } else {
            remaining
        };
        lemma_fill_volumes_len(makers.drop_first(), remaining - f);
    }
}

/// A walk that stops before touching any maker emits no fills.
proof fn lemma_fills_none(makers: Seq<Order>, remaining: int, taker_buys: bool)
    requires
        makers.len() == 0 || remaining <= 0,
    ensures
        fills_makers(makers, remaining, Seq::<Trade>::empty(), taker_buys),
{
    assert(fill_volumes(makers, remaining) =~= Seq::<int>::empty());
}

/// A walk that partially fills the front maker emits exactly one trade of
/// the residual volume.
proof fn lemma_fills_partial(
    makers: Seq<Order>,
    remaining: int,
    tr: Trade,
    trades: Seq<Trade>,
    taker_buys: bool,
)
    requires
        makers.len() > 0,
        0 < remaining < makers[0].amount,
        trades == seq![tr],
        tr.volume == remaining,
        tr.price == makers[0].price,
        taker_buys ==> tr.seller_id == makers[0].participant_id,
        !taker_buys ==> tr.buyer_id == makers[0].participant_id,
    ensures
        fills_makers(makers, remaining, trades, taker_buys),
{
    assert(fill_volumes(makers.drop_first(), 0) =~= Seq::<int>::empty());
    assert(fill_volumes(makers, remaining) =~= seq![remaining]);
    assert(trades[0] == tr);
}

/// A walk that consumes the front maker whole and then continues emits
/// that maker's trade followed by the continuation's trades.
proof fn lemma_fills_cons(
    makers: Seq<Order>,
    remaining: int,
    tr: Trade,
    rest: Seq<Trade>,
    trades: Seq<Trade>,
    taker_buys: bool,
)
    requires
        makers.len() > 0,
        remaining > 0,
        makers[0].amount <= remaining,
        fills_makers(makers.drop_first(), remaining - makers[0].amount, rest, taker_buys),
        trades == seq![tr] + rest,
        tr.volume == makers[0].amount,
        tr.price == makers[0].price,
        taker_buys ==> tr.seller_id == makers[0].participant_id,
        !taker_buys ==> tr.buyer_id == makers[0].participant_id,
    ensures
        fills_makers(makers, remaining, trades, taker_buys),
{
    let fills = fill_volumes(makers, remaining);
    let tail = fill_volumes(makers.drop_first(), remaining - makers[0].amount);
    assert(fills == seq![makers[0].amount as int] + tail);
    lemma_fill_volumes_len(makers.drop_first(), remaining - makers[0].amount);
    assert(fills.len() == trades.len());
    assert forall|n: int| 0 <= n < trades.len() implies {
        &&& (#[trigger] trades[n]).volume == fills[n]
        &&& trades[n].price == makers[n].price
        &&& (if taker_buys {
            trades[n].seller_id == makers[n].participant_id
        } else {
            trades[n].buyer_id == makers[n].participant_id
        })
    } by {
        if n == 0 {
            assert(trades[0] == tr);
        } else {
            assert(trades[n] == rest[n - 1]);
            assert(fills[n] == tail[n - 1]);
            assert(makers[n] == makers.drop_first()[n - 1]);
        }
    }
}

/// Consuming the whole front order of the front ask level: the matchable
/// queue loses its head and the side loses that order's amount. Covers both
/// shapes (level kept with its queue popped, or a one-order level removed).
proof fn lemma_step_asks(pre: Seq<PriceLevel>, mid: Seq<PriceLevel>, limit: Option<u64>)
    requires
        pre.len() > 0,
        pre[0].orders.len() > 0,
        !(limit matches Some(l) && pre[0].price > l),
        if pre[0].orders.len() > 1 {
            &&& mid.len() == pre.len()
            &&& mid[0].price == pre[0].price
            &&& mid[0].orders@ == pre[0].orders@.drop_first()
            &&& forall|i: int| 1 <= i < mid.len() ==> mid[i] == pre[i]
        } else {
            mid == pre.drop_first()
        },
    ensures
        matchable_asks(mid, limit) == matchable_asks(pre, limit).drop_first(),
        side_volume(mid) == side_volume(pre) - pre[0].orders@[0].amount,
{
    let flat = matchable_asks(pre, limit);
    assert(flat == pre[0].orders@ + matchable_asks(pre.drop_first(), limit));
    assert(pre.drop_first() =~= pre.drop_first());
    if pre[0].orders.len() > 1 {
        assert(mid =~= seq![mid[0]] + pre.drop_first());
        assert((seq![mid[0]] + pre.drop_first()).drop_first() =~= pre.drop_first());
        assert(matchable_asks(mid, limit) == mid[0].orders@ + matchable_asks(
            pre.drop_first(),
            limit,
        ));
        assert(matchable_asks(mid, limit) =~= flat.drop_first());
        lemma_level_volume_drop_first(pre[0].orders@);
        assert(side_volume(mid) == level_volume(mid[0].orders@) + side_volume(pre.drop_first()));
        assert(side_volume(pre) == level_volume(pre[0].orders@) + side_volume(pre.drop_first()));
    } else {
        let rest = matchable_asks(pre.drop_first(), limit);
        assert(matchable_asks(mid, limit) == rest);
        assert forall|i: int| 0 <= i < flat.len() - 1 implies flat.drop_first()[i] == rest[i] by {
            assert(flat[i + 1] == rest[i]);
        }
        assert(matchable_asks(mid, limit) =~= flat.drop_first());
        assert(level_volume(pre[0].orders@) == pre[0].orders@[0].amount) by {
            assert(pre[0].orders@.drop_last() =~= Seq::<Order>::empty());
            assert(level_volume(Seq::<Order>::empty()) == 0);
            assert(pre[0].orders@.last() == pre[0].orders@[0]);
        }
        assert(side_volume(pre) == level_volume(pre[0].orders@) + side_volume(pre.drop_first()));
    }
}

/// The bid-side mirror of `lemma_step_asks`.
proof fn lemma_step_bids(pre: Seq<PriceLevel>, mid: Seq<PriceLevel>, limit: Option<u64>)
    requires
        pre.len() > 0,
        pre[0].orders.len() > 0,
        !(limit matches Some(l) && pre[0].price < l),
        if pre[0].orders.len() > 1 {
            &&& mid.len() == pre.len()
            &&& mid[0].price == pre[0].price
            &&& mid[0].orders@ == pre[0].orders@.drop_first()
            &&& forall|i: int| 1 <= i < mid.len() ==> mid[i] == pre[i]
        } else {
            mid == pre.drop_first()
        },
    ensures
        matchable_bids(mid, limit) == matchable_bids(pre, limit).drop_first(),
        side_volume(mid) == side_volume(pre) - pre[0].orders@[0].amount,
{
    let flat = matchable_bids(pre, limit);
    assert(flat == pre[0].orders@ + matchable_bids(pre.drop_first(), limit));
    if pre[0].orders.len() > 1 {
        assert(mid =~= seq![mid[0]] + pre.drop_first());
        assert((seq![mid[0]] + pre.drop_first()).drop_first() =~= pre.drop_first());
        assert(matchable_bids(mid, limit) == mid[0].orders@ + matchable_bids(
            pre.drop_first(),
            limit,
        ));
        assert(matchable_bids(mid, limit) =~= flat.drop_first());
        lemma_level_volume_drop_first(pre[0].orders@);
        assert(side_volume(mid) == level_volume(mid[0].orders@) + side_volume(pre.drop_first()));
        assert(side_volume(pre) == level_volume(pre[0].orders@) + side_volume(pre.drop_first()));
    } else {
        let rest = matchable_bids(pre.drop_first(), limit);
        assert(matchable_bids(mid, limit) == rest);
        assert forall|i: int| 0 <= i < flat.len() - 1 implies flat.drop_first()[i] == rest[i] by {
            assert(flat[i + 1] == rest[i]);
        }
        assert(matchable_bids(mid, limit) =~= flat.drop_first());
        assert(level_volume(pre[0].orders@) == pre[0].orders@[0].amount) by {
            assert(pre[0].orders@.drop_last() =~= Seq::<Order>::empty());
            assert(level_volume(Seq::<Order>::empty()) == 0);
            assert(pre[0].orders@.last() == pre[0].orders@[0]);
        }
        assert(side_volume(pre) == level_volume(pre[0].orders@) + side_volume(pre.drop_first()));
    }
}

/// Reducing the front order of the front level in place: the side loses
/// exactly the reduction.
proof fn lemma_partial_volume(pre: Seq<PriceLevel>, post: Seq<PriceLevel>, fill: int)
    requires
        pre.len() > 0,
        pre[0].orders.len() > 0,
        post.len() == pre.len(),
        post[0].orders@ == pre[0].orders@.update(0, post[0].orders@[0]),
        post[0].orders@[0].amount == pre[0].orders@[0].amount - fill,
        forall|i: int| 1 <= i < post.len() ==> post[i] == pre[i],
    ensures
        side_volume(post) == side_volume(pre) - fill,
{
    lemma_level_volume_update_first(pre[0].orders@, post[0].orders@[0]);
    assert(post =~= seq![post[0]] + pre.drop_first());
    assert((seq![post[0]] + pre.drop_first()).drop_first() =~= pre.drop_first());
    assert(side_volume(post) == level_volume(post[0].orders@) + side_volume(pre.drop_first()));
    assert(side_volume(pre) == level_volume(pre[0].orders@) + side_volume(pre.drop_first()));
}

/// Some order with this id rests in `levels`.
pub open spec fn contains_id(levels: Seq<PriceLevel>, id: u128) -> bool {
    exists|i: int, j: int|
        0 <= i < levels.len() && 0 <= j < levels[i].orders.len() && (#[trigger] levels[i].orders[j]).id
            == id
}

/// No two resting orders of `levels` share an id.
pub open spec fn ids_unique(levels: Seq<PriceLevel>) -> bool {
    forall|i1: int, j1: int, i2: int, j2: int|
        0 <= i1 < levels.len() && 0 <= j1 < levels[i1].orders.len() && 0 <= i2 < levels.len() && 0
            <= j2 < levels[i2].orders.len() && (i1 != i2 || j1 != j2) ==> (
        #[trigger] levels[i1].orders[j1]).id != (#[trigger] levels[i2].orders[j2]).id
}

/// `post` is `pre` with exactly the order at `(i, j)` removed; the level
/// disappears when that was its only order, and the FIFO order of every
/// remaining order is preserved.
pub open spec fn removed_at(pre: Seq<PriceLevel>, post: Seq<PriceLevel>, i: int, j: int) -> bool {
    &&& 0 <= i < pre.len()
    &&& 0 <= j < pre[i].orders.len()
    &&& if pre[i].orders.len() == 1 {
        &&& post.len() == pre.len() - 1
        &&& (forall|k: int| 0 <= k < i ==> post[k] == pre[k])
        &&& (forall|k: int| i <= k < post.len() ==> post[k] == pre[k + 1])
    } else {
        &&& post.len() == pre.len()
        &&& (forall|k: int| 0 <= k < post.len() && k != i ==> post[k] == pre[k])
        &&& post[i].price == pre[i].price
        &&& post[i].orders@ == pre[i].orders@.remove(j)
    }
}

/// One resting order with the given id was removed, scan order first by
/// level then FIFO position.
pub open spec fn removed_one(pre: Seq<PriceLevel>, post: Seq<PriceLevel>, id: u128) -> bool {
    exists|i: int, j: int|
        #![trigger removed_at(pre, post, i, j)]
        {
            &&& removed_at(pre, post, i, j)
            &&& pre[i].orders[j].id == id
        }
}

/// The trades carried by an optional result; `None` means none.
pub open spec fn trades_of(r: Option<Vec<Trade>>) -> Seq<Trade> {
    match r {
        Some(ts) => ts@,
        None => Seq::<Trade>::empty(),
    }
}

/// The order `o` retyped as a plain limit order.
pub open spec fn as_limit(o: Order) -> Order {
    Order { order_type: OrderType::Limit, ..o }
}

/// What processing a market order does to a book: walk the opposite side
/// in priority order until the amount is exhausted or the side is empty;
/// any residual is discarded.
pub open spec fn market_order_post(
    pre: OrderBook,
    post: OrderBook,
    order: Order,
    r: Option<Vec<Trade>>,
) -> bool {
    let ts = trades_of(r);
    let filled = sum_volumes(ts);
    &&& post.wf()
    &&& post.symbol == pre.symbol
    &&& (r matches Some(v) ==> v@.len() > 0)
    &&& 0 <= filled <= order.amount
    &&& (forall|n: int| 0 <= n < ts.len() ==> (#[trigger] ts[n]).volume <= order.amount)
    &&& post.total_volume == clamp_total(pre.total_volume + filled)
    &&& (ts.len() > 0 ==> post.last_trade_price == ts.last().price)
    &&& (ts.len() == 0 ==> post == pre)
    &&& (order.side == OrderSide::Buy ==> {
        &&& post.bids == pre.bids
        &&& consumed_from_front(pre.asks@, post.asks@)
        &&& (forall|n: int|
            0 <= n < ts.len() ==> pre.buy_trade_ok(order, None, #[trigger] ts[n], n + 1 < ts.len()))
        &&& fills_makers(matchable_asks(pre.asks@, None), order.amount as int, ts, true)
        &&& side_volume(post.asks@) == side_volume(pre.asks@) - filled
        &&& (filled < order.amount ==> post.asks@.len() == 0)
    })
    &&& (order.side == OrderSide::Sell ==> {
        &&& post.asks == pre.asks
        &&& consumed_from_front(pre.bids@, post.bids@)
        &&& (forall|n: int|
            0 <= n < ts.len() ==> pre.sell_trade_ok(order, None, #[trigger] ts[n], n + 1 < ts.len()))
        &&& fills_makers(matchable_bids(pre.bids@, None), order.amount as int, ts, false)
        &&& side_volume(post.bids@) == side_volume(pre.bids@) - filled
        &&& (filled < order.amount ==> post.bids@.len() == 0)
    })
}

/// What processing a limit order does to a book: match the marketable
/// portion capped at the limit price, then rest any residual FIFO-last at
/// the limit price.
pub open spec fn limit_order_post(
    pre: OrderBook,
    post: OrderBook,
    order: Order,
    r: Option<Vec<Trade>>,
) -> bool {
    let ts = trades_of(r);
    let filled = sum_volumes(ts);
    &&& post.wf()
    &&& post.symbol == pre.symbol
    &&& (r matches Some(v) ==> v@.len() > 0)
    &&& 0 <= filled <= order.amount
    &&& (forall|n: int| 0 <= n < ts.len() ==> (#[trigger] ts[n]).volume <= order.amount)
    &&& post.total_volume == clamp_total(pre.total_volume + filled)
    &&& (ts.len() > 0 ==> post.last_trade_price == ts.last().price)
    &&& (ts.len() == 0 ==> post.last_trade_price == pre.last_trade_price)
    &&& (order.side == OrderSide::Buy ==> {
        &&& consumed_from_front(pre.asks@, post.asks@)
        &&& (forall|n: int|
            0 <= n < ts.len() ==> pre.buy_trade_ok(
                order,
                Some(order.price),
                #[trigger] ts[n],
                n + 1 < ts.len(),
            ))
        &&& fills_makers(matchable_asks(pre.asks@, Some(order.price)), order.amount as int, ts, true)
        &&& side_volume(post.asks@) == side_volume(pre.asks@) - filled
        &&& (ts.len() == 0 ==> post.asks == pre.asks)
        &&& (filled == order.amount ==> post.bids == pre.bids)
        &&& (filled < order.amount ==> rested_into(
            pre.bids@,
            post.bids@,
            with_amount(order, (order.amount - filled) as u64),
        ))
    })
    &&& (order.side == OrderSide::Sell ==> {
        &&& consumed_from_front(pre.bids@, post.bids@)
        &&& (forall|n: int|
            0 <= n < ts.len() ==> pre.sell_trade_ok(
                order,
                Some(order.price),
                #[trigger] ts[n],
                n + 1 < ts.len(),
            ))
        &&& fills_makers(matchable_bids(pre.bids@, Some(order.price)), order.amount as int, ts, false)
        &&& side_volume(post.bids@) == side_volume(pre.bids@) - filled
        &&& (ts.len() == 0 ==> post.bids == pre.bids)
        &&& (filled == order.amount ==> post.asks == pre.asks)
        &&& (filled < order.amount ==> rested_into(
            pre.asks@,
            post.asks@,
            with_amount(order, (order.amount - filled) as u64),
        ))
    })
}

/// A stop order triggers on arrival iff the last trade price has reached
/// its trigger price (from below for Buy, from above for Sell).
pub open spec fn stop_triggered(pre: OrderBook, order: Order) -> bool {
    if order.side == OrderSide::Buy {
        pre.last_trade_price >= order.price
    } else {
        pre.last_trade_price <= order.price
    }
}

/// A stop order converts to a market order when triggered and is dropped
/// otherwise.
pub open spec fn stop_order_post(
    pre: OrderBook,
    post: OrderBook,
    order: Order,
    r: Option<Vec<Trade>>,
) -> bool {
    if stop_triggered(pre, order) {
        market_order_post(pre, post, order, r)
    } else {
        post == pre && r is None
    }
}

/// A stop-limit order converts to a limit order at the same price when
/// triggered and is dropped otherwise.
pub open spec fn stop_limit_order_post(
    pre: OrderBook,
    post: OrderBook,
    order: Order,
    r: Option<Vec<Trade>>,
) -> bool {
    if stop_triggered(pre, order) {
        limit_order_post(pre, post, as_limit(order), r)
    } else {
        post == pre && r is None
    }
}

impl OrderBook {
    /// The book's invariant: both sides well formed and, whenever both are
    /// populated, the best bid strictly below the best ask.
    pub open spec fn wf(self) -> bool {
        &&& side_wf(self.bids@, OrderSide::Buy)
        &&& side_wf(self.asks@, OrderSide::Sell)
        &&& self.bids@.len() > 0 && self.asks@.len() > 0 ==> self.bids@[0].price
            < self.asks@[0].price
        &&& 0 < self.last_trade_price <= PRICE_LIMIT
        &&& self.total_volume <= TOTAL_VOLUME_LIMIT
    }

    /// The best (highest) bid price, if any bid rests.
    pub open spec fn spec_best_bid(self) -> Option<u64> {
        if self.bids@.len() > 0 {
            Some(self.bids@[0].price)
        } else {
            None
        }
    }

    /// The best (lowest) ask price, if any ask rests.
    pub open spec fn spec_best_ask(self) -> Option<u64> {
        if self.asks@.len() > 0 {
            Some(self.asks@[0].price)
        } else {
            None
        }
    }

    /// An empty book; the last trade price is seeded at 1.0.
    pub fn new(symbol: String) -> (r: OrderBook)
        ensures
            r.wf(),
            r.symbol == symbol,
            r.bids@.len() == 0,
            r.asks@.len() == 0,
            r.last_trade_price == 1_000_000u64,
            r.total_volume == 0u128,
    {
        OrderBook {
            symbol,
            bids: Vec::new(),
            asks: Vec::new(),
            last_trade_price: 1_000_000,
            total_volume: 0,
        }
    }

    pub fn get_best_bid(&self) -> (r: Option<u64>)
        ensures
            r == self.spec_best_bid(),
    {
        if self.bids.len() > 0 {
            Some(self.bids[0].price)
        } else {
            None
        }
    }

    pub fn get_best_ask(&self) -> (r: Option<u64>)
        ensures
            r == self.spec_best_ask(),
    {
        if self.asks.len() > 0 {
            Some(self.asks[0].price)
        } else {
            None
        }
    }

    /// Best ask minus best bid; `None` unless both sides are populated.
    /// Under the invariant the spread is strictly positive.
    pub fn get_spread(&self) -> (r: Option<u64>)
        requires
            self.wf(),
        ensures
            match r {
                Some(s) => self.bids@.len() > 0 && self.asks@.len() > 0 && s == self.asks@[0].price
                    - self.bids@[0].price && s > 0,
                None => self.bids@.len() == 0 || self.asks@.len() == 0,
            },
    {
        if self.bids.len() > 0 && self.asks.len() > 0 {
            Some(self.asks[0].price - self.bids[0].price)
        } else {
            None
        }
    }

    pub fn get_total_volume(&self) -> (r: u128)
        ensures
            r == self.total_volume,
    {
        self.total_volume
    }

    /// What every trade of a Buy taker matched against this book's asks
    /// satisfies; `full` marks trades that consumed their maker entirely.
    pub open spec fn buy_trade_ok(self, taker: Order, limit: Option<u64>, t: Trade, full: bool) -> bool {
        &&& t.volume > 0
        &&& 0 < t.price <= PRICE_LIMIT
        &&& t.buyer_id == taker.participant_id
        &&& t.symbol == self.symbol
        &&& t.timestamp == taker.timestamp
        &&& t.trade_type == TradeType::Market
        &&& seller_from(self.asks@, t, full)
        &&& (match limit {
            Some(l) => t.price <= l,
            None => true,
        })
    }

    /// What every trade of a Sell taker matched against this book's bids
    /// satisfies.
    pub open spec fn sell_trade_ok(self, taker: Order, limit: Option<u64>, t: Trade, full: bool) -> bool {
        &&& t.volume > 0
        &&& 0 < t.price <= PRICE_LIMIT
        &&& t.seller_id == taker.participant_id
        &&& t.symbol == self.symbol
        &&& t.timestamp == taker.timestamp
        &&& t.trade_type == TradeType::Market
        &&& buyer_from(self.bids@, t, full)
        &&& (match limit {
            Some(l) => t.price >= l,
            None => true,
        })
    }

    /// Reduce the front resting ask by `fill`, which it strictly exceeds:
    /// the maker stays at the front with its amount lowered and one trade
    /// against the taker is emitted.
    #[verifier::rlimit(60)]
    fn partial_front_ask(&mut self, taker: &Order, fill: u64) -> (t: Trade)
        requires
            old(self).wf(),
            old(self).asks@.len() > 0,
            0 < fill < old(self).asks@[0].orders@[0].amount,
        ensures
            final(self).wf(),
            final(self).symbol == old(self).symbol,
            final(self).bids == old(self).bids,
            consumed_from_front(old(self).asks@, final(self).asks@),
            side_volume(final(self).asks@) == side_volume(old(self).asks@) - fill,
            final(self).asks@.len() == old(self).asks@.len(),
            final(self).asks@[0].price == old(self).asks@[0].price,
            t.volume == fill,
            t.price == old(self).asks@[0].price,
            t.seller_id == old(self).asks@[0].orders@[0].participant_id,
            t.buyer_id == taker.participant_id,
            t.symbol == old(self).symbol,
            t.timestamp == taker.timestamp,
            t.trade_type == TradeType::Market,
            seller_from(old(self).asks@, t, false),
            final(self).last_trade_price == t.price,
            final(self).total_volume == clamp_total(old(self).total_volume + fill),
    {
        let ghost pre = *self;
        let level_price = self.asks[0].price;
        let mut level = self.asks.remove(0);
        let mut maker = level.orders.remove(0);
        let ghost pre_maker = maker;
        let seller = maker.participant_id.clone();
        maker.amount = maker.amount - fill;
        level.orders.insert(0, maker);
        self.asks.insert(0, level);
        let trade = Trade {
            id: rng::fresh_id(),
            symbol: self.symbol.clone(),
            buyer_id: taker.participant_id.clone(),
            seller_id: seller,
            price: level_price,
            volume: fill,
            timestamp: taker.timestamp,
            trade_type: TradeType::Market,
        };
        self.last_trade_price = level_price;
        self.total_volume = add_total(self.total_volume, fill);
        proof {
            assert(self.asks@[0].orders@ =~= pre.asks@[0].orders@.update(
                0,
                self.asks@[0].orders@[0],
            ));
            assert(level_wf(self.asks@[0], OrderSide::Sell));
            assert forall|i: int| 0 <= i < self.asks@.len() implies level_wf(
                #[trigger] self.asks@[i],
                OrderSide::Sell,
            ) by {
                if i > 0 {
                    assert(self.asks@[i] == pre.asks@[i]);
                }
            }
            assert(self.wf());
            assert(consumed_level_witness(pre.asks@[0], self.asks@[0], 0));
            assert(consumed_side_witness(pre.asks@, self.asks@, 0));
            assert(seller_from(pre.asks@, trade, false)) by {
                assert(pre.asks@[0].orders@[0] == pre_maker);
            }
            assert(forall|i: int|
                1 <= i < self.asks@.len() ==> #[trigger] self.asks@[i] == pre.asks@[i]);
            assert(self.asks@[0].orders@[0].amount == pre.asks@[0].orders@[0].amount - fill);
            lemma_partial_volume(pre.asks@, self.asks@, fill as int);
        }
        trade
    }

    /// Consume the whole front resting ask: the maker leaves its queue
    /// (and its level, when that empties) and one trade against the taker
    /// is emitted.
    #[verifier::rlimit(60)]
    fn take_front_ask(&mut self, taker: &Order, limit: Option<u64>) -> (t: Trade)
        requires
            old(self).wf(),
            old(self).asks@.len() > 0,
            !(limit matches Some(l) && old(self).asks@[0].price > l),
        ensures
            final(self).wf(),
            final(self).symbol == old(self).symbol,
            final(self).bids == old(self).bids,
            consumed_from_front(old(self).asks@, final(self).asks@),
            embeds(final(self).asks@, old(self).asks@),
            matchable_asks(final(self).asks@, limit) == matchable_asks(
                old(self).asks@,
                limit,
            ).drop_first(),
            side_volume(final(self).asks@) == side_volume(old(self).asks@) - t.volume,
            final(self).asks@.len() < old(self).asks@.len() || (final(self).asks@.len() == old(
                self,
            ).asks@.len() && final(self).asks@[0].orders@.len() < old(
                self,
            ).asks@[0].orders@.len()),
            t.volume == old(self).asks@[0].orders@[0].amount,
            t.price == old(self).asks@[0].price,
            t.seller_id == old(self).asks@[0].orders@[0].participant_id,
            t.buyer_id == taker.participant_id,
            t.symbol == old(self).symbol,
            t.timestamp == taker.timestamp,
            t.trade_type == TradeType::Market,
            seller_from(old(self).asks@, t, true),
            seller_from(old(self).asks@, t, false),
            final(self).last_trade_price == t.price,
            final(self).total_volume == clamp_total(old(self).total_volume + t.volume),
    {
        let ghost pre = *self;
        let level_price = self.asks[0].price;
        let mut level = self.asks.remove(0);
        let maker = level.orders.remove(0);
        let ghost pre_maker = maker;
        let fill = maker.amount;
        let seller = maker.participant_id;
        let trade = Trade {
            id: rng::fresh_id(),
            symbol: self.symbol.clone(),
            buyer_id: taker.participant_id.clone(),
            seller_id: seller,
            price: level_price,
            volume: fill,
            timestamp: taker.timestamp,
            trade_type: TradeType::Market,
        };
        let level_kept = level.orders.len() > 0;
        if level_kept {
            self.asks.insert(0, level);
        }
        self.last_trade_price = level_price;
        self.total_volume = add_total(self.total_volume, fill);
        proof {
            if level_kept {
                assert forall|i: int| 0 <= i < self.asks@.len() implies level_wf(
                    #[trigger] self.asks@[i],
                    OrderSide::Sell,
                ) by {
                    if i > 0 {
                        assert(self.asks@[i] == pre.asks@[i]);
                    } else {
                        assert(forall|j: int|
                            0 <= j < self.asks@[0].orders.len() ==> #[trigger] self.asks@[0].orders[j]
                                == pre.asks@[0].orders[j + 1]);
                    }
                }
                assert(consumed_level_witness(pre.asks@[0], self.asks@[0], 1));
                assert(consumed_side_witness(pre.asks@, self.asks@, 0));
                assert(self.asks@.len() == pre.asks@.len());
                assert(self.asks@[0].price == pre.asks@[0].price);
                assert(self.asks@[0].orders@ =~= pre.asks@[0].orders@.drop_first());
                assert(forall|i: int|
                    1 <= i < self.asks@.len() ==> #[trigger] self.asks@[i] == pre.asks@[i]);
            } else {
                assert(self.asks@ =~= pre.asks@.drop_first());
                if self.asks@.len() > 0 {
                    assert(level_wf(pre.asks@[1], OrderSide::Sell));
                    assert(self.asks@[0] == pre.asks@[1]);
                    assert(reduced_order(pre.asks@[1].orders[0], self.asks@[0].orders[0]));
                    assert(consumed_level_witness(pre.asks@[1], self.asks@[0], 0));
                }
                assert(consumed_side_witness(pre.asks@, self.asks@, 1));
                assert(pre.asks@[0].orders@.len() == 1);
            }
            assert(self.wf());
            assert(consumed_from_front(pre.asks@, self.asks@));
            lemma_step_asks(pre.asks@, self.asks@, limit);
            assert(embeds(self.asks@, pre.asks@)) by {
                assert forall|i: int, j: int|
                    0 <= i < self.asks@.len() && 0 <= j < self.asks@[i].orders.len() implies resting_in(
                    pre.asks@,
                    #[trigger] self.asks@[i].orders[j],
                ) by {
                    if level_kept {
                        if i == 0 {
                            assert(self.asks@[0].orders[j] == pre.asks@[0].orders[j + 1]);
                        } else {
                            assert(self.asks@[i].orders[j] == pre.asks@[i].orders[j]);
                        }
                    } else {
                        assert(self.asks@[i].orders[j] == pre.asks@[i + 1].orders[j]);
                    }
                }
            }
            assert(seller_from(pre.asks@, trade, true) && seller_from(pre.asks@, trade, false))
                by {
                assert(pre.asks@[0].orders@[0] == pre_maker);
            }
        }
        trade
    }

    /// Walk the ask side for a Buy taker: consume resting sell orders in
    /// ascending price order, FIFO within a level, until `remaining` is
    /// exhausted, the book side is empty, or the next level's price exceeds
    /// `limit`. Returns the emitted trades and the unfilled residual.
    #[verifier::rlimit(100)]
    fn match_asks(&mut self, taker: &Order, remaining: u64, limit: Option<u64>) -> (res: (
        Vec<Trade>,
        u64,
    ))
        requires
            old(self).wf(),
            taker.side == OrderSide::Buy,
        ensures
            final(self).wf(),
            final(self).symbol == old(self).symbol,
            final(self).bids == old(self).bids,
            consumed_from_front(old(self).asks@, final(self).asks@),
            res.1 <= remaining,
            sum_volumes(res.0@) + res.1 == remaining,
            forall|n: int|
                0 <= n < res.0@.len() ==> old(self).buy_trade_ok(
                    *taker,
                    limit,
                    #[trigger] res.0@[n],
                    n + 1 < res.0@.len(),
                ),
            forall|n: int| 0 <= n < res.0@.len() ==> (#[trigger] res.0@[n]).volume <= remaining,
            fills_makers(matchable_asks(old(self).asks@, limit), remaining as int, res.0@, true),
            side_volume(final(self).asks@) == side_volume(old(self).asks@) - sum_volumes(res.0@),
            res.1 > 0 ==> final(self).asks@.len() == 0 || (limit matches Some(l)
                && final(self).asks@[0].price > l),
            final(self).total_volume == clamp_total(
                old(self).total_volume + sum_volumes(res.0@),
            ),
            res.0@.len() > 0 ==> final(self).last_trade_price == res.0@.last().price,
            res.0@.len() == 0 ==> *final(self) == *old(self),
        decreases
            self.asks.len(),
            (if self.asks.len() > 0 {
                self.asks@[0].orders.len()
            } else {
                0
            }),
    {
        let ghost pre = *self;
        let ghost flat = matchable_asks(pre.asks@, limit);
        if remaining == 0 || self.asks.len() == 0 {
            proof {
                lemma_consumed_refl(pre.asks@, OrderSide::Sell);
                if remaining != 0 {
                    assert(flat =~= Seq::<Order>::empty());
                }
                lemma_fills_none(flat, remaining as int, true);
                assert(sum_volumes(Seq::<Trade>::empty()) == 0);
            }
            let trades: Vec<Trade> = Vec::new();
            return (trades, remaining);
        }
        let level_price = self.asks[0].price;
        if let Some(l) = limit {
            if level_price > l {
                proof {
                    lemma_consumed_refl(pre.asks@, OrderSide::Sell);
                    assert(flat =~= Seq::<Order>::empty());
                    lemma_fills_none(flat, remaining as int, true);
                    assert(sum_volumes(Seq::<Trade>::empty()) == 0);
                }
                let trades: Vec<Trade> = Vec::new();
                return (trades, remaining);
            }
        }
        proof {
            assert(flat =~= pre.asks@[0].orders@ + matchable_asks(pre.asks@.drop_first(), limit));
            assert(level_wf(pre.asks@[0], OrderSide::Sell));
            assert(flat[0] == pre.asks@[0].orders@[0]);
        }
        let front_amount = self.asks[0].orders[0].amount;
        if front_amount > remaining {
            // Partial fill: the maker stays; the taker is done.
            let trade = self.partial_front_ask(taker, remaining);
            let ghost tr = trade;
            let mut trades: Vec<Trade> = Vec::new();
            trades.push(trade);
            proof {
                assert(trades@ =~= seq![tr]);
                assert(trades@.drop_first() =~= Seq::<Trade>::empty());
                assert(sum_volumes(Seq::<Trade>::empty()) == 0);
                assert(sum_volumes(trades@) == remaining);
                assert(tr.price == flat[0].price && tr.seller_id == flat[0].participant_id);
                lemma_fills_partial(flat, remaining as int, tr, trades@, true);
                assert(pre.buy_trade_ok(*taker, limit, tr, false));
                assert(trades@.last() == tr);
            }
            (trades, 0)
        } else {
            // Full fill of the maker; the walk continues with the rest.
            let trade = self.take_front_ask(taker, limit);
            let fill = trade.volume;
            let ghost mid = *self;
            let ghost tr = trade;
            let (mut rest, rem) = self.match_asks(taker, remaining - fill, limit);
            let ghost rest0 = rest@;
            let mut trades: Vec<Trade> = Vec::new();
            trades.push(trade);
            trades.append(&mut rest);
            proof {
                lemma_consumed_trans(pre.asks@, mid.asks@, self.asks@);
                assert(trades@ =~= seq![tr] + rest0);
                assert(trades@.drop_first() =~= rest0);
                assert(sum_volumes(trades@) == fill + sum_volumes(rest0));
                assert(fills_makers(
                    matchable_asks(mid.asks@, limit),
                    remaining - fill,
                    rest0,
                    true,
                ));
                assert(tr.price == flat[0].price && tr.seller_id == flat[0].participant_id
                    && tr.volume == flat[0].amount);
                lemma_fills_cons(flat, remaining as int, tr, rest0, trades@, true);
                assert(side_volume(self.asks@) == side_volume(pre.asks@) - sum_volumes(trades@));
                assert(pre.buy_trade_ok(*taker, limit, tr, true) && pre.buy_trade_ok(
                    *taker,
                    limit,
                    tr,
                    false,
                ));
                assert forall|n: int| 0 <= n < trades@.len() implies pre.buy_trade_ok(
                    *taker,
                    limit,
                    #[trigger] trades@[n],
                    n + 1 < trades@.len(),
                ) by {
                    if n == 0 {
                        assert(trades@[0] == tr);
                    } else {
                        assert(trades@[n] == rest0[n - 1]);
                        assert(mid.buy_trade_ok(*taker, limit, rest0[n - 1], n < rest0.len()));
                        lemma_party_from_embeds(mid.asks@, pre.asks@, rest0[n - 1], n < rest0.len());
                    }
                }
                if rest0.len() > 0 {
                    assert(trades@.last() == rest0.last());
                } else {
                    assert(trades@.last() == tr);
                }
            }
            (trades, rem)
        }
    }

    /// Reduce the front resting bid by `fill`, which it strictly exceeds:
    /// the maker stays at the front with its amount lowered and one trade
    /// against the taker is emitted.
    #[verifier::rlimit(60)]
    fn partial_front_bid(&mut self, taker: &Order, fill: u64) -> (t: Trade)
        requires
            old(self).wf(),
            old(self).bids@.len() > 0,
            0 < fill < old(self).bids@[0].orders@[0].amount,
        ensures
            final(self).wf(),
            final(self).symbol == old(self).symbol,
            final(self).asks == old(self).asks,
            consumed_from_front(old(self).bids@, final(self).bids@),
            side_volume(final(self).bids@) == side_volume(old(self).bids@) - fill,
            final(self).bids@.len() == old(self).bids@.len(),
            final(self).bids@[0].price == old(self).bids@[0].price,
            t.volume == fill,
            t.price == old(self).bids@[0].price,
            t.buyer_id == old(self).bids@[0].orders@[0].participant_id,
            t.seller_id == taker.participant_id,
            t.symbol == old(self).symbol,
            t.timestamp == taker.timestamp,
            t.trade_type == TradeType::Market,
            buyer_from(old(self).bids@, t, false),
            final(self).last_trade_price == t.price,
            final(self).total_volume == clamp_total(old(self).total_volume + fill),
    {
        let ghost pre = *self;
        let level_price = self.bids[0].price;
        let mut level = self.bids.remove(0);
        let mut maker = level.orders.remove(0);
        let ghost pre_maker = maker;
        let buyer = maker.participant_id.clone();
        maker.amount = maker.amount - fill;
        level.orders.insert(0, maker);
        self.bids.insert(0, level);
        let trade = Trade {
            id: rng::fresh_id(),
            symbol: self.symbol.clone(),
            seller_id: taker.participant_id.clone(),
            buyer_id: buyer,
            price: level_price,
            volume: fill,
            timestamp: taker.timestamp,
            trade_type: TradeType::Market,
        };
        self.last_trade_price = level_price;
        self.total_volume = add_total(self.total_volume, fill);
        proof {
            assert(self.bids@[0].orders@ =~= pre.bids@[0].orders@.update(
                0,
                self.bids@[0].orders@[0],
            ));
            assert(level_wf(self.bids@[0], OrderSide::Buy));
            assert forall|i: int| 0 <= i < self.bids@.len() implies level_wf(
                #[trigger] self.bids@[i],
                OrderSide::Buy,
            ) by {
                if i > 0 {
                    assert(self.bids@[i] == pre.bids@[i]);
                }
            }
            assert(self.wf());
            assert(consumed_level_witness(pre.bids@[0], self.bids@[0], 0));
            assert(consumed_side_witness(pre.bids@, self.bids@, 0));
            assert(buyer_from(pre.bids@, trade, false)) by {
                assert(pre.bids@[0].orders@[0] == pre_maker);
            }
            assert(forall|i: int|
                1 <= i < self.bids@.len() ==> #[trigger] self.bids@[i] == pre.bids@[i]);
            assert(self.bids@[0].orders@[0].amount == pre.bids@[0].orders@[0].amount - fill);
            lemma_partial_volume(pre.bids@, self.bids@, fill as int);
        }
        trade
    }

    /// Consume the whole front resting bid: the maker leaves its queue
    /// (and its level, when that empties) and one trade against the taker
    /// is emitted.
    #[verifier::rlimit(60)]
    fn take_front_bid(&mut self, taker: &Order, limit: Option<u64>) -> (t: Trade)
        requires
            old(self).wf(),
            old(self).bids@.len() > 0,
            !(limit matches Some(l) && old(self).bids@[0].price < l),
        ensures
            final(self).wf(),
            final(self).symbol == old(self).symbol,
            final(self).asks == old(self).asks,
            consumed_from_front(old(self).bids@, final(self).bids@),
            embeds(final(self).bids@, old(self).bids@),
            matchable_bids(final(self).bids@, limit) == matchable_bids(
                old(self).bids@,
                limit,
            ).drop_first(),
            side_volume(final(self).bids@) == side_volume(old(self).bids@) - t.volume,
            final(self).bids@.len() < old(self).bids@.len() || (final(self).bids@.len() == old(
                self,
            ).bids@.len() && final(self).bids@[0].orders@.len() < old(
                self,
            ).bids@[0].orders@.len()),
            t.volume == old(self).bids@[0].orders@[0].amount,
            t.price == old(self).bids@[0].price,
            t.buyer_id == old(self).bids@[0].orders@[0].participant_id,
            t.seller_id == taker.participant_id,
            t.symbol == old(self).symbol,
            t.timestamp == taker.timestamp,
            t.trade_type == TradeType::Market,
            buyer_from(old(self).bids@, t, true),
            buyer_from(old(self).bids@, t, false),
            final(self).last_trade_price == t.price,
            final(self).total_volume == clamp_total(old(self).total_volume + t.volume),
    {
        let ghost pre = *self;
        let level_price = self.bids[0].price;
        let mut level = self.bids.remove(0);
        let maker = level.orders.remove(0);
        let ghost pre_maker = maker;
        let fill = maker.amount;
        let buyer = maker.participant_id;
        let trade = Trade {
            id: rng::fresh_id(),
            symbol: self.symbol.clone(),
            seller_id: taker.participant_id.clone(),
            buyer_id: buyer,
            price: level_price,
            volume: fill,
            timestamp: taker.timestamp,
            trade_type: TradeType::Market,
        };
        let level_kept = level.orders.len() > 0;
        if level_kept {
            self.bids.insert(0, level);
        }
        self.last_trade_price = level_price;
        self.total_volume = add_total(self.total_volume, fill);
        proof {
            if level_kept {
                assert forall|i: int| 0 <= i < self.bids@.len() implies level_wf(
                    #[trigger] self.bids@[i],
                    OrderSide::Buy,
                ) by {
                    if i > 0 {
                        assert(self.bids@[i] == pre.bids@[i]);
                    } else {
                        assert(forall|j: int|
                            0 <= j < self.bids@[0].orders.len() ==> #[trigger] self.bids@[0].orders[j]
                                == pre.bids@[0].orders[j + 1]);
                    }
                }
                assert(consumed_level_witness(pre.bids@[0], self.bids@[0], 1));
                assert(consumed_side_witness(pre.bids@, self.bids@, 0));
                assert(self.bids@.len() == pre.bids@.len());
                assert(self.bids@[0].price == pre.bids@[0].price);
                assert(self.bids@[0].orders@ =~= pre.bids@[0].orders@.drop_first());
                assert(forall|i: int|
                    1 <= i < self.bids@.len() ==> #[trigger] self.bids@[i] == pre.bids@[i]);
            } else {
                assert(self.bids@ =~= pre.bids@.drop_first());
                if self.bids@.len() > 0 {
                    assert(level_wf(pre.bids@[1], OrderSide::Buy));
                    assert(self.bids@[0] == pre.bids@[1]);
                    assert(reduced_order(pre.bids@[1].orders[0], self.bids@[0].orders[0]));
                    assert(consumed_level_witness(pre.bids@[1], self.bids@[0], 0));
                }
                assert(consumed_side_witness(pre.bids@, self.bids@, 1));
                assert(pre.bids@[0].orders@.len() == 1);
            }
            assert(self.wf());
            assert(consumed_from_front(pre.bids@, self.bids@));
            lemma_step_bids(pre.bids@, self.bids@, limit);
            assert(embeds(self.bids@, pre.bids@)) by {
                assert forall|i: int, j: int|
                    0 <= i < self.bids@.len() && 0 <= j < self.bids@[i].orders.len() implies resting_in(
                    pre.bids@,
                    #[trigger] self.bids@[i].orders[j],
                ) by {
                    if level_kept {
                        if i == 0 {
                            assert(self.bids@[0].orders[j] == pre.bids@[0].orders[j + 1]);
                        } else {
                            assert(self.bids@[i].orders[j] == pre.bids@[i].orders[j]);
                        }
                    } else {
                        assert(self.bids@[i].orders[j] == pre.bids@[i + 1].orders[j]);
                    }
                }
            }
            assert(buyer_from(pre.bids@, trade, true) && buyer_from(pre.bids@, trade, false))
                by {
                assert(pre.bids@[0].orders@[0] == pre_maker);
            }
        }
        trade
    }

    /// Walk the bid side for a Sell taker: consume resting buy orders in
    /// descending price order, FIFO within a level, until `remaining` is
    /// exhausted, the book side is empty, or the next level's price falls below
    /// `limit`. Returns the emitted trades and the unfilled residual.
    #[verifier::rlimit(100)]
    fn match_bids(&mut self, taker: &Order, remaining: u64, limit: Option<u64>) -> (res: (
        Vec<Trade>,
        u64,
    ))
        requires
            old(self).wf(),
            taker.side == OrderSide::Sell,
        ensures
            final(self).wf(),
            final(self).symbol == old(self).symbol,
            final(self).asks == old(self).asks,
            consumed_from_front(old(self).bids@, final(self).bids@),
            res.1 <= remaining,
            sum_volumes(res.0@) + res.1 == remaining,
            forall|n: int|
                0 <= n < res.0@.len() ==> old(self).sell_trade_ok(
                    *taker,
                    limit,
                    #[trigger] res.0@[n],
                    n + 1 < res.0@.len(),
                ),
            forall|n: int| 0 <= n < res.0@.len() ==> (#[trigger] res.0@[n]).volume <= remaining,
            fills_makers(matchable_bids(old(self).bids@, limit), remaining as int, res.0@, false),
            side_volume(final(self).bids@) == side_volume(old(self).bids@) - sum_volumes(res.0@),
            res.1 > 0 ==> final(self).bids@.len() == 0 || (limit matches Some(l)
                && final(self).bids@[0].price < l),
            final(self).total_volume == clamp_total(
                old(self).total_volume + sum_volumes(res.0@),
            ),
            res.0@.len() > 0 ==> final(self).last_trade_price == res.0@.last().price,
            res.0@.len() == 0 ==> *final(self) == *old(self),
        decreases
            self.bids.len(),
            (if self.bids.len() > 0 {
                self.bids@[0].orders.len()
            } else {
                0
            }),
    {
        let ghost pre = *self;
        let ghost flat = matchable_bids(pre.bids@, limit);
        if remaining == 0 || self.bids.len() == 0 {
            proof {
                lemma_consumed_refl(pre.bids@, OrderSide::Buy);
                if remaining != 0 {
                    assert(flat =~= Seq::<Order>::empty());
                }
                lemma_fills_none(flat, remaining as int, false);
                assert(sum_volumes(Seq::<Trade>::empty()) == 0);
            }
            let trades: Vec<Trade> = Vec::new();
            return (trades, remaining);
        }
        let level_price = self.bids[0].price;
        if let Some(l) = limit {
            if level_price < l {
                proof {
                    lemma_consumed_refl(pre.bids@, OrderSide::Buy);
                    assert(flat =~= Seq::<Order>::empty());
                    lemma_fills_none(flat, remaining as int, false);
                    assert(sum_volumes(Seq::<Trade>::empty()) == 0);
                }
                let trades: Vec<Trade> = Vec::new();
                return (trades, remaining);
            }
        }
        proof {
            assert(flat =~= pre.bids@[0].orders@ + matchable_bids(pre.bids@.drop_first(), limit));
            assert(level_wf(pre.bids@[0], OrderSide::Buy));
            assert(flat[0] == pre.bids@[0].orders@[0]);
        }
        let front_amount = self.bids[0].orders[0].amount;
        if front_amount > remaining {
            // Partial fill: the maker stays; the taker is done.
            let trade = self.partial_front_bid(taker, remaining);
            let ghost tr = trade;
            let mut trades: Vec<Trade> = Vec::new();
            trades.push(trade);
            proof {
                assert(trades@ =~= seq![tr]);
                assert(trades@.drop_first() =~= Seq::<Trade>::empty());
                assert(sum_volumes(Seq::<Trade>::empty()) == 0);
                assert(sum_volumes(trades@) == remaining);
                assert(tr.price == flat[0].price && tr.buyer_id == flat[0].participant_id);
                lemma_fills_partial(flat, remaining as int, tr, trades@, false);
                assert(pre.sell_trade_ok(*taker, limit, tr, false));
                assert(trades@.last() == tr);
            }
            (trades, 0)
        } else {
            // Full fill of the maker; the walk continues with the rest.
            let trade = self.take_front_bid(taker, limit);
            let fill = trade.volume;
            let ghost mid = *self;
            let ghost tr = trade;
            let (mut rest, rem) = self.match_bids(taker, remaining - fill, limit);
            let ghost rest0 = rest@;
            let mut trades: Vec<Trade> = Vec::new();
            trades.push(trade);
            trades.append(&mut rest);
            proof {
                lemma_consumed_trans(pre.bids@, mid.bids@, self.bids@);
                assert(trades@ =~= seq![tr] + rest0);
                assert(trades@.drop_first() =~= rest0);
                assert(sum_volumes(trades@) == fill + sum_volumes(rest0));
                assert(fills_makers(
                    matchable_bids(mid.bids@, limit),
                    remaining - fill,
                    rest0,
                    false,
                ));
                assert(tr.price == flat[0].price && tr.buyer_id == flat[0].participant_id
                    && tr.volume == flat[0].amount);
                lemma_fills_cons(flat, remaining as int, tr, rest0, trades@, false);
                assert(side_volume(self.bids@) == side_volume(pre.bids@) - sum_volumes(trades@));
                assert(pre.sell_trade_ok(*taker, limit, tr, true) && pre.sell_trade_ok(
                    *taker,
                    limit,
                    tr,
                    false,
                ));
                assert forall|n: int| 0 <= n < trades@.len() implies pre.sell_trade_ok(
                    *taker,
                    limit,
                    #[trigger] trades@[n],
                    n + 1 < trades@.len(),
                ) by {
                    if n == 0 {
                        assert(trades@[0] == tr);
                    } else {
                        assert(trades@[n] == rest0[n - 1]);
                        assert(mid.sell_trade_ok(*taker, limit, rest0[n - 1], n < rest0.len()));
                        lemma_party_from_embeds(mid.bids@, pre.bids@, rest0[n - 1], n < rest0.len());
                    }
                }
                if rest0.len() > 0 {
                    assert(trades@.last() == rest0.last());
                } else {
                    assert(trades@.last() == tr);
                }
            }
            (trades, rem)
        }
    }

    /// Rest a Buy order on the bid side: at the tail of its price level's
    /// FIFO queue, or on a new level placed to keep prices descending.
    fn rest_bid(&mut self, order: Order)
        requires
            old(self).wf(),
            order.side == OrderSide::Buy,
            order_valid(order),
            old(self).asks@.len() > 0 ==> order.price < old(self).asks@[0].price,
        ensures
            final(self).wf(),
            final(self).symbol == old(self).symbol,
            final(self).asks == old(self).asks,
            final(self).last_trade_price == old(self).last_trade_price,
            final(self).total_volume == old(self).total_volume,
            rested_into(old(self).bids@, final(self).bids@, order),
    {
        let ghost pre = *self;
        let ghost o = order;
        let mut idx: usize = 0;
        while idx < self.bids.len() && self.bids[idx].price > order.price
            invariant
                *self == pre,
                idx <= self.bids@.len(),
                forall|k: int| 0 <= k < idx ==> pre.bids@[k].price > order.price,
            decreases self.bids@.len() - idx,
        {
            idx += 1;
        }
        if idx < self.bids.len() && self.bids[idx].price == order.price {
            let mut level = self.bids.remove(idx);
            level.orders.push(order);
            self.bids.insert(idx, level);
            proof {
                assert(rested_existing(pre.bids@, self.bids@, o, idx as int));
                assert forall|k: int| 0 <= k < self.bids@.len() implies level_wf(
                    #[trigger] self.bids@[k],
                    OrderSide::Buy,
                ) by {
                    assert(level_wf(pre.bids@[k], OrderSide::Buy));
                    if k == idx {
                        assert(forall|j: int|
                            0 <= j < pre.bids@[k].orders.len() ==> #[trigger] self.bids@[k].orders[j]
                                == pre.bids@[k].orders[j]);
                        assert(self.bids@[k].orders[pre.bids@[k].orders.len() as int] == o);
                    }
                }
                assert(forall|k: int|
                    0 <= k < self.bids@.len() ==> (#[trigger] self.bids@[k]).price
                        == pre.bids@[k].price);
                assert(self.wf());
            }
        } else {
            let price = order.price;
            let mut orders: Vec<Order> = Vec::new();
            orders.push(order);
            self.bids.insert(idx, PriceLevel { price, orders });
            proof {
                assert(rested_new(pre.bids@, self.bids@, o, idx as int));
                assert forall|k: int| idx <= k < pre.bids@.len() implies (
                #[trigger] pre.bids@[k]).price < o.price by {
                    if k > idx {
                        assert(pre.bids@[k].price < pre.bids@[idx as int].price);
                    }
                }
                assert forall|k: int| 0 <= k < self.bids@.len() implies level_wf(
                    #[trigger] self.bids@[k],
                    OrderSide::Buy,
                ) by {
                    if k < idx {
                        assert(self.bids@[k] == pre.bids@[k]);
                    } else if k > idx {
                        assert(self.bids@[k] == pre.bids@[k - 1]);
                    }
                }
                assert forall|i: int, j: int| 0 <= i < j < self.bids@.len() implies (
                #[trigger] self.bids@[i]).price > (#[trigger] self.bids@[j]).price by {
                    if i < idx && j < idx {
                    } else if i < idx && j == idx {
                        assert(pre.bids@[i].price > o.price);
                    } else if i == idx && j > idx {
                        assert(pre.bids@[j - 1].price < o.price);
                    } else if i < idx && j > idx {
                        assert(pre.bids@[i].price > pre.bids@[j - 1].price);
                    }
                }
                assert(self.wf());
            }
        }
    }

    /// Rest a Sell order on the ask side: at the tail of its price level's
    /// FIFO queue, or on a new level placed to keep prices ascending.
    fn rest_ask(&mut self, order: Order)
        requires
            old(self).wf(),
            order.side == OrderSide::Sell,
            order_valid(order),
            old(self).bids@.len() > 0 ==> order.price > old(self).bids@[0].price,
        ensures
            final(self).wf(),
            final(self).symbol == old(self).symbol,
            final(self).bids == old(self).bids,
            final(self).last_trade_price == old(self).last_trade_price,
            final(self).total_volume == old(self).total_volume,
            rested_into(old(self).asks@, final(self).asks@, order),
    {
        let ghost pre = *self;
        let ghost o = order;
        let mut idx: usize = 0;
        while idx < self.asks.len() && self.asks[idx].price < order.price
            invariant
                *self == pre,
                idx <= self.asks@.len(),
                forall|k: int| 0 <= k < idx ==> pre.asks@[k].price < order.price,
            decreases self.asks@.len() - idx,
        {
            idx += 1;
        }
        if idx < self.asks.len() && self.asks[idx].price == order.price {
            let mut level = self.asks.remove(idx);
            level.orders.push(order);
            self.asks.insert(idx, level);
            proof {
                assert(rested_existing(pre.asks@, self.asks@, o, idx as int));
                assert forall|k: int| 0 <= k < self.asks@.len() implies level_wf(
                    #[trigger] self.asks@[k],
                    OrderSide::Sell,
                ) by {
                    assert(level_wf(pre.asks@[k], OrderSide::Sell));
                    if k == idx {
                        assert(forall|j: int|
                            0 <= j < pre.asks@[k].orders.len() ==> #[trigger] self.asks@[k].orders[j]
                                == pre.asks@[k].orders[j]);
                        assert(self.asks@[k].orders[pre.asks@[k].orders.len() as int] == o);
                    }
                }
                assert(forall|k: int|
                    0 <= k < self.asks@.len() ==> (#[trigger] self.asks@[k]).price
                        == pre.asks@[k].price);
                assert(self.wf());
            }
        } else {
            let price = order.price;
            let mut orders: Vec<Order> = Vec::new();
            orders.push(order);
            self.asks.insert(idx, PriceLevel { price, orders });
            proof {
                assert(rested_new(pre.asks@, self.asks@, o, idx as int));
                assert forall|k: int| idx <= k < pre.asks@.len() implies (
                #[trigger] pre.asks@[k]).price > o.price by {
                    if k > idx {
                        assert(pre.asks@[k].price > pre.asks@[idx as int].price);
                    }
                }
                assert forall|k: int| 0 <= k < self.asks@.len() implies level_wf(
                    #[trigger] self.asks@[k],
                    OrderSide::Sell,
                ) by {
                    if k < idx {
                        assert(self.asks@[k] == pre.asks@[k]);
                    } else if k > idx {
                        assert(self.asks@[k] == pre.asks@[k - 1]);
                    }
                }
                assert forall|i: int, j: int| 0 <= i < j < self.asks@.len() implies (
                #[trigger] self.asks@[i]).price < (#[trigger] self.asks@[j]).price by {
                    if i < idx && j < idx {
                    } else if i < idx && j == idx {
                        assert(pre.asks@[i].price < o.price);
                    } else if i == idx && j > idx {
                        assert(pre.asks@[j - 1].price > o.price);
                    } else if i < idx && j > idx {
                        assert(pre.asks@[i].price < pre.asks@[j - 1].price);
                    }
                }
                assert(self.wf());
            }
        }
    }

    /// Match a market order against the opposite side; residual is
    /// discarded (a market order never rests).
    fn process_market_order(&mut self, order: Order) -> (r: Option<Vec<Trade>>)
        requires
            old(self).wf(),
            order_valid(order),
        ensures
            market_order_post(*old(self), *final(self), order, r),
    {
        let trades = match order.side {
            OrderSide::Buy => {
                let (trades, _rem) = self.match_asks(&order, order.amount, None);
                trades
            },
            OrderSide::Sell => {
                let (trades, _rem) = self.match_bids(&order, order.amount, None);
                trades
            },
        };
        if trades.len() > 0 {
            Some(trades)
        } else {
            None
        }
    }

    /// Match the marketable portion of a limit order (capped at its limit
    /// price), then rest any residual at the limit price, FIFO-last.
    fn process_limit_order(&mut self, order: Order) -> (r: Option<Vec<Trade>>)
        requires
            old(self).wf(),
            order_valid(order),
        ensures
            limit_order_post(*old(self), *final(self), order, r),
    {
        let ghost o = order;
        match order.side {
            OrderSide::Buy => {
                let (trades, rem) = self.match_asks(&order, order.amount, Some(order.price));
                if rem > 0 {
                    let resting = Order { amount: rem, ..order };
                    proof {
                        assert(resting == with_amount(o, rem));
                        assert(sum_volumes(trades@) == o.amount - rem);
                    }
                    self.rest_bid(resting);
                }
                if trades.len() > 0 {
                    Some(trades)
                } else {
                    None
                }
            },
            OrderSide::Sell => {
                let (trades, rem) = self.match_bids(&order, order.amount, Some(order.price));
                if rem > 0 {
                    let resting = Order { amount: rem, ..order };
                    proof {
                        assert(resting == with_amount(o, rem));
                        assert(sum_volumes(trades@) == o.amount - rem);
                    }
                    self.rest_ask(resting);
                }
                if trades.len() > 0 {
                    Some(trades)
                } else {
                    None
                }
            },
        }
    }

    /// Convert a stop order to a market order if its trigger condition
    /// holds on arrival; drop it otherwise.
    fn process_stop_order(&mut self, order: Order) -> (r: Option<Vec<Trade>>)
        requires
            old(self).wf(),
            order_valid(order),
        ensures
            stop_order_post(*old(self), *final(self), order, r),
    {
        let should_trigger = match order.side {
            OrderSide::Buy => self.last_trade_price >= order.price,
            OrderSide::Sell => self.last_trade_price <= order.price,
        };
        if should_trigger {
            self.process_market_order(order)
        } else {
            None
        }
    }

    /// Convert a stop-limit order to a limit order at the same price if
    /// its trigger condition holds on arrival; drop it otherwise.
    fn process_stop_limit_order(&mut self, order: Order) -> (r: Option<Vec<Trade>>)
        requires
            old(self).wf(),
            order_valid(order),
        ensures
            stop_limit_order_post(*old(self), *final(self), order, r),
    {
        let ghost o = order;
        let should_trigger = match order.side {
            OrderSide::Buy => self.last_trade_price >= order.price,
            OrderSide::Sell => self.last_trade_price <= order.price,
        };
        if should_trigger {
            let converted = Order { order_type: OrderType::Limit, ..order };
            proof {
                assert(converted == as_limit(o));
            }
            self.process_limit_order(converted)
        } else {
            None
        }
    }

    /// Accept an order and match it according to its type. Returns the
    /// emitted trades, or `None` when nothing matched. An order with a zero
    /// (or out-of-band) amount or price is rejected: the result is `None`
    /// and the book is left completely unchanged.
    pub fn add_order(&mut self, order: Order) -> (r: Option<Vec<Trade>>)
        requires
            old(self).wf(),
        ensures
            final(self).wf(),
            final(self).symbol == old(self).symbol,
            !order_valid(order) ==> r is None && *final(self) == *old(self),
            order_valid(order) ==> match order.order_type {
                OrderType::Market => market_order_post(*old(self), *final(self), order, r),
                OrderType::Limit => limit_order_post(*old(self), *final(self), order, r),
                OrderType::Stop => stop_order_post(*old(self), *final(self), order, r),
                OrderType::StopLimit => stop_limit_order_post(*old(self), *final(self), order, r),
            },
    {
        if order.amount == 0 || order.amount > VOLUME_LIMIT || order.price == 0 || order.price
            > PRICE_LIMIT {
            return None;
        }
        match order.order_type {
            OrderType::Market => self.process_market_order(order),
            OrderType::Limit => self.process_limit_order(order),
            OrderType::Stop => self.process_stop_order(order),
            OrderType::StopLimit => self.process_stop_limit_order(order),
        }
    }

    /// Cancel a resting order by id. Scans bids first, then asks; returns
    /// whether an order was found. The FIFO order of every other resting
    /// order at its level is preserved.
    pub fn remove_order(&mut self, order_id: u128) -> (r: bool)
        requires
            old(self).wf(),
        ensures
            final(self).wf(),
            final(self).symbol == old(self).symbol,
            final(self).last_trade_price == old(self).last_trade_price,
            final(self).total_volume == old(self).total_volume,
            r == (contains_id(old(self).bids@, order_id) || contains_id(
                old(self).asks@,
                order_id,
            )),
            !r ==> *final(self) == *old(self),
            contains_id(old(self).bids@, order_id) ==> removed_one(
                old(self).bids@,
                final(self).bids@,
                order_id,
            ) && final(self).asks == old(self).asks,
            !contains_id(old(self).bids@, order_id) && contains_id(old(self).asks@, order_id)
                ==> removed_one(old(self).asks@, final(self).asks@, order_id) && final(self).bids
                == old(self).bids,
    {
        let ghost pre = *self;
        if remove_from_side(&mut self.bids, order_id) {
            proof {
                assert(self.bids@.len() > 0 && self.asks@.len() > 0 ==> self.bids@[0].price
                    < self.asks@[0].price) by {
                    if self.bids@.len() > 0 && self.asks@.len() > 0 {
                        if pre.bids@.len() > 1 {
                            assert(pre.bids@[1].price < pre.bids@[0].price);
                        }
                    }
                }
            }
            return true;
        }
        if remove_from_side(&mut self.asks, order_id) {
            proof {
                assert(self.bids@.len() > 0 && self.asks@.len() > 0 ==> self.bids@[0].price
                    < self.asks@[0].price) by {
                    if self.bids@.len() > 0 && self.asks@.len() > 0 {
                        if pre.asks@.len() > 1 {
                            assert(pre.asks@[0].price < pre.asks@[1].price);
                        }
                    }
                }
            }
            return true;
        }
        false
    }

    /// The top `depth` bid levels, best (highest) price first, each as a
    /// pair of price and aggregated resting volume.
    pub fn get_bids(&self, depth: usize) -> (r: Vec<(u64, u128)>)
        requires
            self.wf(),
        ensures
            r@.len() == if depth < self.bids@.len() {
                depth as int
            } else {
                self.bids@.len() as int
            },
            forall|n: int|
                0 <= n < r@.len() ==> (#[trigger] r@[n]).0 == self.bids@[n].price && r@[n].1
                    == level_volume(self.bids@[n].orders@),
    {
        let mut result: Vec<(u64, u128)> = Vec::new();
        let mut n: usize = 0;
        while n < depth && n < self.bids.len()
            invariant
                self.wf(),
                n <= self.bids@.len(),
                n <= depth,
                result@.len() == n as int,
                forall|m: int|
                    0 <= m < n ==> (#[trigger] result@[m]).0 == self.bids@[m].price && result@[m].1
                        == level_volume(self.bids@[m].orders@),
            decreases depth - n,
        {
            let vol = aggregate_level(&self.bids[n]);
            result.push((self.bids[n].price, vol));
            n += 1;
        }
        result
    }

    /// The top `depth` ask levels, best (lowest) price first, each as a
    /// pair of price and aggregated resting volume.
    pub fn get_asks(&self, depth: usize) -> (r: Vec<(u64, u128)>)
        requires
            self.wf(),
        ensures
            r@.len() == if depth < self.asks@.len() {
                depth as int
            } else {
                self.asks@.len() as int
            },
            forall|n: int|
                0 <= n < r@.len() ==> (#[trigger] r@[n]).0 == self.asks@[n].price && r@[n].1
                    == level_volume(self.asks@[n].orders@),
    {
        let mut result: Vec<(u64, u128)> = Vec::new();
        let mut n: usize = 0;
        while n < depth && n < self.asks.len()
            invariant
                self.wf(),
                n <= self.asks@.len(),
                n <= depth,
                result@.len() == n as int,
                forall|m: int|
                    0 <= m < n ==> (#[trigger] result@[m]).0 == self.asks@[m].price && result@[m].1
                        == level_volume(self.asks@[m].orders@),
            decreases depth - n,
        {
            let vol = aggregate_level(&self.asks[n]);
            result.push((self.asks[n].price, vol));
            n += 1;
        }
        result
    }

    /// How many orders rest on the book, both sides together (clamped at
    /// the volume ceiling).
    pub fn get_order_count(&self) -> (r: u128)
        ensures
            r == clamp_total(count_orders(self.bids@) + count_orders(self.asks@)),
    {
        let bids = count_side(&self.bids);
        let asks = count_side(&self.asks);
        proof {
            lemma_count_orders_nonneg(self.bids@);
            lemma_count_orders_nonneg(self.asks@);
        }
        let s: u128 = bids + asks;
        if s > TOTAL_VOLUME_LIMIT {
            TOTAL_VOLUME_LIMIT
        } else {
            s
        }
    }

    /// Drop every resting order and reset the traded-volume counter.
    pub fn clear(&mut self)
        ensures
            final(self).symbol == old(self).symbol,
            final(self).last_trade_price == old(self).last_trade_price,
            final(self).bids@.len() == 0,
            final(self).asks@.len() == 0,
            final(self).total_volume == 0u128,
            old(self).wf() ==> final(self).wf(),
    {
        self.bids.clear();
        self.asks.clear();
        self.total_volume = 0;
    }
}

} // verus!
