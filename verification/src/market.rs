//! The matching engine: owns the order books, the participant registry,
//! the active-order index, the trade log and the aggregate statistics, and
//! orchestrates the simulation tick.

use vstd::prelude::*;

use crate::broker::Broker;
use crate::clock;
use crate::fixed::{BALANCE_LIMIT, PRICE_LIMIT, clamp_money, money_add, apply_ppm};
use crate::orderbook::{
    add_total, clamp_total, limit_order_post, market_order_post, order_valid, trades_of,
    Order, OrderBook, OrderSide, OrderType, TOTAL_VOLUME_LIMIT,
};
use crate::participants::{sum_pnl, Participant, ParticipantType};
use crate::rng;
use crate::text::str_eq;

verus! {

/// How a trade was initiated.
#[derive(Clone, Copy, Debug, PartialEq, Eq, Structural)]
pub enum TradeType {
    Market,
    Limit,
    Stop,
}

/// An executed trade. Immutable once created.
#[derive(Clone, Debug)]
pub struct Trade {
    pub id: u128,
    pub symbol: String,
    pub buyer_id: String,
    pub seller_id: String,
    /// Micro-units of quote currency per base unit; always positive.
    pub price: u64,
    /// Base-currency units; always positive.
    pub volume: u64,
    /// Unix seconds.
    pub timestamp: i64,
    pub trade_type: TradeType,
}

/// Aggregate statistics over the whole venue.
#[derive(Clone, Copy, Debug)]
pub struct MarketStats {
    pub total_volume: u128,
    pub total_trades: u64,
    pub active_participants: u64,
    pub liquidity_index: u128,
    /// Standard deviation of recent trade prices, micro-units (rounded down).
    pub volatility: u64,
}

/// Why an order was not placed.
#[derive(Clone, Copy, Debug, PartialEq, Eq, Structural)]
pub enum MarketError {
    /// No order book exists for the requested symbol.
    UnknownSymbol,
    /// The amount lies outside the broker's trade-size bounds.
    AmountOutOfBounds,
    /// The broker's stochastic admission check refused the order.
    BrokerRejected,
    /// The broker pipeline produced a non-positive price.
    InvalidPrice,
}

/// The central venue state.
#[derive(Clone, Debug)]
pub struct MarketEngine {
    /// One order book per symbol; symbols are unique.
    pub symbols: Vec<OrderBook>,
    /// The participant registry; ids are unique.
    pub participants: Vec<Participant>,
    /// Orders accepted by `place_order`.
    pub active_orders: Vec<Order>,
    /// Every executed trade, append-only.
    pub trade_history: Vec<Trade>,
    pub market_stats: MarketStats,
}

/// No two books carry the same symbol.
pub open spec fn book_symbols_unique(books: Seq<OrderBook>) -> bool {
    forall|i: int, j: int|
        0 <= i < j < books.len() ==> (#[trigger] books[i]).symbol@ != (#[trigger] books[j]).symbol@
}

/// No two participants carry the same id.
pub open spec fn participant_ids_unique(ps: Seq<Participant>) -> bool {
    forall|i: int, j: int|
        0 <= i < j < ps.len() ==> (#[trigger] ps[i]).id@ != (#[trigger] ps[j]).id@
}

/// The participant `p` with its balance replaced and its equity
/// recomputed.
pub open spec fn with_money(p: Participant, balance: i128) -> Participant {
    Participant { balance, equity: clamp_money(balance + sum_pnl(p.positions@)), ..p }
}

/// `post` is `pre` with `delta` (clamped) applied to the balance of the
/// participant with the given id, if one exists; untouched otherwise.
pub open spec fn money_applied(
    pre: Seq<Participant>,
    post: Seq<Participant>,
    id: Seq<char>,
    delta: int,
) -> bool {
    if exists|k: int| 0 <= k < pre.len() && (#[trigger] pre[k]).id@ == id {
        exists|k: int|
            {
                &&& 0 <= k < pre.len()
                &&& (#[trigger] pre[k]).id@ == id
                &&& post == pre.update(k, with_money(pre[k], clamp_money(pre[k].balance + delta)))
            }
    } else {
        post == pre
    }
}

/// Only the money fields (balance and equity) of the accounts changed.
pub open spec fn same_accounts(pre: Seq<Participant>, post: Seq<Participant>) -> bool {
    &&& post.len() == pre.len()
    &&& forall|k: int|
        0 <= k < pre.len() ==> #[trigger] post[k] == with_money(pre[k], post[k].balance)
}

/// A saturating increment for event counters.
pub open spec fn sat_inc(x: u64) -> u64 {
    if x == u64::MAX {
        x
    } else {
        (x + 1) as u64
    }
}

impl MarketEngine {
    /// The engine invariant: well-formed books with unique symbols,
    /// well-formed accounts with unique ids, bounded statistics.
    pub open spec fn wf(self) -> bool {
        &&& forall|i: int| 0 <= i < self.symbols@.len() ==> (#[trigger] self.symbols@[i]).wf()
        &&& book_symbols_unique(self.symbols@)
        &&& forall|i: int|
            0 <= i < self.participants@.len() ==> (#[trigger] self.participants@[i]).wf()
        &&& participant_ids_unique(self.participants@)
        &&& forall|i: int|
            0 <= i < self.trade_history@.len() ==> (#[trigger] self.trade_history@[i]).price
                <= PRICE_LIMIT && self.trade_history@[i].volume <= 1_000_000_000_000
        &&& self.market_stats.total_volume <= TOTAL_VOLUME_LIMIT
    }

    /// An empty venue.
    pub fn new() -> (r: MarketEngine)
        ensures
            r.wf(),
            r.symbols@.len() == 0,
            r.participants@.len() == 0,
            r.active_orders@.len() == 0,
            r.trade_history@.len() == 0,
            r.market_stats.total_volume == 0,
            r.market_stats.total_trades == 0,
            r.market_stats.active_participants == 0,
    {
        MarketEngine {
            symbols: Vec::new(),
            participants: Vec::new(),
            active_orders: Vec::new(),
            trade_history: Vec::new(),
            market_stats: MarketStats {
                total_volume: 0,
                total_trades: 0,
                active_participants: 0,
                liquidity_index: 0,
                volatility: 0,
            },
        }
    }

    /// The index of the book for `symbol`, if one exists.
    fn find_book(&self, symbol: &str) -> (r: Option<usize>)
        ensures
            match r {
                Some(i) => i < self.symbols@.len() && self.symbols@[i as int].symbol@ == symbol@,
                None => forall|i: int|
                    0 <= i < self.symbols@.len() ==> (#[trigger] self.symbols@[i]).symbol@
                        != symbol@,
            },
    {
        let mut i: usize = 0;
        while i < self.symbols.len()
            invariant
                i <= self.symbols@.len(),
                forall|k: int| 0 <= k < i ==> (#[trigger] self.symbols@[k]).symbol@ != symbol@,
            decreases self.symbols@.len() - i,
        {
            if str_eq(self.symbols[i].symbol.as_str(), symbol) {
                return Some(i);
            }
            i += 1;
        }
        None
    }

    /// The index of the participant with `id`, if one exists.
    fn find_participant(&self, id: &str) -> (r: Option<usize>)
        ensures
            match r {
                Some(i) => i < self.participants@.len() && self.participants@[i as int].id@ == id@,
                None => forall|i: int|
                    0 <= i < self.participants@.len() ==> (#[trigger] self.participants@[i]).id@
                        != id@,
            },
    {
        let mut i: usize = 0;
        while i < self.participants.len()
            invariant
                i <= self.participants@.len(),
                forall|k: int| 0 <= k < i ==> (#[trigger] self.participants@[k]).id@ != id@,
            decreases self.participants@.len() - i,
        {
            if str_eq(self.participants[i].id.as_str(), id) {
                return Some(i);
            }
            i += 1;
        }
        None
    }

    /// Register an order book for `symbol`: a fresh empty book with the
    /// seeded last trade price and no traded volume. An existing book for
    /// the same symbol is replaced by that fresh book; every other book is
    /// untouched.
    pub fn add_symbol(&mut self, symbol: String)
        requires
            old(self).wf(),
        ensures
            final(self).wf(),
            final(self).participants == old(self).participants,
            final(self).active_orders == old(self).active_orders,
            final(self).trade_history == old(self).trade_history,
            final(self).market_stats == old(self).market_stats,
            exists|i: int|
                {
                    &&& 0 <= i < final(self).symbols@.len()
                    &&& (#[trigger] final(self).symbols@[i]).symbol == symbol
                    &&& final(self).symbols@[i].bids@.len() == 0
                    &&& final(self).symbols@[i].asks@.len() == 0
                    &&& final(self).symbols@[i].last_trade_price == 1_000_000
                    &&& final(self).symbols@[i].total_volume == 0
                },
            (exists|j: int|
                0 <= j < old(self).symbols@.len() && (#[trigger] old(self).symbols@[j]).symbol@
                    == symbol@) ==> final(self).symbols@.len() == old(self).symbols@.len() && (
            exists|j: int|
                {
                    &&& 0 <= j < old(self).symbols@.len()
                    &&& (#[trigger] old(self).symbols@[j]).symbol@ == symbol@
                    &&& forall|k: int|
                        0 <= k < final(self).symbols@.len() && k != j
                            ==> #[trigger] final(self).symbols@[k] == old(self).symbols@[k]
                }),
            (forall|j: int|
                0 <= j < old(self).symbols@.len() ==> (#[trigger] old(self).symbols@[j]).symbol@
                    != symbol@) ==> final(self).symbols@.len() == old(self).symbols@.len() + 1
                && (forall|k: int|
                0 <= k < old(self).symbols@.len() ==> #[trigger] final(self).symbols@[k] == old(
                    self,
                ).symbols@[k]),
    {
        let found = self.find_book(symbol.as_str());
        let book = OrderBook::new(symbol);
        let ghost b = book;
        match found {
            Some(i) => {
                let ghost pre = self.symbols@;
                self.symbols.remove(i);
                self.symbols.insert(i, book);
                proof {
                    assert(self.symbols@ =~= pre.update(i as int, b));
                    assert(book_symbols_unique(self.symbols@));
                    assert((#[trigger] self.symbols@[i as int]).symbol == b.symbol);
                }
            },
            None => {
                self.symbols.push(book);
                proof {
                    let n = self.symbols@.len() - 1;
                    assert((#[trigger] self.symbols@[n]).symbol == b.symbol);
                }
            },
        }
    }

    /// Register a participant; an existing one with the same id is
    /// replaced. The active-participant count tracks the registry size.
    pub fn add_participant(&mut self, participant: Participant)
        requires
            old(self).wf(),
            participant.wf(),
        ensures
            final(self).wf(),
            final(self).symbols == old(self).symbols,
            final(self).active_orders == old(self).active_orders,
            final(self).trade_history == old(self).trade_history,
            final(self).market_stats.active_participants == final(self).participants@.len(),
            exists|i: int|
                0 <= i < final(self).participants@.len() && final(self).participants@[i]
                    == participant,
    {
        let found = self.find_participant(participant.id.as_str());
        let ghost p = participant;
        match found {
            Some(i) => {
                let ghost pre = self.participants@;
                self.participants.remove(i);
                self.participants.insert(i, participant);
                proof {
                    assert(self.participants@ =~= pre.update(i as int, p));
                    assert(participant_ids_unique(self.participants@));
                    assert(self.participants@[i as int] == p);
                }
            },
            None => {
                self.participants.push(participant);
                proof {
                    let n = self.participants@.len() - 1;
                    assert(self.participants@[n] == p);
                }
            },
        }
        self.market_stats.active_participants = self.participants.len() as u64;
    }

    /// The order book for `symbol`, if one exists. An unknown symbol is an
    /// error the caller sees as `None`.
    pub fn get_orderbook(&self, symbol: &str) -> (r: Option<&OrderBook>)
        ensures
            match r {
                Some(b) => exists|i: int|
                    0 <= i < self.symbols@.len() && *b == #[trigger] self.symbols@[i] && b.symbol@
                        == symbol@,
                None => forall|i: int|
                    0 <= i < self.symbols@.len() ==> (#[trigger] self.symbols@[i]).symbol@
                        != symbol@,
            },
    {
        match self.find_book(symbol) {
            Some(i) => Some(&self.symbols[i]),
            None => None,
        }
    }

    /// Apply `delta` to the balance of the participant with `id` (if
    /// registered), clamping to the representable band and refreshing the
    /// account's equity.
    fn credit_participant(&mut self, id: &str, delta: i128)
        requires
            old(self).wf(),
            -BALANCE_LIMIT <= delta <= BALANCE_LIMIT,
        ensures
            final(self).wf(),
            final(self).symbols == old(self).symbols,
            final(self).active_orders == old(self).active_orders,
            final(self).trade_history == old(self).trade_history,
            final(self).market_stats == old(self).market_stats,
            money_applied(old(self).participants@, final(self).participants@, id@, delta as int),
            same_accounts(old(self).participants@, final(self).participants@),
    {
        let found = self.find_participant(id);
        match found {
            Some(i) => {
                let ghost pre = self.participants@;
                let mut p = self.participants.remove(i);
                p.balance = money_add(p.balance, delta);
                p.update_equity();
                self.participants.insert(i, p);
                proof {
                    assert(self.participants@ =~= pre.update(i as int, self.participants@[i as int]));
                    assert(self.participants@[i as int] == with_money(
                        pre[i as int],
                        clamp_money(pre[i as int].balance + delta),
                    ));
                    assert(participant_ids_unique(self.participants@));
                    assert(same_accounts(pre, self.participants@)) by {
                        assert forall|k: int| 0 <= k < pre.len() implies #[trigger] self.participants@[k]
                            == with_money(pre[k], self.participants@[k].balance) by {
                            if k != i {
                                assert(self.participants@[k] == pre[k]);
                                assert(pre[k].wf());
                            }
                        }
                    }
                }
            },
            None => {
                proof {
                    assert forall|k: int| 0 <= k < self.participants@.len() implies
                        #[trigger] self.participants@[k] == with_money(
                        self.participants@[k],
                        self.participants@[k].balance,
                    ) by {
                        assert(self.participants@[k].wf());
                    }
                }
            },
        }
    }

    /// Record an executed trade: append it to the log, update the
    /// aggregate counters, debit the buyer and credit the seller by the
    /// trade's value.
    fn execute_trade(&mut self, trade: &Trade)
        requires
            old(self).wf(),
            trade.price <= PRICE_LIMIT,
            trade.volume <= 1_000_000_000_000,
        ensures
            final(self).wf(),
            final(self).symbols == old(self).symbols,
            final(self).active_orders == old(self).active_orders,
            final(self).trade_history@ == old(self).trade_history@.push(*trade),
            final(self).market_stats.total_trades == sat_inc(old(self).market_stats.total_trades),
            final(self).market_stats.total_volume == clamp_total(
                old(self).market_stats.total_volume + trade.volume,
            ),
            final(self).market_stats.active_participants == old(
                self,
            ).market_stats.active_participants,
            final(self).market_stats.liquidity_index == old(self).market_stats.liquidity_index,
            final(self).market_stats.volatility == old(self).market_stats.volatility,
            same_accounts(old(self).participants@, final(self).participants@),
            exists|mid: Seq<Participant>|
                #[trigger] money_applied(
                    old(self).participants@,
                    mid,
                    trade.buyer_id@,
                    -((trade.price * trade.volume) as int),
                ) && money_applied(
                    mid,
                    final(self).participants@,
                    trade.seller_id@,
                    (trade.price * trade.volume) as int,
                ),
    {
        let stored = dup_trade(trade);
        self.trade_history.push(stored);
        if self.market_stats.total_trades < u64::MAX {
            self.market_stats.total_trades = self.market_stats.total_trades + 1;
        }
        self.market_stats.total_volume = add_total(
            self.market_stats.total_volume,
            trade.volume,
        );
        proof {
            assert(trade.price * trade.volume <= 1_000_000_000_000u64 * 1_000_000_000_000u64)
                by (nonlinear_arith)
                requires
                    0 <= trade.price <= 1_000_000_000_000u64,
                    0 <= trade.volume <= 1_000_000_000_000u64,
            ;
        }
        let cost: i128 = (trade.price as i128) * (trade.volume as i128);
        self.credit_participant(trade.buyer_id.as_str(), -cost);
        let ghost mid = self.participants@;
        self.credit_participant(trade.seller_id.as_str(), cost);
        proof {
            assert(money_applied(
                old(self).participants@,
                mid,
                trade.buyer_id@,
                -((trade.price * trade.volume) as int),
            ));
        }
    }
}

/// The price a client market order starts from at a given book: the touch
/// on the order's side (1.0 on an empty side), moved by half the broker's
/// spread against the client, clamped to the price band.
pub open spec fn spec_order_price(book: OrderBook, side: OrderSide, broker: Broker) -> u64 {
    let base: int = if side == OrderSide::Buy {
        if book.asks@.len() > 0 {
            book.asks@[0].price as int
        } else {
            1_000_000
        }
    } else {
        if book.bids@.len() > 0 {
            book.bids@[0].price as int
        } else {
            1_000_000
        }
    };
    if side == OrderSide::Buy {
        if base + broker.spread / 2 > PRICE_LIMIT {
            PRICE_LIMIT
        } else {
            (base + broker.spread / 2) as u64
        }
    } else {
        if base >= broker.spread / 2 {
            (base - broker.spread / 2) as u64
        } else {
            0u64
        }
    }
}

/// The accounts after settling a list of trades in order: each trade moves
/// its value (price times volume, clamped into the money band) from the
/// buyer's balance to the seller's, skipping unregistered parties.
pub open spec fn trades_settled(
    pre: Seq<Participant>,
    post: Seq<Participant>,
    ts: Seq<Trade>,
) -> bool
    decreases ts.len(),
{
    if ts.len() == 0 {
        post == pre
    } else {
        exists|mid1: Seq<Participant>, mid2: Seq<Participant>|
            #![trigger money_applied(pre, mid1, ts[0].buyer_id@, -((ts[0].price * ts[0].volume) as int)), money_applied(mid1, mid2, ts[0].seller_id@, (ts[0].price * ts[0].volume) as int)]
            {
                &&& money_applied(pre, mid1, ts[0].buyer_id@, -((ts[0].price * ts[0].volume) as int))
                &&& money_applied(mid1, mid2, ts[0].seller_id@, (ts[0].price * ts[0].volume) as int)
                &&& trades_settled(mid2, post, ts.drop_first())
            }
    }
}

/// Settlement extends one trade at a time.
proof fn lemma_trades_settled_snoc(
    pre: Seq<Participant>,
    cur: Seq<Participant>,
    mid1: Seq<Participant>,
    post: Seq<Participant>,
    ts: Seq<Trade>,
    t: Trade,
)
    requires
        trades_settled(pre, cur, ts),
        money_applied(cur, mid1, t.buyer_id@, -((t.price * t.volume) as int)),
        money_applied(mid1, post, t.seller_id@, (t.price * t.volume) as int),
    ensures
        trades_settled(pre, post, ts.push(t)),
    decreases ts.len(),
{
    if ts.len() == 0 {
        assert(cur == pre);
        assert(ts.push(t)[0] == t);
        assert(ts.push(t).drop_first() =~= Seq::<Trade>::empty());
        assert(trades_settled(post, post, ts.push(t).drop_first()));
    } else {
        let (m1, m2) = choose|m1: Seq<Participant>, m2: Seq<Participant>|
            #![trigger money_applied(pre, m1, ts[0].buyer_id@, -((ts[0].price * ts[0].volume) as int)), money_applied(m1, m2, ts[0].seller_id@, (ts[0].price * ts[0].volume) as int)]
            {
                &&& money_applied(pre, m1, ts[0].buyer_id@, -((ts[0].price * ts[0].volume) as int))
                &&& money_applied(m1, m2, ts[0].seller_id@, (ts[0].price * ts[0].volume) as int)
                &&& trades_settled(m2, cur, ts.drop_first())
            };
        lemma_trades_settled_snoc(m2, cur, mid1, post, ts.drop_first(), t);
        assert(ts.push(t)[0] == ts[0]);
        assert(ts.push(t).drop_first() =~= ts.drop_first().push(t));
    }
}

/// What a successful order placement did: the order recorded under the
/// returned id — rewritten by the broker pipeline from the touch-derived
/// price, with the requested side, amount and symbol, placed by the client
/// account — was matched against the book at index `i` as a market order;
/// its trades were appended to the log and settled into the parties'
/// balances, and it was recorded in the active-order index.
pub open spec fn placed_ok(
    pre: MarketEngine,
    post: MarketEngine,
    sym: Seq<char>,
    side: OrderSide,
    amount: u64,
    broker: Broker,
    id: u128,
) -> bool {
    exists|i: int, o: Order, tr: Option<Vec<Trade>>, sd: Option<u64>, rd: Option<i64>|
        #![trigger market_order_post(pre.symbols@[i], post.symbols@[i], o, tr), crate::broker::spec_pipeline_price(broker, spec_order_price(pre.symbols@[i], side, broker), side, sd, rd)]
        {
            &&& 0 <= i < pre.symbols@.len()
            &&& pre.symbols@[i].symbol@ == sym
            &&& o.symbol@ == sym
            &&& o.side == side
            &&& o.amount == amount
            &&& o.id == id
            &&& o.participant_id@ == "user"@
            &&& o.order_type == OrderType::Market
            &&& order_valid(o)
            &&& o.price == crate::broker::spec_pipeline_price(
                broker,
                spec_order_price(pre.symbols@[i], side, broker),
                side,
                sd,
                rd,
            )
            &&& (sd matches Some(d) ==> d < broker.slippage_factor)
            &&& (rd matches Some(u) ==> -500 <= u < 500)
            &&& market_order_post(pre.symbols@[i], post.symbols@[i], o, tr)
            &&& post.symbols@.len() == pre.symbols@.len()
            &&& (forall|k: int| 0 <= k < pre.symbols@.len() && k != i ==> post.symbols@[k] == pre.symbols@[k])
            &&& post.trade_history@ == pre.trade_history@ + trades_of(tr)
            &&& post.active_orders@ == pre.active_orders@.push(o)
            &&& same_accounts(pre.participants@, post.participants@)
            &&& trades_settled(pre.participants@, post.participants@, trades_of(tr))
        }
}

impl MarketEngine {
    /// The price a client market order starts from: the touch on the
    /// order's side (or 1.0 on an empty side), moved by half the broker's
    /// spread against the client.
    fn calculate_order_price(&self, book_index: usize, side: OrderSide, broker: &Broker) -> (r:
        u64)
        requires
            self.wf(),
            broker.wf(),
            book_index < self.symbols@.len(),
        ensures
            r <= PRICE_LIMIT,
            r == spec_order_price(self.symbols@[book_index as int], side, *broker),
    {
        let book = &self.symbols[book_index];
        let half: u64 = broker.spread / 2;
        match side {
            OrderSide::Buy => {
                let base: u64 = match book.get_best_ask() {
                    Some(p) => p,
                    None => 1_000_000,
                };
                if base + half > PRICE_LIMIT {
                    PRICE_LIMIT
                } else {
                    base + half
                }
            },
            OrderSide::Sell => {
                let base: u64 = match book.get_best_bid() {
                    Some(p) => p,
                    None => 1_000_000,
                };
                if base >= half {
                    base - half
                } else {
                    0
                }
            },
        }
    }

    /// Place a client market order through a broker: derive a price from
    /// the book's touch, rewrite it through the broker pipeline, match it,
    /// record its trades, and index the order. Errors: unknown symbol,
    /// amount outside the broker's bounds, stochastic broker rejection,
    /// or a non-positive pipeline price; an error leaves the venue
    /// untouched.
    pub fn place_order(&mut self, symbol: &str, side: OrderSide, amount: u64, broker: Broker)
        -> (r: Result<u128, MarketError>)
        requires
            old(self).wf(),
            broker.wf(),
        ensures
            final(self).wf(),
            r is Err ==> *final(self) == *old(self),
            (r == Err::<u128, MarketError>(MarketError::UnknownSymbol)) <==> (forall|i: int|
                0 <= i < old(self).symbols@.len() ==> (#[trigger] old(self).symbols@[i]).symbol@
                    != symbol@),
            (exists|i: int|
                0 <= i < old(self).symbols@.len() && (#[trigger] old(self).symbols@[i]).symbol@
                    == symbol@) && !(broker.min_trade_size <= amount <= broker.max_trade_size)
                ==> r == Err::<u128, MarketError>(MarketError::AmountOutOfBounds),
            r is Ok ==> broker.min_trade_size <= amount <= broker.max_trade_size,
            r matches Ok(id) ==> placed_ok(
                *old(self),
                *final(self),
                symbol@,
                side,
                amount,
                broker,
                id,
            ),
            (exists|i: int|
                0 <= i < old(self).symbols@.len() && (#[trigger] old(self).symbols@[i]).symbol@
                    == symbol@) && broker.min_trade_size <= amount <= broker.max_trade_size
                && broker.broker_type != crate::broker::BrokerType::MarketMaker && side
                == OrderSide::Buy ==> r is Ok,
            r == Err::<u128, MarketError>(MarketError::BrokerRejected) ==> broker.broker_type
                == crate::broker::BrokerType::MarketMaker,
            r == Err::<u128, MarketError>(MarketError::InvalidPrice) ==> side == OrderSide::Sell,
            r == Err::<u128, MarketError>(MarketError::AmountOutOfBounds) ==> !(
            broker.min_trade_size <= amount <= broker.max_trade_size),
    {
        let book_index = match self.find_book(symbol) {
            Some(i) => i,
            None => {
                return Err(MarketError::UnknownSymbol);
            },
        };
        if amount < broker.min_trade_size || amount > broker.max_trade_size {
            return Err(MarketError::AmountOutOfBounds);
        }
        match broker.broker_type {
            crate::broker::BrokerType::MarketMaker => {
                if rng::gen_bool_ppm(50_000) {
                    return Err(MarketError::BrokerRejected);
                }
            },
            _ => {},
        }
        let order_id = rng::fresh_id();
        let price = self.calculate_order_price(book_index, side, &broker);
        let order = Order {
            id: order_id,
            symbol: symbol.to_owned(),
            side,
            amount,
            price,
            timestamp: clock::now_seconds(),
            participant_id: "user".to_owned(),
            order_type: OrderType::Market,
        };
        let ghost base_price = order.price;
        let adjusted = broker.process_order(order);
        let ghost draws = choose|sd: Option<u64>, rd: Option<i64>|
            {
                &&& adjusted == crate::broker::with_price(
                    order,
                    #[trigger] crate::broker::spec_pipeline_price(
                        broker,
                        order.price,
                        order.side,
                        sd,
                        rd,
                    ),
                )
                &&& (sd matches Some(d) ==> d < broker.slippage_factor)
                &&& (rd matches Some(u) ==> -500 <= u < 500)
            };
        proof {
            if side == OrderSide::Buy {
                assert(base_price >= 1);
                crate::broker::lemma_pipeline_buy_positive(broker, base_price, draws.0, draws.1);
                assert(adjusted.price >= 1);
            }
        }
        if adjusted.price == 0 {
            return Err(MarketError::InvalidPrice);
        }
        proof {
            assert(order_valid(adjusted));
        }
        let ghost pre = *self;
        let ghost adj = adjusted;
        let ghost bi = book_index as int;
        let stored = dup_order(&adjusted);
        let mut book = self.symbols.remove(book_index);
        let ghost prebook = book;
        let trades_opt = book.add_order(adjusted);
        self.symbols.insert(book_index, book);
        proof {
            assert(self.symbols@ =~= pre.symbols@.update(bi, self.symbols@[bi]));
            assert(book_symbols_unique(self.symbols@)) by {
                assert(forall|k: int|
                    0 <= k < self.symbols@.len() ==> (#[trigger] self.symbols@[k]).symbol@
                        == pre.symbols@[k].symbol@);
            }
            assert(market_order_post(pre.symbols@[bi], self.symbols@[bi], adj, trades_opt));
        }
        let ghost mid = *self;
        let mut n: usize = 0;
        match &trades_opt {
            Some(trades) => {
                while n < trades.len()
                    invariant
                        self.wf(),
                        trades_opt matches Some(v) && v@ == trades@,
                        market_order_post(pre.symbols@[bi], mid.symbols@[bi], adj, trades_opt),
                        forall|m: int|
                            0 <= m < trades@.len() ==> (#[trigger] trades@[m]).volume
                                <= 1_000_000_000_000 && trades@[m].price <= PRICE_LIMIT,
                        n <= trades@.len(),
                        self.symbols == mid.symbols,
                        self.active_orders == mid.active_orders,
                        self.trade_history@ == mid.trade_history@ + trades@.take(n as int),
                        same_accounts(mid.participants@, self.participants@),
                        trades_settled(mid.participants@, self.participants@, trades@.take(n as int)),
                    decreases trades@.len() - n,
                {
                    proof {
                        assert(trades@.take(n as int + 1) =~= trades@.take(n as int).push(
                            trades@[n as int],
                        ));
                    }
                    let ghost before = self.participants@;
                    self.execute_trade(&trades[n]);
                    proof {
                        lemma_same_accounts_trans(mid.participants@, before, self.participants@);
                        let t = trades@[n as int];
                        let m1 = choose|m: Seq<Participant>|
                            #[trigger] money_applied(
                                before,
                                m,
                                t.buyer_id@,
                                -((t.price * t.volume) as int),
                            ) && money_applied(
                                m,
                                self.participants@,
                                t.seller_id@,
                                (t.price * t.volume) as int,
                            );
                        lemma_trades_settled_snoc(
                            mid.participants@,
                            before,
                            m1,
                            self.participants@,
                            trades@.take(n as int),
                            t,
                        );
                    }
                    n += 1;
                }
                proof {
                    assert(trades@.take(trades@.len() as int) =~= trades@);
                }
            },
            None => {
                proof {
                    assert(self.trade_history@ =~= pre.trade_history@ + trades_of(trades_opt));
                    lemma_same_accounts_refl(self.participants@);
                    assert(trades_settled(
                        pre.participants@,
                        self.participants@,
                        trades_of(trades_opt),
                    ));
                }
            },
        }
        self.active_orders.push(stored);
        proof {
            assert(self.trade_history@ == pre.trade_history@ + trades_of(trades_opt));
            assert(self.active_orders@ == pre.active_orders@.push(adj));
            assert(same_accounts(pre.participants@, self.participants@));
            assert(market_order_post(pre.symbols@[bi], self.symbols@[bi], adj, trades_opt));
            assert(pre.symbols@[bi].symbol@ == symbol@);
            assert(adj.symbol@ == symbol@);
            assert(adj.participant_id@ == "user"@);
            assert(forall|k: int|
                0 <= k < pre.symbols@.len() && k != bi ==> self.symbols@[k] == pre.symbols@[k]);
            assert(base_price == spec_order_price(pre.symbols@[bi], side, broker));
            assert(adj.price == crate::broker::spec_pipeline_price(
                broker,
                spec_order_price(pre.symbols@[bi], side, broker),
                side,
                draws.0,
                draws.1,
            ));
            assert(adj.id == order_id);
            assert(trades_settled(pre.participants@, self.participants@, trades_of(trades_opt)));
            assert(placed_ok(pre, *self, symbol@, side, amount, broker, order_id));
        }
        Ok(order_id)
    }
}

impl MarketEngine {
    /// Hand an order directly to the book at `book_index` (the simulator
    /// path: no broker pipeline) and record the resulting trades.
    fn submit_order_internal(&mut self, book_index: usize, order: Order)
        requires
            old(self).wf(),
            order_valid(order),
            book_index < old(self).symbols@.len(),
        ensures
            final(self).wf(),
            final(self).active_orders == old(self).active_orders,
            final(self).symbols@.len() == old(self).symbols@.len(),
            forall|k: int|
                0 <= k < old(self).symbols@.len() && k != book_index ==> final(self).symbols@[k]
                    == old(self).symbols@[k],
            final(self).symbols@[book_index as int].symbol == old(self).symbols@[book_index
                as int].symbol,
            same_accounts(old(self).participants@, final(self).participants@),
            old(self).trade_history@.is_prefix_of(final(self).trade_history@),
            final(self).market_stats.active_participants == old(
                self,
            ).market_stats.active_participants,
            final(self).market_stats.liquidity_index == old(self).market_stats.liquidity_index,
            final(self).market_stats.volatility == old(self).market_stats.volatility,
            forall|j: int|
                old(self).trade_history@.len() <= j < final(self).trade_history@.len() ==> {
                    let t = #[trigger] final(self).trade_history@[j];
                    &&& 0 < t.volume <= order.amount
                    &&& t.symbol@ == old(self).symbols@[book_index as int].symbol@
                    &&& (order.side == OrderSide::Buy ==> t.buyer_id@ == order.participant_id@)
                    &&& (order.side == OrderSide::Sell ==> t.seller_id@ == order.participant_id@)
                },
    {
        let ghost pre = *self;
        let ghost bi = book_index as int;
        let mut book = self.symbols.remove(book_index);
        let trades_opt = book.add_order(order);
        self.symbols.insert(book_index, book);
        proof {
            assert(self.symbols@ =~= pre.symbols@.update(bi, self.symbols@[bi]));
            assert(book_symbols_unique(self.symbols@)) by {
                assert(forall|k: int|
                    0 <= k < self.symbols@.len() ==> (#[trigger] self.symbols@[k]).symbol@
                        == pre.symbols@[k].symbol@);
            }
        }
        let ghost mid = *self;
        match &trades_opt {
            Some(trades) => {
                proof {
                    lemma_trades_bounded(pre.symbols@[bi], mid.symbols@[bi], order, trades_opt);
                }
                let mut n: usize = 0;
                while n < trades.len()
                    invariant
                        self.wf(),
                        n <= trades@.len(),
                        forall|m: int|
                            0 <= m < trades@.len() ==> (#[trigger] trades@[m]).volume
                                <= 1_000_000_000_000 && trades@[m].price <= PRICE_LIMIT,
                        self.symbols == mid.symbols,
                        self.active_orders == mid.active_orders,
                        self.trade_history@ == mid.trade_history@ + trades@.take(n as int),
                        same_accounts(mid.participants@, self.participants@),
                        self.market_stats.active_participants
                            == mid.market_stats.active_participants,
                        self.market_stats.liquidity_index == mid.market_stats.liquidity_index,
                        self.market_stats.volatility == mid.market_stats.volatility,
                    decreases trades@.len() - n,
                {
                    proof {
                        assert(trades@.take(n as int + 1) =~= trades@.take(n as int).push(
                            trades@[n as int],
                        ));
                    }
                    let ghost before = self.participants@;
                    self.execute_trade(&trades[n]);
                    proof {
                        lemma_same_accounts_trans(mid.participants@, before, self.participants@);
                    }
                    n += 1;
                }
                proof {
                    assert(mid.trade_history@.is_prefix_of(self.trade_history@)) by {
                        assert(self.trade_history@.take(mid.trade_history@.len() as int)
                            =~= mid.trade_history@);
                    }
                    assert(trades@.take(trades@.len() as int) =~= trades@);
                    assert forall|j: int|
                        pre.trade_history@.len() <= j < self.trade_history@.len() implies {
                        let t = #[trigger] self.trade_history@[j];
                        &&& 0 < t.volume <= order.amount
                        &&& t.symbol@ == pre.symbols@[bi].symbol@
                        &&& (order.side == OrderSide::Buy ==> t.buyer_id@ == order.participant_id@)
                        &&& (order.side == OrderSide::Sell ==> t.seller_id@
                            == order.participant_id@)
                    } by {
                        assert(self.trade_history@[j] == trades@[j - pre.trade_history@.len()]);
                        assert(trades_of(trades_opt)[j - pre.trade_history@.len()]
                            == trades@[j - pre.trade_history@.len()]);
                    }
                }
            },
            None => {
                proof {
                    lemma_same_accounts_refl(self.participants@);
                    assert(self.trade_history@.take(self.trade_history@.len() as int)
                        =~= self.trade_history@);
                }
            },
        }
    }
}

impl MarketEngine {
    /// A uniformly drawn symbol of the venue; the default symbol when none
    /// is registered.
    fn get_random_symbol(&self) -> (r: String)
        ensures
            (exists|i: int|
                0 <= i < self.symbols@.len() && r@ == (#[trigger] self.symbols@[i]).symbol@) || (
            self.symbols@.len() == 0 && r@ == "EURUSD"@),
    {
        if self.symbols.len() == 0 {
            "EURUSD".to_owned()
        } else {
            let i = rng::gen_range_u64(0, self.symbols.len() as u64) as usize;
            self.symbols[i].symbol.clone()
        }
    }

    /// The price a simulated participant quotes at the book with the given
    /// index: the touch on its side (1.0 on an empty side) moved by a
    /// random relative amount within ±0.1 %.
    fn get_market_price_at(&self, book_index: usize, side: OrderSide) -> (r: u64)
        requires
            self.wf(),
            book_index < self.symbols@.len(),
        ensures
            1 <= r <= PRICE_LIMIT,
    {
        let book = &self.symbols[book_index];
        let base: u64 = match side {
            OrderSide::Buy => {
                match book.get_best_ask() {
                    Some(p) => p,
                    None => 1_000_000,
                }
            },
            OrderSide::Sell => {
                match book.get_best_bid() {
                    Some(p) => p,
                    None => 1_000_000,
                }
            },
        };
        let draw = rng::gen_range_i64(-1000, 1000);
        apply_ppm(base, draw)
    }

    /// One simulated order from the participant at `pidx`, aimed at a
    /// random book: banks quote resting limit orders, everyone else sends
    /// market orders.
    fn simulate_one(&mut self, pidx: usize, volume: u64, order_type: OrderType)
        requires
            old(self).wf(),
            pidx < old(self).participants@.len(),
            0 < volume <= 1_000_000_000_000,
        ensures
            final(self).wf(),
            final(self).active_orders == old(self).active_orders,
            final(self).symbols@.len() == old(self).symbols@.len(),
            forall|k: int|
                0 <= k < old(self).symbols@.len() ==> (#[trigger] final(self).symbols@[k]).symbol
                    == old(self).symbols@[k].symbol,
            final(self).participants@.len() == old(self).participants@.len(),
            forall|k: int|
                0 <= k < old(self).participants@.len()
                    ==> (#[trigger] final(self).participants@[k]).id
                    == old(self).participants@[k].id,
            old(self).trade_history@.is_prefix_of(final(self).trade_history@),
            final(self).market_stats.active_participants == old(
                self,
            ).market_stats.active_participants,
            final(self).market_stats.liquidity_index == old(self).market_stats.liquidity_index,
            final(self).market_stats.volatility == old(self).market_stats.volatility,
            forall|j: int|
                old(self).trade_history@.len() <= j < final(self).trade_history@.len() ==> {
                    let t = #[trigger] final(self).trade_history@[j];
                    &&& 0 < t.volume <= volume
                    &&& (exists|si: int|
                        0 <= si < old(self).symbols@.len() && t.symbol@ == (
                        #[trigger] old(self).symbols@[si]).symbol@)
                    &&& (t.buyer_id@ == old(self).participants@[pidx as int].id@ || t.seller_id@
                        == old(self).participants@[pidx as int].id@)
                },
    {
        let ghost pre = *self;
        if self.symbols.len() == 0 {
            proof {
                assert(pre.trade_history@.take(pre.trade_history@.len() as int)
                    =~= pre.trade_history@);
            }
            return ;
        }
        let si = rng::gen_range_u64(0, self.symbols.len() as u64) as usize;
        let side = if rng::gen_bool_ppm(500_000) {
            OrderSide::Buy
        } else {
            OrderSide::Sell
        };
        let price = self.get_market_price_at(si, side);
        let order = Order {
            id: rng::fresh_id(),
            symbol: self.symbols[si].symbol.clone(),
            side,
            amount: volume,
            price,
            timestamp: clock::now_seconds(),
            participant_id: self.participants[pidx].id.clone(),
            order_type,
        };
        self.submit_order_internal(si, order);
        proof {
            assert forall|k: int| 0 <= k < pre.participants@.len() implies (#[trigger] self.participants@[k]).id
                == pre.participants@[k].id by {
                assert(self.participants@[k] == with_money(
                    pre.participants@[k],
                    self.participants@[k].balance,
                ));
            }
        }
    }

    /// One simulation pass over the banks: up to fifty banks each get a
    /// 10 % chance to quote a large resting limit order near the touch.
    pub fn simulate_bank_activity(&mut self)
        requires
            old(self).wf(),
        ensures
            final(self).wf(),
            final(self).active_orders == old(self).active_orders,
            final(self).symbols@.len() == old(self).symbols@.len(),
            old(self).trade_history@.is_prefix_of(final(self).trade_history@),
            final(self).market_stats.active_participants == old(
                self,
            ).market_stats.active_participants,
            final(self).market_stats.liquidity_index == old(self).market_stats.liquidity_index,
            final(self).market_stats.volatility == old(self).market_stats.volatility,
            forall|j: int|
                old(self).trade_history@.len() <= j < final(self).trade_history@.len()
                    ==> 0 < (#[trigger] final(self).trade_history@[j]).volume < 1_000_000,
    {
        let ghost pre = *self;
        let mut processed: u64 = 0;
        let mut idx: usize = 0;
        proof {
            assert(pre.trade_history@.take(pre.trade_history@.len() as int)
                =~= pre.trade_history@);
        }
        while idx < self.participants.len() && processed < 50
            invariant
                self.wf(),
                pre == *old(self),
                self.active_orders == pre.active_orders,
                self.symbols@.len() == pre.symbols@.len(),
                idx <= self.participants@.len(),
                pre.trade_history@.is_prefix_of(self.trade_history@),
                self.market_stats.active_participants == pre.market_stats.active_participants,
                self.market_stats.liquidity_index == pre.market_stats.liquidity_index,
                self.market_stats.volatility == pre.market_stats.volatility,
                forall|j: int|
                    pre.trade_history@.len() <= j < self.trade_history@.len() ==> 0 < (
                    #[trigger] self.trade_history@[j]).volume < 1_000_000,
            decreases self.participants@.len() - idx,
        {
            if self.participants[idx].participant_type == ParticipantType::Bank {
                processed += 1;
                if rng::gen_bool_ppm(100_000) {
                    let ghost step = *self;
                    let volume = rng::gen_range_u64(100_000, 1_000_000);
                    self.simulate_one(idx, volume, OrderType::Limit);
                    proof {
                        lemma_prefix_trans(
                            pre.trade_history@,
                            step.trade_history@,
                            self.trade_history@,
                        );
                        assert(forall|j: int|
                            step.trade_history@.len() <= j < self.trade_history@.len() ==> 0 < (
                            #[trigger] self.trade_history@[j]).volume <= volume);
                        assert(forall|j: int|
                            pre.trade_history@.len() <= j < step.trade_history@.len()
                                ==> #[trigger] self.trade_history@[j] == step.trade_history@[j]);
                    }
                }
            }
            idx += 1;
        }
    }

    /// One simulation pass over the traders: up to a thousand traders each
    /// get a 1 % chance to send a market order near the touch.
    pub fn simulate_trader_activity(&mut self)
        requires
            old(self).wf(),
        ensures
            final(self).wf(),
            final(self).active_orders == old(self).active_orders,
            final(self).symbols@.len() == old(self).symbols@.len(),
            old(self).trade_history@.is_prefix_of(final(self).trade_history@),
            final(self).market_stats.active_participants == old(
                self,
            ).market_stats.active_participants,
            final(self).market_stats.liquidity_index == old(self).market_stats.liquidity_index,
            final(self).market_stats.volatility == old(self).market_stats.volatility,
            forall|j: int|
                old(self).trade_history@.len() <= j < final(self).trade_history@.len()
                    ==> 0 < (#[trigger] final(self).trade_history@[j]).volume < 50_000,
    {
        let ghost pre = *self;
        let mut processed: u64 = 0;
        let mut idx: usize = 0;
        proof {
            assert(pre.trade_history@.take(pre.trade_history@.len() as int)
                =~= pre.trade_history@);
        }
        while idx < self.participants.len() && processed < 1000
            invariant
                self.wf(),
                pre == *old(self),
                self.active_orders == pre.active_orders,
                self.symbols@.len() == pre.symbols@.len(),
                idx <= self.participants@.len(),
                pre.trade_history@.is_prefix_of(self.trade_history@),
                self.market_stats.active_participants == pre.market_stats.active_participants,
                self.market_stats.liquidity_index == pre.market_stats.liquidity_index,
                self.market_stats.volatility == pre.market_stats.volatility,
                forall|j: int|
                    pre.trade_history@.len() <= j < self.trade_history@.len() ==> 0 < (
                    #[trigger] self.trade_history@[j]).volume < 50_000,
            decreases self.participants@.len() - idx,
        {
            if self.participants[idx].participant_type == ParticipantType::Trader {
                processed += 1;
                if rng::gen_bool_ppm(10_000) {
                    let ghost step = *self;
                    let volume = rng::gen_range_u64(1_000, 50_000);
                    self.simulate_one(idx, volume, OrderType::Market);
                    proof {
                        lemma_prefix_trans(
                            pre.trade_history@,
                            step.trade_history@,
                            self.trade_history@,
                        );
                        assert(forall|j: int|
                            step.trade_history@.len() <= j < self.trade_history@.len() ==> 0 < (
                            #[trigger] self.trade_history@[j]).volume <= volume);
                        assert(forall|j: int|
                            pre.trade_history@.len() <= j < step.trade_history@.len()
                                ==> #[trigger] self.trade_history@[j] == step.trade_history@[j]);
                    }
                }
            }
            idx += 1;
        }
    }

    /// One simulation tick: a bank pass, a trader pass, then a statistics
    /// refresh. Whatever the passes drew, the refreshed statistics are owed:
    /// the liquidity index is the mean traded volume over the final books,
    /// and the volatility brackets the final trade window's deviation.
    pub fn update(&mut self)
        requires
            old(self).wf(),
        ensures
            final(self).wf(),
            final(self).active_orders == old(self).active_orders,
            final(self).symbols@.len() == old(self).symbols@.len(),
            old(self).trade_history@.is_prefix_of(final(self).trade_history@),
            final(self).market_stats.active_participants == old(
                self,
            ).market_stats.active_participants,
            final(self).symbols@.len() > 0 ==> final(self).market_stats.liquidity_index
                == clamp_total(sum_book_volumes(final(self).symbols@)) / (
            final(self).symbols@.len() as u128),
            final(self).symbols@.len() == 0 ==> final(self).market_stats.liquidity_index == old(
                self,
            ).market_stats.liquidity_index,
            final(self).trade_history@.len() > 100 ==> ({
                let window = final(self).trade_history@.subrange(
                    final(self).trade_history@.len() - 100,
                    final(self).trade_history@.len() as int,
                );
                let mean = sum_prices(window) / 100;
                let variance = sum_sqdev(window, mean) / 100;
                &&& final(self).market_stats.volatility * final(self).market_stats.volatility
                    <= variance
                &&& (final(self).market_stats.volatility + 1)
                    * (final(self).market_stats.volatility + 1) > variance
            }),
            final(self).trade_history@.len() <= 100 ==> final(self).market_stats.volatility == old(
                self,
            ).market_stats.volatility,
    {
        let ghost pre = *self;
        self.simulate_bank_activity();
        let ghost mid = *self;
        self.simulate_trader_activity();
        proof {
            lemma_prefix_trans(pre.trade_history@, mid.trade_history@, self.trade_history@);
        }
        self.update_market_stats();
    }

    /// Refresh the aggregate statistics: the liquidity index is the mean
    /// traded volume per book, and the volatility is the standard
    /// deviation (rounded down) of the last hundred trade prices, once
    /// more than a hundred trades exist.
    pub fn update_market_stats(&mut self)
        requires
            old(self).wf(),
        ensures
            final(self).wf(),
            *final(self) == (MarketEngine {
                market_stats: final(self).market_stats,
                ..*old(self)
            }),
            final(self).market_stats == (MarketStats {
                liquidity_index: final(self).market_stats.liquidity_index,
                volatility: final(self).market_stats.volatility,
                ..old(self).market_stats
            }),
            old(self).symbols@.len() > 0 ==> final(self).market_stats.liquidity_index
                == clamp_total(sum_book_volumes(old(self).symbols@)) / (old(
                self,
            ).symbols@.len() as u128),
            old(self).symbols@.len() == 0 ==> final(self).market_stats.liquidity_index == old(
                self,
            ).market_stats.liquidity_index,
            old(self).trade_history@.len() > 100 ==> ({
                let window = old(self).trade_history@.subrange(
                    old(self).trade_history@.len() - 100,
                    old(self).trade_history@.len() as int,
                );
                let mean = sum_prices(window) / 100;
                let variance = sum_sqdev(window, mean) / 100;
                &&& final(self).market_stats.volatility * final(self).market_stats.volatility
                    <= variance
                &&& (final(self).market_stats.volatility + 1)
                    * (final(self).market_stats.volatility + 1) > variance
            }),
            old(self).trade_history@.len() <= 100
                ==> final(self).market_stats.volatility == old(self).market_stats.volatility,
    {
        let ghost pre = *self;
        if self.symbols.len() > 0 {
            let total = sum_volumes_of_books(&self.symbols);
            self.market_stats.liquidity_index = total / (self.symbols.len() as u128);
            proof {
                vstd::arithmetic::div_mod::lemma_div_pos_is_pos(
                    total as int,
                    pre.symbols@.len() as int,
                );
                vstd::arithmetic::div_mod::lemma_div_nonincreasing(
                    total as int,
                    pre.symbols@.len() as int,
                );
            }
        }
        if self.trade_history.len() > 100 {
            let start = self.trade_history.len() - 100;
            let ghost window = pre.trade_history@.subrange(
                start as int,
                pre.trade_history@.len() as int,
            );
            let mean = window_mean(&self.trade_history, start);
            let variance = window_variance(&self.trade_history, start, mean);
            let vol = crate::fixed::isqrt(variance);
            proof {
                assert(vol * vol <= variance);
                assert(vol <= 0xFFFF_FFFF_FFFF_FFFFu64) by (nonlinear_arith)
                    requires
                        vol * vol <= variance,
                        0 <= variance
                            <= 340_282_366_920_938_463_463_374_607_431_768_211_455u128,
                        vol >= 0,
                ;
            }
            self.market_stats.volatility = vol as u64;
        }
    }
}

impl MarketEngine {
    /// The most recent trades in `symbol`, newest first, at most `limit`.
    pub fn get_recent_trades(&self, symbol: &str, limit: usize) -> (r: Vec<Trade>)
        ensures
            r@ == recent_matches(
                self.trade_history@,
                symbol@,
                self.trade_history@.len() as int,
                limit as int,
            ),
    {
        let ghost hist = self.trade_history@;
        let ghost lim = limit as int;
        let mut r: Vec<Trade> = Vec::new();
        let mut k: usize = self.trade_history.len();
        while k > 0 && r.len() < limit
            invariant
                hist == self.trade_history@,
                lim == limit as int,
                k <= hist.len(),
                r@.len() <= limit,
                recent_matches(hist, symbol@, hist.len() as int, lim) == r@ + recent_matches(
                    hist,
                    symbol@,
                    k as int,
                    lim - r@.len(),
                ),
            decreases k,
        {
            let t = &self.trade_history[k - 1];
            if str_eq(t.symbol.as_str(), symbol) {
                let ghost r0 = r@;
                r.push(dup_trade(t));
                proof {
                    assert(hist[k as int - 1].symbol@ == symbol@);
                    assert(0 < k as int <= hist.len());
                    assert(0 < lim - r0.len());
                    assert(recent_matches(hist, symbol@, k as int, lim - r0.len()) == seq![
                        hist[k as int - 1],
                    ] + recent_matches(hist, symbol@, k as int - 1, (lim - r0.len()) - 1));
                    assert(r@ =~= r0 + seq![hist[k as int - 1]]);
                    assert(lim - r@.len() == (lim - r0.len()) - 1);
                    assert(r@ + recent_matches(hist, symbol@, k as int - 1, lim - r@.len()) =~= (r0
                        + seq![hist[k as int - 1]]) + recent_matches(
                        hist,
                        symbol@,
                        k as int - 1,
                        (lim - r0.len()) - 1,
                    ));
                    assert((r0 + seq![hist[k as int - 1]]) + recent_matches(
                        hist,
                        symbol@,
                        k as int - 1,
                        (lim - r0.len()) - 1,
                    ) =~= r0 + (seq![hist[k as int - 1]] + recent_matches(
                        hist,
                        symbol@,
                        k as int - 1,
                        (lim - r0.len()) - 1,
                    )));
                }
            } else {
                proof {
                    assert(recent_matches(hist, symbol@, k as int, lim - r@.len())
                        == recent_matches(hist, symbol@, k as int - 1, lim - r@.len()));
                }
            }
            k -= 1;
        }
        proof {
            if k == 0 {
                assert(recent_matches(hist, symbol@, 0, lim - r@.len())
                    =~= Seq::<Trade>::empty());
            } else {
                assert(r@.len() == lim);
                assert(recent_matches(hist, symbol@, k as int, 0) =~= Seq::<Trade>::empty());
            }
            assert(r@ + Seq::<Trade>::empty() =~= r@);
        }
        r
    }

    /// The distinct symbols in which the participant appears in the trade
    /// log, jointly covering every involving trade; the ghost result holds,
    /// for each symbol, the index of one involving trade in it.
    #[verifier::rlimit(100)]
    fn collect_traded_symbols(&self, participant_id: &str) -> (res: (Vec<String>, Ghost<Seq<int>>))
        ensures
            forall|m1: int, m2: int|
                0 <= m1 < m2 < res.0@.len() ==> (#[trigger] res.0@[m1])@ != (
                #[trigger] res.0@[m2])@,
            forall|j: int|
                0 <= j < self.trade_history@.len() && ((#[trigger] self.trade_history@[j]).buyer_id@
                    == participant_id@ || self.trade_history@[j].seller_id@ == participant_id@)
                    ==> exists|m: int| 0 <= m < res.0@.len() && (#[trigger] res.0@[m])@
                    == self.trade_history@[j].symbol@,
            res.1@.len() == res.0@.len(),
            forall|q: int|
                0 <= q < res.0@.len() ==> {
                    let i = #[trigger] res.1@[q];
                    &&& 0 <= i < self.trade_history@.len()
                    &&& (self.trade_history@[i].buyer_id@ == participant_id@
                        || self.trade_history@[i].seller_id@ == participant_id@)
                    &&& self.trade_history@[i].symbol@ == res.0@[q]@
                },
    {
        let ghost hist = self.trade_history@;
        let ghost pid = participant_id@;
        let mut syms: Vec<String> = Vec::new();
        let ghost mut wit: Seq<int> = Seq::<int>::empty();
        let mut j: usize = 0;
        while j < self.trade_history.len()
            invariant
                hist == self.trade_history@,
                pid == participant_id@,
                j <= hist.len(),
                forall|m1: int, m2: int|
                    0 <= m1 < m2 < syms@.len() ==> (#[trigger] syms@[m1])@ != (
                    #[trigger] syms@[m2])@,
                forall|i: int|
                    0 <= i < j && ((#[trigger] hist[i]).buyer_id@ == pid || hist[i].seller_id@
                        == pid) ==> exists|m: int| 0 <= m < syms@.len() && (#[trigger] syms@[m])@
                        == hist[i].symbol@,
                wit.len() == syms@.len(),
                forall|q: int|
                    0 <= q < syms@.len() ==> {
                        let i = #[trigger] wit[q];
                        &&& 0 <= i < hist.len()
                        &&& (hist[i].buyer_id@ == pid || hist[i].seller_id@ == pid)
                        &&& hist[i].symbol@ == syms@[q]@
                    },
            decreases hist.len() - j,
        {
            let t = &self.trade_history[j];
            if str_eq(t.buyer_id.as_str(), participant_id) || str_eq(
                t.seller_id.as_str(),
                participant_id,
            ) {
                let mut found = false;
                let mut m: usize = 0;
                while m < syms.len() && !found
                    invariant
                        m <= syms@.len(),
                        hist == self.trade_history@,
                        pid == participant_id@,
                        j < hist.len(),
                        *t == hist[j as int],
                        found ==> exists|q: int|
                            0 <= q < syms@.len() && (#[trigger] syms@[q])@ == hist[j as int].symbol@,
                        !found ==> forall|q: int|
                            0 <= q < m ==> (#[trigger] syms@[q])@ != hist[j as int].symbol@,
                    decreases syms@.len() - m + (if found { 0int } else { 1int }),
                {
                    if str_eq(syms[m].as_str(), t.symbol.as_str()) {
                        found = true;
                        proof {
                            assert(syms@[m as int]@ == hist[j as int].symbol@);
                        }
                    } else {
                        m += 1;
                    }
                }
                let ghost syms0 = syms@;
                if !found {
                    syms.push(t.symbol.clone());
                    proof {
                        wit = wit.push(j as int);
                        assert(syms@[syms0.len() as int]@ == hist[j as int].symbol@);
                        assert(forall|q: int|
                            0 <= q < syms0.len() ==> #[trigger] wit[q] == wit.drop_last()[q]);
                        assert forall|i: int|
                            0 <= i < j + 1 && ((#[trigger] hist[i]).buyer_id@ == pid
                                || hist[i].seller_id@ == pid) implies exists|q: int|
                            0 <= q < syms@.len() && (#[trigger] syms@[q])@ == hist[i].symbol@ by {
                            if i < j {
                                let q = choose|q: int|
                                    0 <= q < syms0.len() && (#[trigger] syms0[q])@
                                        == hist[i].symbol@;
                                assert(syms@[q]@ == hist[i].symbol@);
                            } else {
                                assert(syms@[syms0.len() as int]@ == hist[i].symbol@);
                            }
                        }
                        assert forall|m1: int, m2: int|
                            0 <= m1 < m2 < syms@.len() implies (#[trigger] syms@[m1])@ != (
                        #[trigger] syms@[m2])@ by {
                            if m2 == syms0.len() {
                                assert(syms@[m1] == syms0[m1]);
                            }
                        }
                    }
                } else {
                    proof {
                        let q = choose|q: int|
                            0 <= q < syms@.len() && (#[trigger] syms@[q])@ == hist[j as int].symbol@;
                        assert forall|i: int|
                            0 <= i < j + 1 && ((#[trigger] hist[i]).buyer_id@ == pid
                                || hist[i].seller_id@ == pid) implies exists|qq: int|
                            0 <= qq < syms@.len() && (#[trigger] syms@[qq])@ == hist[i].symbol@ by {
                            if i == j {
                                assert(syms@[q]@ == hist[i].symbol@);
                            }
                        }
                    }
                }
            }
            j += 1;
        }
        let ghost gsyms = syms@;
        let result = (syms, Ghost(wit));
        proof {
            assert(result.0@ == gsyms);
            assert(result.1@ == wit);
            assert forall|j2: int|
                0 <= j2 < self.trade_history@.len() && ((
                #[trigger] self.trade_history@[j2]).buyer_id@ == participant_id@
                    || self.trade_history@[j2].seller_id@ == participant_id@) implies exists|
                m: int,
            |
                0 <= m < result.0@.len() && (#[trigger] result.0@[m])@
                    == self.trade_history@[j2].symbol@ by {
                assert(hist[j2].buyer_id@ == pid || hist[j2].seller_id@ == pid);
                let m = choose|m: int|
                    0 <= m < gsyms.len() && (#[trigger] gsyms[m])@ == hist[j2].symbol@;
                assert(result.0@[m]@ == self.trade_history@[j2].symbol@);
            }
            assert forall|q: int| 0 <= q < result.0@.len() implies {
                let i = #[trigger] result.1@[q];
                &&& 0 <= i < self.trade_history@.len()
                &&& (self.trade_history@[i].buyer_id@ == participant_id@
                    || self.trade_history@[i].seller_id@ == participant_id@)
                &&& self.trade_history@[i].symbol@ == result.0@[q]@
            } by {
                assert(wit[q] == result.1@[q]);
            }
        }
        result
    }

    /// The participant's net signed volume in every symbol it has traded:
    /// one entry per symbol it appears in (and none it does not), value
    /// positive when it bought more than it sold.
    #[verifier::rlimit(100)]
    pub fn get_participant_positions(&self, participant_id: &str) -> (r: Vec<(String, i128)>)
        requires
            self.wf(),
        ensures
            forall|m1: int, m2: int|
                0 <= m1 < m2 < r@.len() ==> (#[trigger] r@[m1]).0@ != (#[trigger] r@[m2]).0@,
            forall|m: int|
                0 <= m < r@.len() ==> (#[trigger] r@[m]).1 == net_position(
                    self.trade_history@,
                    participant_id@,
                    r@[m].0@,
                ),
            forall|j: int|
                0 <= j < self.trade_history@.len() && ((#[trigger] self.trade_history@[j]).buyer_id@
                    == participant_id@ || self.trade_history@[j].seller_id@ == participant_id@)
                    ==> exists|m: int| 0 <= m < r@.len() && (#[trigger] r@[m]).0@
                    == self.trade_history@[j].symbol@,
            forall|m: int|
                0 <= m < r@.len() ==> traded_in(
                    self.trade_history@,
                    participant_id@,
                    (#[trigger] r@[m]).0@,
                ),
    {
        let ghost hist = self.trade_history@;
        let ghost pid = participant_id@;
        let (syms, wit) = self.collect_traded_symbols(participant_id);
        let mut r: Vec<(String, i128)> = Vec::new();
        let mut m: usize = 0;
        while m < syms.len()
            invariant
                hist == self.trade_history@,
                pid == participant_id@,
                forall|i: int|
                    0 <= i < hist.len() ==> (#[trigger] hist[i]).volume <= 1_000_000_000_000,
                m <= syms@.len(),
                r@.len() == m as int,
                forall|m1: int, m2: int|
                    0 <= m1 < m2 < syms@.len() ==> (#[trigger] syms@[m1])@ != (
                    #[trigger] syms@[m2])@,
                forall|q: int| 0 <= q < m ==> (#[trigger] r@[q]).0@ == syms@[q]@,
                forall|q: int|
                    0 <= q < m ==> (#[trigger] r@[q]).1 == net_position(hist, pid, r@[q].0@),
                forall|i: int|
                    0 <= i < hist.len() && ((#[trigger] hist[i]).buyer_id@ == pid
                        || hist[i].seller_id@ == pid) ==> exists|q: int|
                        0 <= q < syms@.len() && (#[trigger] syms@[q])@ == hist[i].symbol@,
                wit@.len() == syms@.len(),
                forall|q: int|
                    0 <= q < syms@.len() ==> {
                        let i = #[trigger] wit@[q];
                        &&& 0 <= i < hist.len()
                        &&& (hist[i].buyer_id@ == pid || hist[i].seller_id@ == pid)
                        &&& hist[i].symbol@ == syms@[q]@
                    },
            decreases syms@.len() - m,
        {
            let net = self.net_of(participant_id, syms[m].as_str());
            r.push((syms[m].clone(), net));
            proof {
                assert(r@[m as int].0@ == syms@[m as int]@);
                assert(r@[m as int].1 == net_position(hist, pid, r@[m as int].0@));
            }
            m += 1;
        }
        proof {
            assert forall|j2: int|
                0 <= j2 < self.trade_history@.len() && ((
                #[trigger] self.trade_history@[j2]).buyer_id@ == participant_id@
                    || self.trade_history@[j2].seller_id@ == participant_id@) implies exists|
                m2: int,
            |
                0 <= m2 < r@.len() && (#[trigger] r@[m2]).0@ == self.trade_history@[j2].symbol@ by {
                assert(hist[j2].buyer_id@ == pid || hist[j2].seller_id@ == pid);
                let q = choose|q: int|
                    0 <= q < syms@.len() && (#[trigger] syms@[q])@ == hist[j2].symbol@;
                assert(r@[q].0@ == self.trade_history@[j2].symbol@);
            }
            assert forall|m2: int| 0 <= m2 < r@.len() implies traded_in(
                self.trade_history@,
                participant_id@,
                (#[trigger] r@[m2]).0@,
            ) by {
                let i = wit@[m2];
                assert(0 <= i < self.trade_history@.len());
                assert(self.trade_history@[i].buyer_id@ == participant_id@
                    || self.trade_history@[i].seller_id@ == participant_id@);
                assert(self.trade_history@[i].symbol@ == r@[m2].0@);
            }
        }
        r
    }

    /// The participant's net signed volume in one symbol.
    fn net_of(&self, participant_id: &str, symbol: &str) -> (r: i128)
        requires
            forall|i: int|
                0 <= i < self.trade_history@.len() ==> (#[trigger] self.trade_history@[i]).volume
                    <= 1_000_000_000_000,
        ensures
            r == net_position(self.trade_history@, participant_id@, symbol@),
    {
        let ghost hist = self.trade_history@;
        let mut net: i128 = 0;
        let mut n: usize = 0;
        while n < self.trade_history.len()
            invariant
                hist == self.trade_history@,
                n <= hist.len(),
                net == net_position(hist.take(n as int), participant_id@, symbol@),
                forall|i: int|
                    0 <= i < hist.len() ==> (#[trigger] hist[i]).volume <= 1_000_000_000_000,
                -(n as int) * 1_000_000_000_000i128 <= net <= (n as int) * 1_000_000_000_000i128,
            decreases hist.len() - n,
        {
            proof {
                assert(hist.take(n as int + 1).drop_last() =~= hist.take(n as int));
                assert(hist.take(n as int + 1).last() == hist[n as int]);
                assert((n as int) * 1_000_000_000_000i128 <= 18_446_744_073_709_551_615i128
                    * 1_000_000_000_000i128) by (nonlinear_arith)
                    requires 0 <= n <= 18_446_744_073_709_551_615u64;
                assert((n as int + 1) * 1_000_000_000_000i128 == (n as int)
                    * 1_000_000_000_000i128 + 1_000_000_000_000i128) by (nonlinear_arith);
            }
            let t = &self.trade_history[n];
            if str_eq(t.symbol.as_str(), symbol) && str_eq(t.buyer_id.as_str(), participant_id) {
                net = net + t.volume as i128;
            } else if str_eq(t.symbol.as_str(), symbol) && str_eq(
                t.seller_id.as_str(),
                participant_id,
            ) {
                net = net - t.volume as i128;
            }
            n += 1;
        }
        proof {
            assert(hist.take(hist.len() as int) =~= hist);
        }
        net
    }
}

/// Prefixes compose.
proof fn lemma_prefix_trans(a: Seq<Trade>, b: Seq<Trade>, c: Seq<Trade>)
    requires
        a.is_prefix_of(b),
        b.is_prefix_of(c),
    ensures
        a.is_prefix_of(c),
{
    assert(a =~= c.take(a.len() as int));
}

/// Total traded volume across the books, clamped at the volume ceiling.
fn sum_volumes_of_books(books: &Vec<OrderBook>) -> (r: u128)
    requires
        forall|i: int| 0 <= i < books@.len() ==> (#[trigger] books@[i]).wf(),
    ensures
        r == clamp_total(sum_book_volumes(books@)),
        r <= TOTAL_VOLUME_LIMIT,
{
    let mut total: u128 = 0;
    let mut n: usize = 0;
    while n < books.len()
        invariant
            n <= books@.len(),
            forall|i: int| 0 <= i < books@.len() ==> (#[trigger] books@[i]).wf(),
            total == clamp_total(sum_book_volumes(books@.take(n as int))),
            total <= TOTAL_VOLUME_LIMIT,
        decreases books@.len() - n,
    {
        proof {
            assert(books@.take(n as int + 1).drop_last() =~= books@.take(n as int));
            assert(books@.take(n as int + 1).last() == books@[n as int]);
            lemma_sum_book_volumes_nonneg(books@.take(n as int));
        }
        let v: u128 = books[n].total_volume;
        let s: u128 = total + v;
        total = if s > TOTAL_VOLUME_LIMIT {
            TOTAL_VOLUME_LIMIT
        } else {
            s
        };
        n += 1;
    }
    proof {
        assert(books@.take(books@.len() as int) =~= books@);
    }
    total
}

/// A sum of book volumes is never negative.
proof fn lemma_sum_book_volumes_nonneg(books: Seq<OrderBook>)
    ensures
        sum_book_volumes(books) >= 0,
    decreases books.len(),
{
    if books.len() > 0 {
        lemma_sum_book_volumes_nonneg(books.drop_last());
    }
}

/// Mean price of the window `hist[start..]`, rounded down.
fn window_mean(hist: &Vec<Trade>, start: usize) -> (r: u64)
    requires
        start < hist@.len(),
        hist@.len() - start == 100,
        forall|i: int| 0 <= i < hist@.len() ==> (#[trigger] hist@[i]).price <= PRICE_LIMIT,
    ensures
        r == sum_prices(hist@.subrange(start as int, hist@.len() as int)) / 100,
        r <= PRICE_LIMIT,
{
    let ghost window = hist@.subrange(start as int, hist@.len() as int);
    let mut sum: u128 = 0;
    let mut n: usize = start;
    while n < hist.len()
        invariant
            start <= n <= hist@.len(),
            hist@.len() - start == 100,
            forall|i: int| 0 <= i < hist@.len() ==> (#[trigger] hist@[i]).price <= PRICE_LIMIT,
            window == hist@.subrange(start as int, hist@.len() as int),
            sum == sum_prices(hist@.subrange(start as int, n as int)),
            sum <= (n - start) * (PRICE_LIMIT as int),
        decreases hist@.len() - n,
    {
        proof {
            assert(hist@.subrange(start as int, n as int + 1).drop_last() =~= hist@.subrange(
                start as int,
                n as int,
            ));
            assert(hist@.subrange(start as int, n as int + 1).last() == hist@[n as int]);
        }
        sum = sum + hist[n].price as u128;
        n += 1;
    }
    proof {
        vstd::arithmetic::div_mod::lemma_div_pos_is_pos(sum_prices(window), 100int);
        vstd::arithmetic::div_mod::lemma_div_is_ordered(
            sum_prices(window),
            100 * (PRICE_LIMIT as int),
            100int,
        );
        vstd::arithmetic::div_mod::lemma_div_multiples_vanish(PRICE_LIMIT as int, 100int);
    }
    (sum / 100) as u64
}

/// Variance of the window `hist[start..]` around `mean`, rounded down.
fn window_variance(hist: &Vec<Trade>, start: usize, mean: u64) -> (r: u128)
    requires
        start < hist@.len(),
        hist@.len() - start == 100,
        mean <= PRICE_LIMIT,
        forall|i: int| 0 <= i < hist@.len() ==> (#[trigger] hist@[i]).price <= PRICE_LIMIT,
    ensures
        r == sum_sqdev(hist@.subrange(start as int, hist@.len() as int), mean as int) / 100,
{
    let ghost window = hist@.subrange(start as int, hist@.len() as int);
    let mut sum: u128 = 0;
    let mut n: usize = start;
    while n < hist.len()
        invariant
            start <= n <= hist@.len(),
            hist@.len() - start == 100,
            mean <= PRICE_LIMIT,
            forall|i: int| 0 <= i < hist@.len() ==> (#[trigger] hist@[i]).price <= PRICE_LIMIT,
            window == hist@.subrange(start as int, hist@.len() as int),
            sum == sum_sqdev(hist@.subrange(start as int, n as int), mean as int),
            sum <= (n - start) * 1_000_000_000_000_000_000_000_000,
        decreases hist@.len() - n,
    {
        proof {
            assert(hist@.subrange(start as int, n as int + 1).drop_last() =~= hist@.subrange(
                start as int,
                n as int,
            ));
            assert(hist@.subrange(start as int, n as int + 1).last() == hist@[n as int]);
        }
        let p = hist[n].price;
        let dev: u64 = if p >= mean {
            p - mean
        } else {
            mean - p
        };
        proof {
            let d = hist@[n as int].price - mean;
            assert(dev * dev == d * d && dev * dev <= 1_000_000_000_000_000_000_000_000)
                by (nonlinear_arith)
                requires
                    (dev == d || dev == -d),
                    -1_000_000_000_000 <= d <= 1_000_000_000_000,
                    0 <= dev <= 1_000_000_000_000u64,
            ;
        }
        sum = sum + (dev as u128) * (dev as u128);
        n += 1;
    }
    proof {
        lemma_sum_sqdev_nonneg(window, mean as int);
        vstd::arithmetic::div_mod::lemma_div_pos_is_pos(sum_sqdev(window, mean as int), 100int);
    }
    sum / 100
}

/// A sum of squared deviations is never negative.
proof fn lemma_sum_sqdev_nonneg(ts: Seq<Trade>, mean: int)
    ensures
        sum_sqdev(ts, mean) >= 0,
    decreases ts.len(),
{
    if ts.len() > 0 {
        lemma_sum_sqdev_nonneg(ts.drop_last(), mean);
        let d = ts.last().price - mean;
        assert(d * d >= 0) by (nonlinear_arith);
    }
}

/// Every trade of any order-type outcome carries a bounded positive volume
/// (at most the incoming order's amount), a bounded positive price, the
/// book's symbol, and the incoming order's participant on its own side.
proof fn lemma_trades_bounded(
    pre: OrderBook,
    post: OrderBook,
    order: Order,
    r: Option<Vec<Trade>>,
)
    requires
        order_valid(order),
        market_order_post(pre, post, order, r) || limit_order_post(pre, post, order, r)
            || crate::orderbook::stop_order_post(pre, post, order, r)
            || crate::orderbook::stop_limit_order_post(pre, post, order, r),
    ensures
        forall|m: int|
            0 <= m < trades_of(r).len() ==> {
                let t = #[trigger] trades_of(r)[m];
                &&& 0 < t.volume <= order.amount
                &&& t.volume <= 1_000_000_000_000
                &&& 0 < t.price <= PRICE_LIMIT
                &&& t.symbol == pre.symbol
                &&& (order.side == OrderSide::Buy ==> t.buyer_id == order.participant_id)
                &&& (order.side == OrderSide::Sell ==> t.seller_id == order.participant_id)
            },
{
}

/// Net signed volume of a participant in one symbol over a trade log: a
/// trade adds its volume when the participant bought and subtracts it when
/// it sold (a self-trade counts as bought).
pub open spec fn net_position(hist: Seq<Trade>, pid: Seq<char>, sym: Seq<char>) -> int
    decreases hist.len(),
{
    if hist.len() == 0 {
        0
    } else {
        let prev = net_position(hist.drop_last(), pid, sym);
        let t = hist.last();
        if t.symbol@ == sym && t.buyer_id@ == pid {
            prev + t.volume
        } else if t.symbol@ == sym && t.seller_id@ == pid {
            prev - t.volume
        } else {
            prev
        }
    }
}

/// Some trade in the log involves the participant in this symbol.
pub open spec fn traded_in(hist: Seq<Trade>, pid: Seq<char>, sym: Seq<char>) -> bool {
    exists|j: int|
        0 <= j < hist.len() && ((#[trigger] hist[j]).buyer_id@ == pid || hist[j].seller_id@ == pid)
            && hist[j].symbol@ == sym
}

/// The trades of `hist[0..k]` whose symbol matches, newest first, at most
/// `limit` of them.
pub open spec fn recent_matches(hist: Seq<Trade>, sym: Seq<char>, k: int, limit: int) -> Seq<Trade>
    decreases (if k >= 0 { k } else { 0 }),
{
    if k <= 0 || limit <= 0 || k > hist.len() {
        Seq::<Trade>::empty()
    } else if hist[k - 1].symbol@ == sym {
        seq![hist[k - 1]] + recent_matches(hist, sym, k - 1, limit - 1)
    } else {
        recent_matches(hist, sym, k - 1, limit)
    }
}

/// Total traded volume across all books.
pub open spec fn sum_book_volumes(books: Seq<OrderBook>) -> int
    decreases books.len(),
{
    if books.len() == 0 {
        0
    } else {
        sum_book_volumes(books.drop_last()) + books.last().total_volume
    }
}

/// Sum of the prices of a window of trades.
pub open spec fn sum_prices(ts: Seq<Trade>) -> int
    decreases ts.len(),
{
    if ts.len() == 0 {
        0
    } else {
        sum_prices(ts.drop_last()) + ts.last().price
    }
}

/// Sum of squared deviations of a window of trades' prices from `mean`.
pub open spec fn sum_sqdev(ts: Seq<Trade>, mean: int) -> int
    decreases ts.len(),
{
    if ts.len() == 0 {
        0
    } else {
        let d = ts.last().price - mean;
        sum_sqdev(ts.drop_last(), mean) + d * d
    }
}

/// Untouched well-formed accounts count as a money-only change.
proof fn lemma_same_accounts_refl(ps: Seq<Participant>)
    requires
        forall|i: int| 0 <= i < ps.len() ==> (#[trigger] ps[i]).wf(),
    ensures
        same_accounts(ps, ps),
{
    assert forall|k: int| 0 <= k < ps.len() implies #[trigger] ps[k] == with_money(
        ps[k],
        ps[k].balance,
    ) by {
        assert(ps[k].wf());
    }
}

/// Money-only changes compose.
proof fn lemma_same_accounts_trans(a: Seq<Participant>, b: Seq<Participant>, c: Seq<Participant>)
    requires
        same_accounts(a, b),
        same_accounts(b, c),
    ensures
        same_accounts(a, c),
{
    assert forall|k: int| 0 <= k < a.len() implies #[trigger] c[k] == with_money(
        a[k],
        c[k].balance,
    ) by {
        assert(b[k] == with_money(a[k], b[k].balance));
        assert(c[k] == with_money(b[k], c[k].balance));
    }
}

/// An exact copy of a trade record.
fn dup_trade(t: &Trade) -> (r: Trade)
    ensures
        r == *t,
{
    Trade {
        id: t.id,
        symbol: t.symbol.clone(),
        buyer_id: t.buyer_id.clone(),
        seller_id: t.seller_id.clone(),
        price: t.price,
        volume: t.volume,
        timestamp: t.timestamp,
        trade_type: t.trade_type,
    }
}

/// An exact copy of an order record.
fn dup_order(o: &Order) -> (r: Order)
    ensures
        r == *o,
{
    Order {
        id: o.id,
        symbol: o.symbol.clone(),
        side: o.side,
        amount: o.amount,
        price: o.price,
        timestamp: o.timestamp,
        participant_id: o.participant_id.clone(),
        order_type: o.order_type,
    }
}

} // verus!
