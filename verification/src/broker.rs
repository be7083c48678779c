//! The broker pipeline: rewrites a client order (execution-model price
//! adjustment, stochastic slippage and requote), enforces admission rules,
//! and computes commission, swap and margin.
//!
//! Every stochastic stage has a deterministic core that takes the random
//! draws as arguments, so the whole rewriting pipeline carries an exact
//! contract; the drawing entry points state what holds of every outcome.

use vstd::prelude::*;

use crate::fixed::{PRICE_LIMIT, VOLUME_LIMIT, PPM_SCALE, scale_by_ppm, apply_ppm};
use crate::orderbook::{Order, OrderSide};
use crate::rng;
use crate::text::str_eq;

verus! {

/// The five broker models the venue offers.
#[derive(Clone, Copy, Debug, PartialEq, Eq, Structural)]
pub enum BrokerType {
    DirectAccess,
    ECN,
    MarketMaker,
    STP,
    Hybrid,
}

/// How fast and through what mechanism a broker executes.
#[derive(Clone, Copy, Debug, PartialEq, Eq, Structural)]
pub enum ExecutionModel {
    InstantExecution,
    MarketExecution,
    RequestExecution,
    ExchangeExecution,
}

/// One source of quotes a broker aggregates over.
#[derive(Clone, Debug)]
pub struct LiquidityProvider {
    pub name: String,
    /// 0 = the venue's own pool, 1..3 = bank tiers.
    pub tier: u8,
    /// Relative weight in the price aggregation (any unit; normalized).
    pub weight: u64,
    /// Micro-units added to (Buy) or taken from (Sell) the base price.
    pub spread_markup: u64,
}

/// A broker's configuration. Brokers are stateless: processing an order
/// reads this record and the random source, nothing else.
#[derive(Clone, Debug)]
pub struct Broker {
    pub id: String,
    pub name: String,
    pub broker_type: BrokerType,
    /// Micro-units of quote currency.
    pub spread: u64,
    /// Micro-units of account currency per standard lot.
    pub commission: u64,
    pub execution_model: ExecutionModel,
    pub liquidity_providers: Vec<LiquidityProvider>,
    /// Upper bound (exclusive) of the slippage draw, micro-units.
    pub slippage_factor: u64,
    /// Probability of a requote, parts per million.
    pub requote_probability: u64,
    pub max_leverage: u64,
    /// Trade-size admission bounds, base-currency units.
    pub min_trade_size: u64,
    pub max_trade_size: u64,
}

/// The execution model each broker type uses.
pub open spec fn model_of(t: BrokerType) -> ExecutionModel {
    match t {
        BrokerType::DirectAccess => ExecutionModel::ExchangeExecution,
        BrokerType::ECN => ExecutionModel::MarketExecution,
        BrokerType::MarketMaker => ExecutionModel::InstantExecution,
        BrokerType::STP => ExecutionModel::MarketExecution,
        BrokerType::Hybrid => ExecutionModel::RequestExecution,
    }
}

/// The slippage bound each broker type uses, micro-units.
pub open spec fn slippage_of(t: BrokerType) -> u64 {
    match t {
        BrokerType::DirectAccess => 100u64,
        BrokerType::ECN => 200u64,
        BrokerType::MarketMaker => 500u64,
        BrokerType::STP => 300u64,
        BrokerType::Hybrid => 400u64,
    }
}

/// The requote probability each broker type uses, parts per million.
pub open spec fn requote_of(t: BrokerType) -> u64 {
    match t {
        BrokerType::DirectAccess => 20_000u64,
        BrokerType::ECN => 10_000u64,
        BrokerType::MarketMaker => 150_000u64,
        BrokerType::STP => 50_000u64,
        BrokerType::Hybrid => 80_000u64,
    }
}

/// The leverage cap each broker type offers.
pub open spec fn leverage_of(t: BrokerType) -> u64 {
    match t {
        BrokerType::DirectAccess => 500u64,
        BrokerType::ECN => 200u64,
        BrokerType::MarketMaker => 100u64,
        BrokerType::STP => 300u64,
        BrokerType::Hybrid => 200u64,
    }
}

/// Sum of the weights of a provider list.
pub open spec fn total_weight(lps: Seq<LiquidityProvider>) -> int
    decreases lps.len(),
{
    if lps.len() == 0 {
        0
    } else {
        total_weight(lps.drop_last()) + lps.last().weight
    }
}

/// The price one provider quotes: the base price moved by its markup,
/// floored at zero on the sell side.
pub open spec fn lp_price(lp: LiquidityProvider, price: u64, side: OrderSide) -> int {
    if side == OrderSide::Buy {
        price + lp.spread_markup
    } else if price >= lp.spread_markup {
        price - lp.spread_markup
    } else {
        0
    }
}

/// Weight-scaled sum of the providers' prices.
pub open spec fn weighted_sum(lps: Seq<LiquidityProvider>, price: u64, side: OrderSide) -> int
    decreases lps.len(),
{
    if lps.len() == 0 {
        0
    } else {
        weighted_sum(lps.drop_last(), price, side) + lps.last().weight * lp_price(
            lps.last(),
            price,
            side,
        )
    }
}

/// The weight-normalized mean of the providers' prices, capped at the
/// price ceiling; the base price when no weight is configured.
pub open spec fn lp_aggregate(lps: Seq<LiquidityProvider>, price: u64, side: OrderSide) -> u64 {
    let tw = total_weight(lps);
    if tw == 0 {
        price
    } else {
        let mean = weighted_sum(lps, price, side) / tw;
        if mean > PRICE_LIMIT {
            PRICE_LIMIT
        } else {
            mean as u64
        }
    }
}

/// Stage one of the pipeline: the execution-model price adjustment.
pub open spec fn spec_adjusted_price(b: Broker, price: u64, side: OrderSide) -> u64 {
    match b.broker_type {
        BrokerType::DirectAccess => price,
        BrokerType::MarketMaker => {
            if side == OrderSide::Buy {
                if price + b.spread / 2 > PRICE_LIMIT {
                    PRICE_LIMIT
                } else {
                    (price + b.spread / 2) as u64
                }
            } else {
                if price >= b.spread / 2 {
                    (price - b.spread / 2) as u64
                } else {
                    0u64
                }
            }
        },
        _ => lp_aggregate(b.liquidity_providers@, price, side),
    }
}

/// Stage two: slippage moves the price adversely by the drawn amount.
pub open spec fn spec_slipped_price(price: u64, side: OrderSide, draw: Option<u64>) -> u64 {
    match draw {
        None => price,
        Some(s) => {
            if side == OrderSide::Buy {
                if price + s > PRICE_LIMIT {
                    PRICE_LIMIT
                } else {
                    (price + s) as u64
                }
            } else {
                if price >= s {
                    (price - s) as u64
                } else {
                    0u64
                }
            }
        },
    }
}

/// Stage three: a requote rescales the price by the drawn relative move.
pub open spec fn spec_requoted_price(price: u64, draw: Option<i64>) -> u64 {
    match draw {
        None => price,
        Some(u) => scale_by_ppm(price, u),
    }
}

/// The whole price-rewriting pipeline, stage by stage.
pub open spec fn spec_pipeline_price(
    b: Broker,
    price: u64,
    side: OrderSide,
    slippage_draw: Option<u64>,
    requote_draw: Option<i64>,
) -> u64 {
    spec_requoted_price(
        spec_slipped_price(spec_adjusted_price(b, price, side), side, slippage_draw),
        requote_draw,
    )
}

/// The order `o` with its price replaced.
pub open spec fn with_price(o: Order, p: u64) -> Order {
    Order { price: p, ..o }
}

/// The provider list each broker type is configured with: names, tiers,
/// weights (parts per hundred) and price markups (micro-units).
pub open spec fn lps_match(t: BrokerType, lps: Seq<LiquidityProvider>) -> bool {
    match t {
        BrokerType::DirectAccess => {
            &&& lps.len() == 1
            &&& lps[0].name@ == "Liquidity Pool Direct"@
            &&& lps[0].tier == 0u8
            &&& lps[0].weight == 100u64
            &&& lps[0].spread_markup == 0u64
        },
        BrokerType::ECN => {
            &&& lps.len() == 4
            &&& lps[0].name@ == "Deutsche Bank"@
            &&& lps[1].name@ == "Citibank"@
            &&& lps[2].name@ == "JP Morgan"@
            &&& lps[3].name@ == "UBS"@
            &&& forall|i: int| 0 <= i < 4 ==> (#[trigger] lps[i]).tier == 1u8 && lps[i].weight
                == 25u64
            &&& lps[0].spread_markup == 50u64
            &&& lps[1].spread_markup == 80u64
            &&& lps[2].spread_markup == 60u64
            &&& lps[3].spread_markup == 70u64
        },
        BrokerType::MarketMaker => {
            &&& lps.len() == 1
            &&& lps[0].name@ == "Internal Market Making"@
            &&& lps[0].tier == 3u8
            &&& lps[0].weight == 100u64
            &&& lps[0].spread_markup == 200u64
        },
        BrokerType::STP => {
            &&& lps.len() == 2
            &&& lps[0].name@ == "Bank Consortium"@
            &&& lps[0].tier == 2u8
            &&& lps[0].weight == 60u64
            &&& lps[0].spread_markup == 120u64
            &&& lps[1].name@ == "ECN Pool"@
            &&& lps[1].tier == 1u8
            &&& lps[1].weight == 40u64
            &&& lps[1].spread_markup == 80u64
        },
        BrokerType::Hybrid => {
            &&& lps.len() == 2
            &&& lps[0].name@ == "Tier 1 Banks"@
            &&& lps[0].tier == 1u8
            &&& lps[0].weight == 70u64
            &&& lps[0].spread_markup == 100u64
            &&& lps[1].name@ == "Internal MM"@
            &&& lps[1].tier == 3u8
            &&& lps[1].weight == 30u64
            &&& lps[1].spread_markup == 150u64
        },
    }
}

/// The per-symbol base spread, micro-units.
pub open spec fn base_spread_of(sym: Seq<char>) -> u64 {
    if sym == "EURUSD"@ {
        150u64
    } else if sym == "GBPUSD"@ {
        200u64
    } else if sym == "USDJPY"@ {
        15_000u64
    } else {
        200u64
    }
}

/// The per-symbol, per-side swap rate in micro-units of account currency
/// per base unit of volume.
pub open spec fn swap_rate_of(sym: Seq<char>, side: OrderSide) -> int {
    if sym == "EURUSD"@ {
        if side == OrderSide::Buy {
            -5
        } else {
            -21
        }
    } else if sym == "GBPUSD"@ {
        if side == OrderSide::Buy {
            8
        } else {
            -32
        }
    } else if sym == "USDJPY"@ {
        if side == OrderSide::Buy {
            21
        } else {
            -54
        }
    } else {
        0
    }
}

/// Notional value of a position in micro-units of account currency: JPY
/// pairs scale the volume by 100.
pub open spec fn spec_notional(sym: Seq<char>, volume: u64) -> int {
    if sym == "USDJPY"@ {
        volume * 100_000_000
    } else {
        volume * 1_000_000
    }
}

impl Broker {
    /// Configuration bounds every broker satisfies.
    pub open spec fn wf(self) -> bool {
        &&& self.spread <= PRICE_LIMIT
        &&& self.commission <= PRICE_LIMIT
        &&& 1 <= self.slippage_factor <= PRICE_LIMIT
        &&& self.requote_probability <= PPM_SCALE
        &&& 1 <= self.max_leverage <= 1000
        &&& 0 < self.min_trade_size <= self.max_trade_size <= VOLUME_LIMIT
        &&& forall|i: int|
            0 <= i < self.liquidity_providers.len() ==> {
                &&& (#[trigger] self.liquidity_providers[i]).weight <= PPM_SCALE
                &&& self.liquidity_providers[i].spread_markup <= PRICE_LIMIT
            }
    }

    /// The trade-size admission rule: the amount lies inside the broker's
    /// bounds.
    pub open spec fn spec_size_ok(self, o: Order) -> bool {
        self.min_trade_size <= o.amount <= self.max_trade_size
    }

    /// The margin a trade requires of this broker: notional over the
    /// effective leverage (the requested leverage capped by the broker's).
    pub open spec fn spec_margin(self, sym: Seq<char>, volume: u64, leverage: u64) -> int {
        spec_notional(sym, volume) / (if leverage <= self.max_leverage {
            leverage as int
        } else {
            self.max_leverage as int
        })
    }

    /// A broker of the given type: execution model, slippage, requote
    /// probability, leverage cap and liquidity providers all derive from
    /// the type; trade-size bounds take their defaults.
    pub fn new(name: String, broker_type: BrokerType, spread: u64, commission: u64) -> (r: Broker)
        requires
            spread <= PRICE_LIMIT,
            commission <= PRICE_LIMIT,
        ensures
            r.wf(),
            r.id@.len() == 36,
            r.name == name,
            r.broker_type == broker_type,
            r.spread == spread,
            r.commission == commission,
            r.execution_model == model_of(broker_type),
            lps_match(broker_type, r.liquidity_providers@),
            r.slippage_factor == slippage_of(broker_type),
            r.requote_probability == requote_of(broker_type),
            r.max_leverage == leverage_of(broker_type),
            r.min_trade_size == 1_000u64,
            r.max_trade_size == 100_000_000u64,
    {
        let execution_model = match broker_type {
            BrokerType::DirectAccess => ExecutionModel::ExchangeExecution,
            BrokerType::ECN => ExecutionModel::MarketExecution,
            BrokerType::MarketMaker => ExecutionModel::InstantExecution,
            BrokerType::STP => ExecutionModel::MarketExecution,
            BrokerType::Hybrid => ExecutionModel::RequestExecution,
        };
        let liquidity_providers = generate_liquidity_providers(broker_type);
        let (slippage_factor, requote_probability): (u64, u64) = match broker_type {
            BrokerType::DirectAccess => (100, 20_000),
            BrokerType::ECN => (200, 10_000),
            BrokerType::MarketMaker => (500, 150_000),
            BrokerType::STP => (300, 50_000),
            BrokerType::Hybrid => (400, 80_000),
        };
        let max_leverage: u64 = match broker_type {
            BrokerType::DirectAccess => 500,
            BrokerType::ECN => 200,
            BrokerType::MarketMaker => 100,
            BrokerType::STP => 300,
            BrokerType::Hybrid => 200,
        };
        Broker {
            id: rng::fresh_id_string(),
            name,
            broker_type,
            spread,
            commission,
            execution_model,
            liquidity_providers,
            slippage_factor,
            requote_probability,
            max_leverage,
            min_trade_size: 1_000,
            max_trade_size: 100_000_000,
        }
    }
}

impl Broker {
    /// Weight-normalized mean of the configured providers' prices around
    /// `base_price`.
    fn aggregate_liquidity_provider_prices(&self, base_price: u64, side: OrderSide) -> (r: u64)
        requires
            self.wf(),
            base_price <= PRICE_LIMIT,
        ensures
            r == lp_aggregate(self.liquidity_providers@, base_price, side),
            r <= PRICE_LIMIT,
    {
        let ghost lps = self.liquidity_providers@;
        let mut ws: u128 = 0;
        let mut tw: u128 = 0;
        let mut i: usize = 0;
        while i < self.liquidity_providers.len()
            invariant
                self.wf(),
                base_price <= PRICE_LIMIT,
                lps == self.liquidity_providers@,
                i <= lps.len(),
                ws == weighted_sum(lps.take(i as int), base_price, side),
                tw == total_weight(lps.take(i as int)),
                ws <= i * 2_000_000_000_000_000_000,
                tw <= i * 1_000_000,
            decreases lps.len() - i,
        {
            proof {
                assert(lps.take(i as int + 1).drop_last() =~= lps.take(i as int));
                assert(lps.take(i as int + 1).last() == lps[i as int]);
                assert(i * 2_000_000_000_000_000_000 <= 0xFFFF_FFFF_FFFF_FFFFu64
                    * 2_000_000_000_000_000_000) by (nonlinear_arith)
                    requires i <= 0xFFFF_FFFF_FFFF_FFFFu64;
                assert(i * 1_000_000 <= 0xFFFF_FFFF_FFFF_FFFFu64 * 1_000_000) by (nonlinear_arith)
                    requires i <= 0xFFFF_FFFF_FFFF_FFFFu64;
            }
            let w: u64 = self.liquidity_providers[i].weight;
            let m: u64 = self.liquidity_providers[i].spread_markup;
            let p: u64 = match side {
                OrderSide::Buy => base_price + m,
                OrderSide::Sell => {
                    if base_price >= m {
                        base_price - m
                    } else {
                        0
                    }
                },
            };
            proof {
                assert(p == lp_price(lps[i as int], base_price, side));
                assert(w * p <= 1_000_000u64 * 2_000_000_000_000u64) by (nonlinear_arith)
                    requires 0 <= w <= 1_000_000u64 && 0 <= p <= 2_000_000_000_000u64;
            }
            ws = ws + (w as u128) * (p as u128);
            tw = tw + (w as u128);
            i += 1;
        }
        proof {
            assert(lps.take(lps.len() as int) =~= lps);
        }
        if tw == 0 {
            base_price
        } else {
            let mean: u128 = ws / tw;
            proof {
                vstd::arithmetic::div_mod::lemma_div_pos_is_pos(ws as int, tw as int);
            }
            if mean > PRICE_LIMIT as u128 {
                PRICE_LIMIT
            } else {
                mean as u64
            }
        }
    }

    /// Stage one of the pipeline: the execution-model price adjustment.
    fn adjust_price_for_execution(&self, price: u64, side: OrderSide) -> (r: u64)
        requires
            self.wf(),
            price <= PRICE_LIMIT,
        ensures
            r == spec_adjusted_price(*self, price, side),
            r <= PRICE_LIMIT,
    {
        match self.broker_type {
            BrokerType::DirectAccess => price,
            BrokerType::MarketMaker => {
                let half: u64 = self.spread / 2;
                match side {
                    OrderSide::Buy => {
                        if price + half > PRICE_LIMIT {
                            PRICE_LIMIT
                        } else {
                            price + half
                        }
                    },
                    OrderSide::Sell => {
                        if price >= half {
                            price - half
                        } else {
                            0
                        }
                    },
                }
            },
            _ => self.aggregate_liquidity_provider_prices(price, side),
        }
    }

    /// Rewrite an order's price through the three-stage pipeline with the
    /// given draws: `None` means the stochastic stage did not fire.
    pub fn process_order_with(
        &self,
        order: Order,
        slippage_draw: Option<u64>,
        requote_draw: Option<i64>,
    ) -> (r: Order)
        requires
            self.wf(),
            order.price <= PRICE_LIMIT,
            slippage_draw matches Some(s) ==> s < self.slippage_factor,
            requote_draw matches Some(u) ==> -1_000_000 <= u <= 1_000_000,
        ensures
            r == with_price(
                order,
                spec_pipeline_price(*self, order.price, order.side, slippage_draw, requote_draw),
            ),
            r.price <= PRICE_LIMIT,
    {
        let ghost o = order;
        let side = order.side;
        let p1 = self.adjust_price_for_execution(order.price, side);
        let p2: u64 = match slippage_draw {
            None => p1,
            Some(s) => match side {
                OrderSide::Buy => {
                    if p1 + s > PRICE_LIMIT {
                        PRICE_LIMIT
                    } else {
                        p1 + s
                    }
                },
                OrderSide::Sell => {
                    if p1 >= s {
                        p1 - s
                    } else {
                        0
                    }
                },
            },
        };
        let p3: u64 = match requote_draw {
            None => p2,
            Some(u) => apply_ppm(p2, u),
        };
        let r = Order { price: p3, ..order };
        proof {
            assert(r == with_price(o, p3));
        }
        r
    }

    /// Rewrite an order through the pipeline, drawing slippage (30 % of
    /// calls, uniform below the broker's slippage factor) and requotes
    /// (with the broker's requote probability, within ±0.05 %) at random.
    /// Whatever was drawn, the result is a pipeline outcome for some
    /// in-range draws, and only the price changes.
    pub fn process_order(&self, order: Order) -> (r: Order)
        requires
            self.wf(),
            order.price <= PRICE_LIMIT,
        ensures
            exists|sd: Option<u64>, rd: Option<i64>|
                {
                    &&& r == with_price(
                        order,
                        #[trigger] spec_pipeline_price(*self, order.price, order.side, sd, rd),
                    )
                    &&& (sd matches Some(s) ==> s < self.slippage_factor)
                    &&& (rd matches Some(u) ==> -500 <= u < 500)
                },
            r.id == order.id,
            r.symbol == order.symbol,
            r.side == order.side,
            r.amount == order.amount,
            r.timestamp == order.timestamp,
            r.participant_id == order.participant_id,
            r.order_type == order.order_type,
            r.price <= PRICE_LIMIT,
    {
        let slippage_draw: Option<u64> = if rng::gen_bool_ppm(300_000) {
            Some(rng::gen_range_u64(0, self.slippage_factor))
        } else {
            None
        };
        let requote_draw: Option<i64> = if rng::gen_bool_ppm(self.requote_probability) {
            Some(rng::gen_range_i64(-500, 500))
        } else {
            None
        };
        let r = self.process_order_with(order, slippage_draw, requote_draw);
        proof {
            assert(r == with_price(
                order,
                spec_pipeline_price(*self, order.price, order.side, slippage_draw, requote_draw),
            ));
        }
        r
    }

    /// Commission in micro-units of account currency: ECN charges its
    /// configured commission per standard lot, direct access charges one
    /// millionth of the volume, spread-based brokers charge nothing.
    pub fn calculate_commission(&self, volume: u64) -> (r: u128)
        requires
            self.wf(),
            volume <= VOLUME_LIMIT,
        ensures
            r == match self.broker_type {
                BrokerType::ECN => self.commission * volume / 100_000,
                BrokerType::DirectAccess => volume as int,
                _ => 0,
            },
    {
        match self.broker_type {
            BrokerType::ECN => {
                proof {
                    assert(self.commission * volume <= 1_000_000_000_000u64
                        * 1_000_000_000_000u64) by (nonlinear_arith)
                        requires
                            0 <= self.commission <= 1_000_000_000_000u64,
                            0 <= volume <= 1_000_000_000_000u64,
                    ;
                }
                (self.commission as u128) * (volume as u128) / 100_000
            },
            BrokerType::DirectAccess => volume as u128,
            _ => 0,
        }
    }

    /// Swap (overnight financing) in micro-units of account currency; the
    /// per-symbol, per-side rate times the volume. Unknown symbols carry
    /// no swap.
    pub fn calculate_swap(&self, symbol: &str, side: OrderSide, volume: u64) -> (r: i128)
        requires
            volume <= VOLUME_LIMIT,
        ensures
            r == swap_rate_of(symbol@, side) * volume,
    {
        let rate: i64 = if str_eq(symbol, "EURUSD") {
            match side {
                OrderSide::Buy => -5,
                OrderSide::Sell => -21,
            }
        } else if str_eq(symbol, "GBPUSD") {
            match side {
                OrderSide::Buy => 8,
                OrderSide::Sell => -32,
            }
        } else if str_eq(symbol, "USDJPY") {
            match side {
                OrderSide::Buy => 21,
                OrderSide::Sell => -54,
            }
        } else {
            0
        };
        proof {
            assert(rate * volume <= 54 * 1_000_000_000_000i128 && rate * volume >= -54
                * 1_000_000_000_000i128) by (nonlinear_arith)
                requires
                    -54 <= rate <= 54,
                    0 <= volume <= 1_000_000_000_000u64,
            ;
        }
        (rate as i128) * (volume as i128)
    }

    /// The spread a client sees: the symbol's base spread plus the
    /// broker's configured spread, micro-units.
    pub fn get_effective_spread(&self, symbol: &str) -> (r: u64)
        requires
            self.wf(),
        ensures
            r == base_spread_of(symbol@) + self.spread,
    {
        let base: u64 = if str_eq(symbol, "EURUSD") {
            150
        } else if str_eq(symbol, "GBPUSD") {
            200
        } else if str_eq(symbol, "USDJPY") {
            15_000
        } else {
            200
        };
        base + self.spread
    }

    /// The admission rule with the market maker's stochastic draw made
    /// explicit: the amount must lie inside the broker's trade-size bounds,
    /// and a market maker additionally requires `accepted`.
    pub fn can_execute_order_with(&self, order: &Order, accepted: bool) -> (r: bool)
        ensures
            r == (self.spec_size_ok(*order) && (self.broker_type != BrokerType::MarketMaker
                || accepted)),
    {
        if order.amount < self.min_trade_size || order.amount > self.max_trade_size {
            return false;
        }
        match self.broker_type {
            BrokerType::MarketMaker => accepted,
            _ => true,
        }
    }

    /// Admission: the amount must lie inside the broker's trade-size
    /// bounds; a market maker additionally rejects 5 % of orders at
    /// random.
    pub fn can_execute_order(&self, order: &Order) -> (r: bool)
        ensures
            r ==> self.spec_size_ok(*order),
            self.broker_type != BrokerType::MarketMaker ==> r == self.spec_size_ok(*order),
    {
        let accepted = !rng::gen_bool_ppm(50_000);
        self.can_execute_order_with(order, accepted)
    }

    /// A random execution latency in the model's documented band,
    /// milliseconds.
    pub fn get_execution_speed_ms(&self) -> (r: u64)
        ensures
            match self.execution_model {
                ExecutionModel::InstantExecution => 1 <= r < 10,
                ExecutionModel::MarketExecution => 10 <= r < 50,
                ExecutionModel::RequestExecution => 100 <= r < 500,
                ExecutionModel::ExchangeExecution => 1 <= r < 5,
            },
    {
        match self.execution_model {
            ExecutionModel::InstantExecution => rng::gen_range_u64(1, 10),
            ExecutionModel::MarketExecution => rng::gen_range_u64(10, 50),
            ExecutionModel::RequestExecution => rng::gen_range_u64(100, 500),
            ExecutionModel::ExchangeExecution => rng::gen_range_u64(1, 5),
        }
    }

    /// The margin a trade requires, micro-units of account currency.
    pub fn get_margin_requirement(&self, symbol: &str, volume: u64, leverage: u64) -> (r: u128)
        requires
            self.wf(),
            leverage >= 1,
            volume <= VOLUME_LIMIT,
        ensures
            r == self.spec_margin(symbol@, volume, leverage),
    {
        let effective: u64 = if leverage <= self.max_leverage {
            leverage
        } else {
            self.max_leverage
        };
        let scale: u128 = if str_eq(symbol, "USDJPY") {
            100_000_000
        } else {
            1_000_000
        };
        proof {
            assert(volume * scale <= 1_000_000_000_000u64 * 100_000_000u64) by (nonlinear_arith)
                requires
                    0 <= volume <= 1_000_000_000_000u64,
                    0 <= scale <= 100_000_000u64,
            ;
            vstd::arithmetic::div_mod::lemma_div_pos_is_pos(
                (volume * scale) as int,
                effective as int,
            );
        }
        let notional: u128 = (volume as u128) * scale;
        notional / (effective as u128)
    }

    /// The symbols this broker offers.
    pub fn get_available_symbols(&self) -> (r: Vec<String>)
        ensures
            match self.broker_type {
                BrokerType::DirectAccess => r@.len() == 10,
                BrokerType::ECN => r@.len() == 6,
                _ => r@.len() == 3,
            },
            r@.len() >= 3,
            r@[0]@ == "EURUSD"@,
            r@[1]@ == "GBPUSD"@,
            r@[2]@ == "USDJPY"@,
            r@.len() >= 6 ==> r@[3]@ == "USDCHF"@ && r@[4]@ == "AUDUSD"@ && r@[5]@ == "USDCAD"@,
            r@.len() == 10 ==> r@[6]@ == "NZDUSD"@ && r@[7]@ == "EURGBP"@ && r@[8]@ == "EURJPY"@
                && r@[9]@ == "GBPJPY"@,
    {
        let mut v: Vec<String> = Vec::new();
        v.push("EURUSD".to_owned());
        v.push("GBPUSD".to_owned());
        v.push("USDJPY".to_owned());
        match self.broker_type {
            BrokerType::DirectAccess => {
                v.push("USDCHF".to_owned());
                v.push("AUDUSD".to_owned());
                v.push("USDCAD".to_owned());
                v.push("NZDUSD".to_owned());
                v.push("EURGBP".to_owned());
                v.push("EURJPY".to_owned());
                v.push("GBPJPY".to_owned());
            },
            BrokerType::ECN => {
                v.push("USDCHF".to_owned());
                v.push("AUDUSD".to_owned());
                v.push("USDCAD".to_owned());
            },
            _ => {},
        }
        v
    }
}

/// A weight-scaled sum over Buy-side provider prices is at least the total
/// weight times the base price.
proof fn lemma_weighted_sum_buy_ge(lps: Seq<LiquidityProvider>, price: u64)
    ensures
        total_weight(lps) >= 0,
        weighted_sum(lps, price, OrderSide::Buy) >= total_weight(lps) * price,
    decreases lps.len(),
{
    if lps.len() == 0 {
        assert(0 * price == 0) by (nonlinear_arith);
    } else {
        lemma_weighted_sum_buy_ge(lps.drop_last(), price);
        let w = lps.last().weight as int;
        let p = lp_price(lps.last(), price, OrderSide::Buy);
        assert(w * p >= w * price) by (nonlinear_arith)
            requires w >= 0 && p >= price;
        assert((total_weight(lps.drop_last()) + w) * price == total_weight(lps.drop_last()) * price
            + w * price) by (nonlinear_arith);
    }
}

/// On the Buy side the aggregated provider price never falls below the
/// base price.
proof fn lemma_lp_aggregate_buy_ge(lps: Seq<LiquidityProvider>, price: u64)
    requires
        price <= PRICE_LIMIT,
    ensures
        lp_aggregate(lps, price, OrderSide::Buy) >= price,
{
    let tw = total_weight(lps);
    lemma_weighted_sum_buy_ge(lps, price);
    if tw != 0 {
        let ws = weighted_sum(lps, price, OrderSide::Buy);
        vstd::arithmetic::div_mod::lemma_div_multiples_vanish(price as int, tw);
        vstd::arithmetic::div_mod::lemma_div_is_ordered(tw * price, ws, tw);
        assert(tw * price == (price as int) * tw) by (nonlinear_arith);
    }
}

/// A Buy order's price can only move up (and stays in band) through the
/// pipeline: whatever the draws, a positive price stays positive.
pub proof fn lemma_pipeline_buy_positive(
    b: Broker,
    price: u64,
    sd: Option<u64>,
    rd: Option<i64>,
)
    requires
        b.wf(),
        1 <= price <= PRICE_LIMIT,
    ensures
        spec_pipeline_price(b, price, OrderSide::Buy, sd, rd) >= 1,
{
    let p1 = spec_adjusted_price(b, price, OrderSide::Buy);
    assert(p1 >= 1) by {
        match b.broker_type {
            BrokerType::DirectAccess => {},
            BrokerType::MarketMaker => {},
            _ => {
                lemma_lp_aggregate_buy_ge(b.liquidity_providers@, price);
            },
        }
    }
    let p2 = spec_slipped_price(p1, OrderSide::Buy, sd);
    assert(p2 >= 1);
    match rd {
        None => {},
        Some(u) => {
            assert(spec_requoted_price(p2, rd) >= 1);
        },
    }
}

/// Raising the leverage, up to the broker's cap, strictly lowers the
/// required margin (for any positive volume).
pub proof fn lemma_margin_strictly_decreasing(
    b: Broker,
    sym: Seq<char>,
    volume: u64,
    l1: u64,
    l2: u64,
)
    requires
        b.wf(),
        1 <= l1 < l2 <= b.max_leverage,
        volume >= 1,
    ensures
        b.spec_margin(sym, volume, l2) < b.spec_margin(sym, volume, l1),
{
    let n = spec_notional(sym, volume);
    assert(n >= 1_000_000) by (nonlinear_arith)
        requires
            volume >= 1,
            n == spec_notional(sym, volume),
            n == volume * 100_000_000 || n == volume * 1_000_000,
    ;
    let a = l1 as int;
    let c = l2 as int;
    assert(a * c <= n) by (nonlinear_arith)
        requires 1 <= a <= 1000 && 1 <= c <= 1000 && n >= 1_000_000;
    let q2 = n / c;
    vstd::arithmetic::div_mod::lemma_fundamental_div_mod(n, c);
    vstd::arithmetic::div_mod::lemma_mod_bound(n, c);
    assert(c * q2 <= n);
    // q2 >= l1 because n >= l1 * l2.
    vstd::arithmetic::div_mod::lemma_div_multiples_vanish(a, c);
    vstd::arithmetic::div_mod::lemma_div_is_ordered(c * a, n, c);
    assert(a * c == c * a) by (nonlinear_arith);
    assert(q2 >= a);
    // Hence (q2 + 1) * l1 <= n, so the margin at l1 exceeds q2.
    assert((q2 + 1) * a <= n) by (nonlinear_arith)
        requires
            c * q2 <= n,
            q2 >= a,
            a + 1 <= c,
            a >= 1,
    ;
    vstd::arithmetic::div_mod::lemma_div_multiples_vanish(q2 + 1, a);
    vstd::arithmetic::div_mod::lemma_div_is_ordered(a * (q2 + 1), n, a);
    assert(a * (q2 + 1) == (q2 + 1) * a) by (nonlinear_arith);
    assert(n / a >= q2 + 1);
}

/// Beyond the broker's leverage cap the required margin stays constant.
pub proof fn lemma_margin_constant_beyond_cap(
    b: Broker,
    sym: Seq<char>,
    volume: u64,
    l1: u64,
    l2: u64,
)
    requires
        b.wf(),
        l1 >= b.max_leverage,
        l2 >= b.max_leverage,
    ensures
        b.spec_margin(sym, volume, l1) == b.spec_margin(sym, volume, l2),
{
}

/// Build one liquidity provider.
fn lp(name: &str, tier: u8, weight: u64, spread_markup: u64) -> (r: LiquidityProvider)
    ensures
        r.name@ == name@,
        r.tier == tier,
        r.weight == weight,
        r.spread_markup == spread_markup,
{
    LiquidityProvider { name: name.to_owned(), tier, weight, spread_markup }
}

/// The provider list a broker type starts with.
fn generate_liquidity_providers(broker_type: BrokerType) -> (r: Vec<LiquidityProvider>)
    ensures
        lps_match(broker_type, r@),
        forall|i: int|
            0 <= i < r@.len() ==> (#[trigger] r@[i]).weight <= PPM_SCALE && r@[i].spread_markup
                <= PRICE_LIMIT,
{
    let mut v: Vec<LiquidityProvider> = Vec::new();
    match broker_type {
        BrokerType::DirectAccess => {
            v.push(lp("Liquidity Pool Direct", 0, 100, 0));
        },
        BrokerType::ECN => {
            v.push(lp("Deutsche Bank", 1, 25, 50));
            v.push(lp("Citibank", 1, 25, 80));
            v.push(lp("JP Morgan", 1, 25, 60));
            v.push(lp("UBS", 1, 25, 70));
        },
        BrokerType::MarketMaker => {
            v.push(lp("Internal Market Making", 3, 100, 200));
        },
        BrokerType::STP => {
            v.push(lp("Bank Consortium", 2, 60, 120));
            v.push(lp("ECN Pool", 1, 40, 80));
        },
        BrokerType::Hybrid => {
            v.push(lp("Tier 1 Banks", 1, 70, 100));
            v.push(lp("Internal MM", 3, 30, 150));
        },
    }
    v
}

} // verus!
