//! Synthetic market participants: account records with balances, open
//! positions and typed trading profiles, plus their position bookkeeping.

use vstd::prelude::*;
use vstd::string::*;

use crate::fixed::{
    BALANCE_LIMIT, PRICE_LIMIT, VOLUME_LIMIT, PPM_SCALE, clamp_money, money_add,
};
use crate::orderbook::OrderSide;
use crate::rng;
use crate::text::str_eq;

verus! {

/// The kinds of participants the simulator populates.
#[derive(Clone, Copy, Debug, PartialEq, Eq, Structural)]
pub enum ParticipantType {
    Bank,
    Trader,
    HedgeFund,
    Corporation,
    Government,
    RetailTrader,
}

/// The strategy profile that drives a participant's per-tick activity.
#[derive(Clone, Copy, Debug, PartialEq, Eq, Structural)]
pub enum TradingStrategy {
    Conservative,
    Moderate,
    Aggressive,
    HighFrequency,
    Arbitrage,
    TrendFollowing,
    MeanReversion,
    MarketMaking,
}

/// An open position of one participant in one symbol.
#[derive(Clone, Debug)]
pub struct Position {
    pub symbol: String,
    pub side: OrderSide,
    /// Base-currency units, positive.
    pub volume: u64,
    /// Micro-units, positive.
    pub entry_price: u64,
    pub current_price: u64,
    /// Micro-units of account currency.
    pub unrealized_pnl: i128,
    pub timestamp: i64,
}

/// A participant may hold at most this many open positions.
pub const MAX_POSITIONS: usize = 65_536;

/// The mark-to-market profit of a position: price move times volume,
/// signed by the side.
pub open spec fn pnl_of(side: OrderSide, volume: u64, entry: u64, current: u64) -> int {
    if side == OrderSide::Buy {
        (current - entry) * volume
    } else {
        (entry - current) * volume
    }
}

/// Total unrealized profit across a list of positions.
pub open spec fn sum_pnl(ps: Seq<Position>) -> int
    decreases ps.len(),
{
    if ps.len() == 0 {
        0
    } else {
        sum_pnl(ps.drop_last()) + ps.last().unrealized_pnl
    }
}

/// No two positions share a symbol.
pub open spec fn symbols_unique(ps: Seq<Position>) -> bool {
    forall|i: int, j: int|
        0 <= i < j < ps.len() ==> (#[trigger] ps[i]).symbol@ != (#[trigger] ps[j]).symbol@
}

impl Position {
    /// A position's invariant: bounded positive volume and prices, and a
    /// profit figure that matches its prices.
    pub open spec fn wf(self) -> bool {
        &&& 0 < self.volume <= VOLUME_LIMIT
        &&& 0 < self.entry_price <= PRICE_LIMIT
        &&& 0 < self.current_price <= PRICE_LIMIT
        &&& self.unrealized_pnl == pnl_of(self.side, self.volume, self.entry_price, self.current_price)
    }

    /// Open a position at its entry price; the unrealized profit starts
    /// at zero.
    pub fn new(symbol: String, side: OrderSide, volume: u64, entry_price: u64, now: i64) -> (r:
        Position)
        requires
            0 < volume <= VOLUME_LIMIT,
            0 < entry_price <= PRICE_LIMIT,
        ensures
            r.wf(),
            r.symbol == symbol,
            r.side == side,
            r.volume == volume,
            r.entry_price == entry_price,
            r.current_price == entry_price,
            r.unrealized_pnl == 0,
            r.timestamp == now,
    {
        Position {
            symbol,
            side,
            volume,
            entry_price,
            current_price: entry_price,
            unrealized_pnl: 0,
            timestamp: now,
        }
    }

    /// Mark the position to a new price and recompute its profit. Marking
    /// back to the entry price always brings the profit to exactly zero.
    pub fn update_price(&mut self, new_price: u64)
        requires
            old(self).wf(),
            0 < new_price <= PRICE_LIMIT,
        ensures
            final(self).wf(),
            final(self).current_price == new_price,
            final(self).unrealized_pnl == pnl_of(
                old(self).side,
                old(self).volume,
                old(self).entry_price,
                new_price,
            ),
            new_price == old(self).entry_price ==> final(self).unrealized_pnl == 0,
            final(self).symbol == old(self).symbol,
            final(self).side == old(self).side,
            final(self).volume == old(self).volume,
            final(self).entry_price == old(self).entry_price,
            final(self).timestamp == old(self).timestamp,
    {
        self.current_price = new_price;
        let diff: i128 = match self.side {
            OrderSide::Buy => new_price as i128 - self.entry_price as i128,
            OrderSide::Sell => self.entry_price as i128 - new_price as i128,
        };
        proof {
            assert(diff * self.volume <= 1_000_000_000_000i128 * 1_000_000_000_000i128 && diff
                * self.volume >= -1_000_000_000_000i128 * 1_000_000_000_000i128)
                by (nonlinear_arith)
                requires
                    -1_000_000_000_000i128 <= diff <= 1_000_000_000_000i128,
                    0 <= self.volume <= 1_000_000_000_000u64,
            ;
            if diff == 0 {
                assert(diff * self.volume == 0) by (nonlinear_arith)
                    requires diff == 0i128;
            }
        }
        self.unrealized_pnl = diff * self.volume as i128;
    }

    pub fn get_unrealized_pnl(&self) -> (r: i128)
        ensures
            r == self.unrealized_pnl,
    {
        self.unrealized_pnl
    }

    /// The position's return relative to its entry price, in micro-percent
    /// (one percent is 1_000_000), rounded toward zero.
    pub fn get_return_percentage(&self) -> (r: i128)
        requires
            self.wf(),
        ensures
            r == spec_return_percentage(*self),
    {
        let (gain, up): (u64, bool) = match self.side {
            OrderSide::Buy => {
                if self.current_price >= self.entry_price {
                    (self.current_price - self.entry_price, true)
                } else {
                    (self.entry_price - self.current_price, false)
                }
            },
            OrderSide::Sell => {
                if self.entry_price >= self.current_price {
                    (self.entry_price - self.current_price, true)
                } else {
                    (self.current_price - self.entry_price, false)
                }
            },
        };
        let scaled: u128 = (gain as u128) * 100_000_000 / (self.entry_price as u128);
        proof {
            vstd::arithmetic::div_mod::lemma_div_pos_is_pos(
                (gain * 100_000_000) as int,
                self.entry_price as int,
            );
            assert(gain * 100_000_000 <= 1_000_000_000_000u64 * 100_000_000u64)
                by (nonlinear_arith)
                requires 0 <= gain <= 1_000_000_000_000u64;
            vstd::arithmetic::div_mod::lemma_div_is_ordered(
                (gain * 100_000_000) as int,
                1_000_000_000_000i128 * 100_000_000i128,
                self.entry_price as int,
            );
        }
        if up {
            scaled as i128
        } else {
            -(scaled as i128)
        }
    }
}

/// The favourable move of a position in micro-percent of the entry price:
/// the magnitude of the price move scaled by one hundred million and
/// divided by the entry price, signed by whether the move favours the
/// side.
pub open spec fn spec_return_percentage(p: Position) -> int {
    let up = if p.side == OrderSide::Buy {
        p.current_price >= p.entry_price
    } else {
        p.entry_price >= p.current_price
    };
    let gain = if p.current_price >= p.entry_price {
        p.current_price - p.entry_price
    } else {
        p.entry_price - p.current_price
    };
    if up {
        gain * 100_000_000 / (p.entry_price as int)
    } else {
        -(gain * 100_000_000 / (p.entry_price as int))
    }
}

/// The leverage each participant type trades with.
pub open spec fn leverage_for(t: ParticipantType) -> u64 {
    match t {
        ParticipantType::Bank => 50u64,
        ParticipantType::HedgeFund => 10u64,
        ParticipantType::Corporation => 5u64,
        ParticipantType::Government => 1u64,
        ParticipantType::Trader => 100u64,
        ParticipantType::RetailTrader => 30u64,
    }
}

/// The strategy each participant type follows.
pub open spec fn strategy_for(t: ParticipantType) -> TradingStrategy {
    match t {
        ParticipantType::Bank => TradingStrategy::MarketMaking,
        ParticipantType::HedgeFund => TradingStrategy::Aggressive,
        ParticipantType::Corporation => TradingStrategy::Conservative,
        ParticipantType::Government => TradingStrategy::Conservative,
        ParticipantType::Trader => TradingStrategy::HighFrequency,
        ParticipantType::RetailTrader => TradingStrategy::Moderate,
    }
}

/// The risk tolerance of each participant type, parts per million.
pub open spec fn risk_for(t: ParticipantType) -> u64 {
    match t {
        ParticipantType::Bank => 300_000u64,
        ParticipantType::HedgeFund => 800_000u64,
        ParticipantType::Corporation => 200_000u64,
        ParticipantType::Government => 100_000u64,
        ParticipantType::Trader => 600_000u64,
        ParticipantType::RetailTrader => 400_000u64,
    }
}

/// The per-tick activity probability of each strategy, parts per million.
pub open spec fn spec_activity_ppm(s: TradingStrategy) -> u64 {
    match s {
        TradingStrategy::HighFrequency => 100_000u64,
        TradingStrategy::Aggressive => 50_000u64,
        TradingStrategy::Moderate => 20_000u64,
        TradingStrategy::Conservative => 10_000u64,
        TradingStrategy::MarketMaking => 150_000u64,
        TradingStrategy::Arbitrage => 80_000u64,
        TradingStrategy::TrendFollowing => 30_000u64,
        TradingStrategy::MeanReversion => 40_000u64,
    }
}

/// The per-tick activity probability of a strategy, parts per million.
pub fn activity_probability_ppm(s: TradingStrategy) -> (r: u64)
    ensures
        r == spec_activity_ppm(s),
{
    match s {
        TradingStrategy::HighFrequency => 100_000,
        TradingStrategy::Aggressive => 50_000,
        TradingStrategy::Moderate => 20_000,
        TradingStrategy::Conservative => 10_000,
        TradingStrategy::MarketMaking => 150_000,
        TradingStrategy::Arbitrage => 80_000,
        TradingStrategy::TrendFollowing => 30_000,
        TradingStrategy::MeanReversion => 40_000,
    }
}

/// A market participant's account record.
#[derive(Clone, Debug)]
pub struct Participant {
    pub id: String,
    pub name: String,
    pub participant_type: ParticipantType,
    /// Micro-units of account currency.
    pub balance: i128,
    /// Micro-units; always `balance` plus the unrealized profit of the
    /// open positions (clamped to the representable band).
    pub equity: i128,
    pub margin_used: i128,
    pub leverage: u64,
    pub positions: Vec<Position>,
    pub trading_strategy: TradingStrategy,
    /// Parts per million.
    pub risk_tolerance: u64,
    pub active: bool,
}

impl Participant {
    /// The account invariant: bounded money fields, well-formed positions
    /// with unique symbols, and equity equal to balance plus unrealized
    /// profit.
    pub open spec fn wf(self) -> bool {
        &&& -BALANCE_LIMIT <= self.balance <= BALANCE_LIMIT
        &&& 0 <= self.margin_used <= BALANCE_LIMIT
        &&& 1 <= self.leverage <= 1000
        &&& self.risk_tolerance <= PPM_SCALE
        &&& self.positions@.len() <= MAX_POSITIONS
        &&& symbols_unique(self.positions@)
        &&& forall|i: int| 0 <= i < self.positions@.len() ==> (#[trigger] self.positions@[i]).wf()
        &&& self.equity == clamp_money(self.balance + sum_pnl(self.positions@))
    }

    /// A participant of the given type with the given starting balance;
    /// leverage, strategy and risk tolerance derive from the type.
    pub fn new(id: String, name: String, participant_type: ParticipantType, initial_balance: i128)
        -> (r: Participant)
        requires
            0 <= initial_balance <= BALANCE_LIMIT,
        ensures
            r.wf(),
            r.id == id,
            r.name == name,
            r.participant_type == participant_type,
            r.balance == initial_balance,
            r.equity == initial_balance,
            r.margin_used == 0,
            r.leverage == leverage_for(participant_type),
            r.positions@.len() == 0,
            r.trading_strategy == strategy_for(participant_type),
            r.risk_tolerance == risk_for(participant_type),
            r.active,
    {
        let leverage: u64 = match participant_type {
            ParticipantType::Bank => 50,
            ParticipantType::HedgeFund => 10,
            ParticipantType::Corporation => 5,
            ParticipantType::Government => 1,
            ParticipantType::Trader => 100,
            ParticipantType::RetailTrader => 30,
        };
        let trading_strategy = match participant_type {
            ParticipantType::Bank => TradingStrategy::MarketMaking,
            ParticipantType::HedgeFund => TradingStrategy::Aggressive,
            ParticipantType::Corporation => TradingStrategy::Conservative,
            ParticipantType::Government => TradingStrategy::Conservative,
            ParticipantType::Trader => TradingStrategy::HighFrequency,
            ParticipantType::RetailTrader => TradingStrategy::Moderate,
        };
        let risk_tolerance: u64 = match participant_type {
            ParticipantType::Bank => 300_000,
            ParticipantType::HedgeFund => 800_000,
            ParticipantType::Corporation => 200_000,
            ParticipantType::Government => 100_000,
            ParticipantType::Trader => 600_000,
            ParticipantType::RetailTrader => 400_000,
        };
        Participant {
            id,
            name,
            participant_type,
            balance: initial_balance,
            equity: initial_balance,
            margin_used: 0,
            leverage,
            positions: Vec::new(),
            trading_strategy,
            risk_tolerance,
            active: true,
        }
    }

    /// A bank with a random balance between ten million and one billion
    /// account-currency units.
    pub fn new_bank(id: String) -> (r: Participant)
        ensures
            r.wf(),
            r.id == id,
            r.name@ == "Bank "@ + id@,
            r.participant_type == ParticipantType::Bank,
            10_000_000_000_000 <= r.balance < 1_000_000_000_000_000,
            r.positions@.len() == 0,
            r.active,
    {
        let balance = rng::gen_range_u64(10_000_000_000_000, 1_000_000_000_000_000);
        let name = "Bank ".to_owned().concat(id.as_str());
        Participant::new(id, name, ParticipantType::Bank, balance as i128)
    }

    /// A trader with a random balance between one hundred thousand and ten
    /// million account-currency units.
    pub fn new_trader(id: String) -> (r: Participant)
        ensures
            r.wf(),
            r.id == id,
            r.name@ == "Trader "@ + id@,
            r.participant_type == ParticipantType::Trader,
            100_000_000_000 <= r.balance < 10_000_000_000_000,
            r.positions@.len() == 0,
            r.active,
    {
        let balance = rng::gen_range_u64(100_000_000_000, 10_000_000_000_000);
        let name = "Trader ".to_owned().concat(id.as_str());
        Participant::new(id, name, ParticipantType::Trader, balance as i128)
    }

    /// A hedge fund with a random balance between fifty and five hundred
    /// million account-currency units.
    pub fn new_hedge_fund(id: String) -> (r: Participant)
        ensures
            r.wf(),
            r.id == id,
            r.name@ == "HedgeFund "@ + id@,
            r.participant_type == ParticipantType::HedgeFund,
            50_000_000_000_000 <= r.balance < 500_000_000_000_000,
            r.positions@.len() == 0,
            r.active,
    {
        let balance = rng::gen_range_u64(50_000_000_000_000, 500_000_000_000_000);
        let name = "HedgeFund ".to_owned().concat(id.as_str());
        Participant::new(id, name, ParticipantType::HedgeFund, balance as i128)
    }

    /// A retail trader with a random balance between one thousand and one
    /// hundred thousand account-currency units.
    pub fn new_retail_trader(id: String) -> (r: Participant)
        ensures
            r.wf(),
            r.id == id,
            r.name@ == "RetailTrader "@ + id@,
            r.participant_type == ParticipantType::RetailTrader,
            1_000_000_000 <= r.balance < 100_000_000_000,
            r.positions@.len() == 0,
            r.active,
    {
        let balance = rng::gen_range_u64(1_000_000_000, 100_000_000_000);
        let name = "RetailTrader ".to_owned().concat(id.as_str());
        Participant::new(id, name, ParticipantType::RetailTrader, balance as i128)
    }

    /// A participant of a uniformly drawn non-bank type.
    pub fn new_random(id: String) -> (r: Participant)
        ensures
            r.wf(),
            r.id == id,
            r.positions@.len() == 0,
            r.active,
            r.participant_type == ParticipantType::Trader || r.participant_type
                == ParticipantType::RetailTrader || r.participant_type
                == ParticipantType::HedgeFund || r.participant_type
                == ParticipantType::Corporation,
    {
        let pick = rng::gen_range_u64(0, 4);
        if pick == 0 {
            Participant::new_trader(id)
        } else if pick == 1 {
            Participant::new_retail_trader(id)
        } else if pick == 2 {
            Participant::new_hedge_fund(id)
        } else {
            let balance = rng::gen_range_u64(1_000_000_000_000, 100_000_000_000_000);
            let name = "Corp ".to_owned().concat(id.as_str());
            Participant::new(id, name, ParticipantType::Corporation, balance as i128)
        }
    }

    /// The index of this participant's position in `symbol`, if any.
    fn find_position(&self, symbol: &str) -> (r: Option<usize>)
        ensures
            match r {
                Some(i) => i < self.positions@.len() && self.positions@[i as int].symbol@
                    == symbol@,
                None => forall|i: int|
                    0 <= i < self.positions@.len() ==> (#[trigger] self.positions@[i]).symbol@
                        != symbol@,
            },
    {
        let mut i: usize = 0;
        while i < self.positions.len()
            invariant
                i <= self.positions@.len(),
                forall|k: int|
                    0 <= k < i ==> (#[trigger] self.positions@[k]).symbol@ != symbol@,
            decreases self.positions@.len() - i,
        {
            if str_eq(self.positions[i].symbol.as_str(), symbol) {
                return Some(i);
            }
            i += 1;
        }
        None
    }

    /// Open or replace the position in the given symbol, then refresh the
    /// account's equity.
    pub fn add_position(&mut self, position: Position)
        requires
            old(self).wf(),
            position.wf(),
            old(self).positions@.len() < MAX_POSITIONS,
        ensures
            final(self).wf(),
            final(self).balance == old(self).balance,
            final(self).id == old(self).id,
            final(self).margin_used == old(self).margin_used,
            final(self).active == old(self).active,
            (exists|i: int|
                0 <= i < old(self).positions@.len() && (#[trigger] old(
                    self,
                ).positions@[i]).symbol@ == position.symbol@ && final(self).positions@ == old(
                    self,
                ).positions@.update(i, position)) || ((forall|i: int|
                0 <= i < old(self).positions@.len() ==> (#[trigger] old(
                    self,
                ).positions@[i]).symbol@ != position.symbol@) && final(self).positions@ == old(
                self,
            ).positions@.push(position)),
            final(self).equity == clamp_money(
                final(self).balance + sum_pnl(final(self).positions@),
            ),
    {
        let found = self.find_position(position.symbol.as_str());
        match found {
            Some(i) => {
                let ghost prepos = self.positions@;
                self.positions.remove(i);
                self.positions.insert(i, position);
                proof {
                    assert(self.positions@ =~= prepos.update(i as int, position));
                }
            },
            None => {
                self.positions.push(position);
            },
        }
        proof {
            assert(symbols_unique(self.positions@));
        }
        self.update_equity();
    }

    /// Close the position in the given symbol, realizing its unrealized
    /// profit into the balance (clamped to the representable band), and
    /// return it.
    pub fn close_position(&mut self, symbol: &str) -> (r: Option<Position>)
        requires
            old(self).wf(),
        ensures
            final(self).wf(),
            r is None ==> *final(self) == *old(self) && (forall|i: int|
                0 <= i < old(self).positions@.len() ==> (#[trigger] old(
                    self,
                ).positions@[i]).symbol@ != symbol@),
            r matches Some(p) ==> exists|i: int|
                {
                    &&& 0 <= i < old(self).positions@.len()
                    &&& p == old(self).positions@[i]
                    &&& (#[trigger] old(self).positions@[i]).symbol@ == symbol@
                    &&& final(self).positions@ == old(self).positions@.remove(i)
                    &&& final(self).balance == clamp_money(
                        old(self).balance + old(self).positions@[i].unrealized_pnl,
                    )
                },
            final(self).equity == clamp_money(
                final(self).balance + sum_pnl(final(self).positions@),
            ),
    {
        let found = self.find_position(symbol);
        match found {
            Some(i) => {
                let ghost prepos = self.positions@;
                let position = self.positions.remove(i);
                self.balance = money_add(self.balance, position.get_unrealized_pnl());
                proof {
                    prepos.remove_ensures(i as int);
                    assert(symbols_unique(self.positions@));
                }
                self.update_equity();
                Some(position)
            },
            None => None,
        }
    }

    /// Mark the position in `symbol` (if any) to a new price, recompute
    /// its profit, and refresh the account's equity. Marking back to the
    /// entry price zeroes the profit.
    pub fn update_position_price(&mut self, symbol: &str, new_price: u64)
        requires
            old(self).wf(),
            0 < new_price <= PRICE_LIMIT,
        ensures
            final(self).wf(),
            final(self).balance == old(self).balance,
            (forall|i: int|
                0 <= i < old(self).positions@.len() ==> (#[trigger] old(
                    self,
                ).positions@[i]).symbol@ != symbol@) ==> final(self).positions@ == old(
                self,
            ).positions@,
            (exists|i: int|
                0 <= i < old(self).positions@.len() && (#[trigger] old(
                    self,
                ).positions@[i]).symbol@ == symbol@) ==> exists|i: int|
                {
                    &&& 0 <= i < old(self).positions@.len()
                    &&& (#[trigger] old(self).positions@[i]).symbol@ == symbol@
                    &&& final(self).positions@ == old(self).positions@.update(
                        i,
                        marked(old(self).positions@[i], new_price),
                    )
                },
            final(self).equity == clamp_money(
                final(self).balance + sum_pnl(final(self).positions@),
            ),
    {
        let found = self.find_position(symbol);
        match found {
            Some(i) => {
                let ghost prepos = self.positions@;
                let mut position = self.positions.remove(i);
                position.update_price(new_price);
                self.positions.insert(i, position);
                proof {
                    assert(self.positions@ =~= prepos.update(
                        i as int,
                        marked(prepos[i as int], new_price),
                    ));
                    assert(symbols_unique(self.positions@));
                }
            },
            None => {},
        }
        self.update_equity();
    }

    /// Recompute the account's equity: balance plus the unrealized profit
    /// of every open position, clamped to the representable band.
    pub fn update_equity(&mut self)
        requires
            old(self).wf_except_equity(),
        ensures
            *final(self) == (Participant { equity: final(self).equity, ..*old(self) }),
            final(self).equity == clamp_money(
                old(self).balance + sum_pnl(old(self).positions@),
            ),
            final(self).wf(),
    {
        let total = sum_positions_pnl(&self.positions);
        self.equity = money_add(self.balance, total);
    }

    /// Equity available beyond the margin already in use.
    pub fn get_free_margin(&self) -> (r: i128)
        requires
            self.wf(),
        ensures
            r == self.equity - self.margin_used,
    {
        self.equity - self.margin_used
    }

    /// Whether a new position needing `required_margin` may be opened:
    /// enough free margin and an active account.
    pub fn can_open_position(&self, required_margin: i128) -> (r: bool)
        requires
            self.wf(),
            -BALANCE_LIMIT <= required_margin <= BALANCE_LIMIT,
        ensures
            r == (self.equity - self.margin_used >= required_margin && self.active),
    {
        self.get_free_margin() >= required_margin && self.active
    }

    /// The position size this participant would take at `price`, risking
    /// `risk_ppm` of equity (capped by its risk tolerance) with its
    /// leverage, in base-currency units. A non-positive equity sizes to
    /// zero.
    pub fn calculate_position_size(&self, price: u64, risk_ppm: u64) -> (r: u128)
        requires
            self.wf(),
            price >= 1,
            risk_ppm <= PPM_SCALE,
        ensures
            r == spec_position_size(*self, price, risk_ppm),
    {
        if self.equity <= 0 {
            return 0;
        }
        let risk: u64 = if risk_ppm <= self.risk_tolerance {
            risk_ppm
        } else {
            self.risk_tolerance
        };
        let equity: u128 = self.equity as u128;
        proof {
            assert(equity * risk <= 1_000_000_000_000_000_000_000_000_000_000i128 * 1_000_000u64)
                by (nonlinear_arith)
                requires
                    0 <= equity <= 1_000_000_000_000_000_000_000_000_000_000i128,
                    0 <= risk <= 1_000_000u64,
            ;
            vstd::arithmetic::div_mod::lemma_div_pos_is_pos((equity * risk) as int, 1_000_000int);
            vstd::arithmetic::div_mod::lemma_div_is_ordered(
                (equity * risk) as int,
                1_000_000_000_000_000_000_000_000_000_000i128 * 1_000_000u64,
                1_000_000int,
            );
            let ra = equity * risk / 1_000_000int;
            vstd::arithmetic::div_mod::lemma_div_pos_is_pos(ra, price as int);
            vstd::arithmetic::div_mod::lemma_div_nonincreasing(ra, price as int);
            let ps = ra / (price as int);
            assert(ps * self.leverage <= 1_000_000_000_000_000_000_000_000_000_000i128 * 1000i128)
                by (nonlinear_arith)
                requires
                    0 <= ps <= 1_000_000_000_000_000_000_000_000_000_000i128,
                    0 <= self.leverage <= 1000u64,
            ;
        }
        let risk_amount: u128 = equity * (risk as u128) / 1_000_000;
        let position_size: u128 = risk_amount / (price as u128);
        position_size * (self.leverage as u128)
    }

    /// Draw whether this participant acts this tick: an inactive account
    /// never trades; an active one trades with its strategy's probability.
    pub fn should_trade(&self) -> (r: bool)
        ensures
            !self.active ==> !r,
    {
        if !self.active {
            return false;
        }
        rng::gen_bool_ppm(activity_probability_ppm(self.trading_strategy))
    }

    /// The symbols this participant type prefers to trade.
    pub fn get_preferred_symbols(&self) -> (r: Vec<String>)
        ensures
            match self.participant_type {
                ParticipantType::Bank => r@.len() == 6,
                ParticipantType::HedgeFund => r@.len() == 3,
                ParticipantType::Corporation => r@.len() == 2,
                _ => r@.len() == 1,
            },
            r@.len() >= 1,
            r@[0]@ == "EURUSD"@,
            self.participant_type == ParticipantType::Corporation ==> r@[1]@ == "USDJPY"@,
            (self.participant_type == ParticipantType::Bank || self.participant_type
                == ParticipantType::HedgeFund) ==> r@[1]@ == "GBPUSD"@ && r@[2]@ == "USDJPY"@,
            self.participant_type == ParticipantType::Bank ==> r@[3]@ == "USDCHF"@ && r@[4]@
                == "AUDUSD"@ && r@[5]@ == "USDCAD"@,
    {
        let mut v: Vec<String> = Vec::new();
        v.push("EURUSD".to_owned());
        match self.participant_type {
            ParticipantType::Bank => {
                v.push("GBPUSD".to_owned());
                v.push("USDJPY".to_owned());
                v.push("USDCHF".to_owned());
                v.push("AUDUSD".to_owned());
                v.push("USDCAD".to_owned());
            },
            ParticipantType::HedgeFund => {
                v.push("GBPUSD".to_owned());
                v.push("USDJPY".to_owned());
            },
            ParticipantType::Corporation => {
                v.push("USDJPY".to_owned());
            },
            _ => {},
        }
        v
    }

    /// A random trade size in the participant type's documented range,
    /// base-currency units.
    pub fn get_typical_trade_size(&self) -> (r: u64)
        ensures
            match self.participant_type {
                ParticipantType::Bank => 1_000_000 <= r < 10_000_000,
                ParticipantType::HedgeFund => 100_000 <= r < 1_000_000,
                ParticipantType::Trader => 10_000 <= r < 100_000,
                ParticipantType::Corporation => 50_000 <= r < 500_000,
                ParticipantType::Government => 1_000_000 <= r < 5_000_000,
                ParticipantType::RetailTrader => 1_000 <= r < 10_000,
            },
    {
        match self.participant_type {
            ParticipantType::Bank => rng::gen_range_u64(1_000_000, 10_000_000),
            ParticipantType::HedgeFund => rng::gen_range_u64(100_000, 1_000_000),
            ParticipantType::Trader => rng::gen_range_u64(10_000, 100_000),
            ParticipantType::Corporation => rng::gen_range_u64(50_000, 500_000),
            ParticipantType::Government => rng::gen_range_u64(1_000_000, 5_000_000),
            ParticipantType::RetailTrader => rng::gen_range_u64(1_000, 10_000),
        }
    }

    /// Margin for a volume at a leverage: volume over leverage, rounded
    /// down.
    pub fn get_margin_requirement(&self, volume: u64, leverage: u64) -> (r: u64)
        requires
            leverage >= 1,
        ensures
            r == volume as int / leverage as int,
    {
        volume / leverage
    }

    /// Stop trading; everything else is untouched.
    pub fn deactivate(&mut self)
        ensures
            *final(self) == (Participant { active: false, ..*old(self) }),
    {
        self.active = false;
    }

    /// Resume trading; everything else is untouched.
    pub fn activate(&mut self)
        ensures
            *final(self) == (Participant { active: true, ..*old(self) }),
    {
        self.active = true;
    }

    /// The account invariant with the equity clause left out: the state
    /// between a mutation and the `update_equity` that repairs it.
    pub open spec fn wf_except_equity(self) -> bool {
        &&& -BALANCE_LIMIT <= self.balance <= BALANCE_LIMIT
        &&& 0 <= self.margin_used <= BALANCE_LIMIT
        &&& 1 <= self.leverage <= 1000
        &&& self.risk_tolerance <= PPM_SCALE
        &&& self.positions@.len() <= MAX_POSITIONS
        &&& symbols_unique(self.positions@)
        &&& forall|i: int| 0 <= i < self.positions@.len() ==> (#[trigger] self.positions@[i]).wf()
    }
}

/// The position `p` marked to `price`, with its profit recomputed.
pub open spec fn marked(p: Position, price: u64) -> Position {
    Position {
        current_price: price,
        unrealized_pnl: pnl_of(p.side, p.volume, p.entry_price, price) as i128,
        ..p
    }
}

/// The documented sizing formula: equity times the capped risk fraction,
/// divided by the price, scaled by the leverage; zero on non-positive
/// equity.
pub open spec fn spec_position_size(p: Participant, price: u64, risk_ppm: u64) -> int {
    if p.equity <= 0 {
        0
    } else {
        let risk = if risk_ppm <= p.risk_tolerance {
            risk_ppm as int
        } else {
            p.risk_tolerance as int
        };
        (p.equity * risk / 1_000_000) / (price as int) * p.leverage
    }
}

/// A well-formed position's profit magnitude is bounded by the product of
/// the price and volume ceilings.
proof fn lemma_pnl_bound(p: Position)
    requires
        p.wf(),
    ensures
        -1_000_000_000_000_000_000_000_000 <= p.unrealized_pnl
            <= 1_000_000_000_000_000_000_000_000,
{
    let d: int = if p.side == OrderSide::Buy {
        p.current_price - p.entry_price
    } else {
        p.entry_price - p.current_price
    };
    assert(p.unrealized_pnl == d * p.volume);
    assert(-1_000_000_000_000_000_000_000_000 <= d * p.volume
        <= 1_000_000_000_000_000_000_000_000) by (nonlinear_arith)
        requires
            -1_000_000_000_000 <= d <= 1_000_000_000_000,
            0 <= p.volume <= 1_000_000_000_000u64,
    ;
}

/// Total unrealized profit of a list of well-formed positions, exactly.
fn sum_positions_pnl(positions: &Vec<Position>) -> (r: i128)
    requires
        positions@.len() <= MAX_POSITIONS,
        forall|i: int| 0 <= i < positions@.len() ==> (#[trigger] positions@[i]).wf(),
    ensures
        r == sum_pnl(positions@),
{
    let mut sum: i128 = 0;
    let mut n: usize = 0;
    while n < positions.len()
        invariant
            n <= positions@.len(),
            positions@.len() <= MAX_POSITIONS,
            forall|i: int| 0 <= i < positions@.len() ==> (#[trigger] positions@[i]).wf(),
            sum == sum_pnl(positions@.take(n as int)),
            -1_000_000_000_000_000_000_000_000i128 * (n as i128) <= sum
                <= 1_000_000_000_000_000_000_000_000i128 * (n as i128),
        decreases positions@.len() - n,
    {
        proof {
            assert(positions@.take(n as int + 1).drop_last() =~= positions@.take(n as int));
            assert(positions@.take(n as int + 1).last() == positions@[n as int]);
            lemma_pnl_bound(positions@[n as int]);
            assert(1_000_000_000_000_000_000_000_000i128 * ((n + 1) as i128)
                == 1_000_000_000_000_000_000_000_000i128 * (n as i128)
                + 1_000_000_000_000_000_000_000_000i128) by (nonlinear_arith);
            assert(1_000_000_000_000_000_000_000_000i128 * (n as i128)
                <= 1_000_000_000_000_000_000_000_000i128 * 65_536i128) by (nonlinear_arith)
                requires 0 <= n <= 65_536;
        }
        sum = sum + positions[n].unrealized_pnl;
        n += 1;
    }
    proof {
        assert(positions@.take(positions@.len() as int) =~= positions@);
    }
    sum
}

} // verus!
