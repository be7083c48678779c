//! The derived price feed: per-symbol quote data and one-minute OHLCV
//! candle history, refreshed from the matching engine's books plus a
//! synthetic noise model, with aggregation to coarser timeframes.

use vstd::prelude::*;

use crate::clock;
use crate::fixed::{PRICE_LIMIT, apply_ppm};
use crate::market::MarketEngine;
use crate::rng;
use crate::text::str_eq;

verus! {

/// The quote snapshot of one symbol.
#[derive(Clone, Debug)]
pub struct PriceData {
    pub symbol: String,
    /// Micro-units; zero when a spread pushes below the band.
    pub bid: u64,
    pub ask: u64,
    pub last: u64,
    pub high_24h: u64,
    pub low_24h: u64,
    pub volume_24h: u128,
    /// Unix seconds.
    pub timestamp: i64,
    /// Micro-units, signed.
    pub change_24h: i128,
    /// Micro-percent (one percent is 1_000_000), signed.
    pub change_percent_24h: i128,
}

/// One OHLCV bar.
#[derive(Clone, Copy, Debug)]
pub struct Candle {
    /// Unix seconds, non-negative.
    pub timestamp: i64,
    pub open: u64,
    pub high: u64,
    pub low: u64,
    pub close: u64,
    pub volume: u64,
}

/// One symbol's feed state: its quote and its one-minute history.
#[derive(Clone, Debug)]
pub struct FeedEntry {
    pub data: PriceData,
    pub candles: Vec<Candle>,
}

/// The venue's price feed.
#[derive(Clone, Debug)]
pub struct PriceFeed {
    pub entries: Vec<FeedEntry>,
    pub last_update: i64,
}

/// Candle history is capped at this many one-minute bars per symbol.
pub const CANDLE_CAP: usize = 10_000;

impl Candle {
    /// The bar invariant: a positive low under both open and close, both
    /// under the high, all within the price band, at a non-negative time.
    pub open spec fn wf(self) -> bool {
        &&& 0 < self.low <= PRICE_LIMIT
        &&& self.low <= self.open <= self.high
        &&& self.low <= self.close <= self.high
        &&& self.high <= PRICE_LIMIT
        &&& self.timestamp >= 0
    }
}

impl PriceData {
    /// The quote invariant: a positive last price inside its daily
    /// envelope, and a bid no higher than the ask.
    pub open spec fn wf(self) -> bool {
        &&& 0 < self.last <= PRICE_LIMIT
        &&& self.bid <= self.ask <= PRICE_LIMIT
        &&& 0 < self.low_24h <= self.last <= self.high_24h <= PRICE_LIMIT
    }
}

impl FeedEntry {
    pub open spec fn wf(self) -> bool {
        &&& self.data.wf()
        &&& self.candles@.len() <= CANDLE_CAP
        &&& forall|i: int| 0 <= i < self.candles@.len() ==> (#[trigger] self.candles@[i]).wf()
    }
}

/// The per-symbol base spread used to derive bid and ask around the last
/// price, micro-units.
pub open spec fn feed_spread_of(sym: Seq<char>) -> u64 {
    if sym == "EURUSD"@ {
        150u64
    } else if sym == "GBPUSD"@ {
        200u64
    } else if sym == "USDJPY"@ {
        15_000u64
    } else if sym == "USDCHF"@ {
        180u64
    } else if sym == "AUDUSD"@ {
        250u64
    } else if sym == "USDCAD"@ {
        220u64
    } else {
        200u64
    }
}

/// The per-symbol, per-minute volatility of the synthetic model, parts per
/// million of relative move.
pub open spec fn volatility_of(sym: Seq<char>) -> u64 {
    if sym == "EURUSD"@ {
        800u64
    } else if sym == "GBPUSD"@ {
        1_200u64
    } else if sym == "USDJPY"@ {
        1_000u64
    } else if sym == "USDCHF"@ {
        900u64
    } else if sym == "AUDUSD"@ {
        1_500u64
    } else if sym == "USDCAD"@ {
        1_100u64
    } else {
        1_000u64
    }
}

/// No two feed entries carry the same symbol.
pub open spec fn entry_symbols_unique(es: Seq<FeedEntry>) -> bool {
    forall|i: int, j: int|
        0 <= i < j < es.len() ==> (#[trigger] es[i]).data.symbol@ != (
        #[trigger] es[j]).data.symbol@
}

/// The minute-aligned aggregation bucket of a candle: its timestamp in
/// periods of `minutes` minutes.
pub open spec fn group_key(c: Candle, minutes: int) -> int {
    c.timestamp / 60 / minutes
}

/// The highest high over a window of candles.
pub open spec fn max_high(cs: Seq<Candle>) -> int
    decreases cs.len(),
{
    if cs.len() == 0 {
        0
    } else {
        let rest = max_high(cs.drop_last());
        if cs.last().high > rest {
            cs.last().high as int
        } else {
            rest
        }
    }
}

/// The lowest low over a window of candles.
pub open spec fn min_low(cs: Seq<Candle>) -> int
    decreases cs.len(),
{
    if cs.len() == 0 {
        PRICE_LIMIT as int + 1
    } else {
        let rest = min_low(cs.drop_last());
        if (cs.last().low as int) < rest {
            cs.last().low as int
        } else {
            rest
        }
    }
}

/// Total volume over a window of candles.
pub open spec fn sum_candle_volume(cs: Seq<Candle>) -> int
    decreases cs.len(),
{
    if cs.len() == 0 {
        0
    } else {
        sum_candle_volume(cs.drop_last()) + cs.last().volume
    }
}

/// Saturating cast of a volume total into a `u64`.
pub open spec fn clamp_vol(x: int) -> u64 {
    if x > u64::MAX {
        u64::MAX
    } else {
        x as u64
    }
}

/// `out` aggregates the consecutive window `cs[s..e]`, which shares one
/// aggregation bucket and starts right after a bucket boundary: its open is
/// the window's first open, its close the last close, its high and low the
/// extremes, its volume the (saturating) total, its timestamp the first
/// timestamp.
pub open spec fn is_group_aggregate(cs: Seq<Candle>, s: int, e: int, minutes: int, out: Candle) -> bool {
    &&& 0 <= s < e <= cs.len()
    &&& (forall|i: int| s <= i < e ==> group_key(#[trigger] cs[i], minutes) == group_key(
        cs[e - 1],
        minutes,
    ))
    &&& (s == 0 || group_key(cs[s - 1], minutes) != group_key(cs[s], minutes))
    &&& (e == cs.len() || group_key(cs[e], minutes) != group_key(cs[e - 1], minutes))
    &&& out.open == cs[s].open
    &&& out.close == cs[e - 1].close
    &&& out.high == max_high(cs.subrange(s, e))
    &&& out.low == min_low(cs.subrange(s, e))
    &&& out.volume == clamp_vol(sum_candle_volume(cs.subrange(s, e)))
    &&& out.timestamp == cs[s].timestamp
}

/// `out` is the aggregate of some maximal consecutive same-bucket window.
pub open spec fn aggregated_ok(cs: Seq<Candle>, minutes: int, out: Candle) -> bool {
    exists|s: int, e: int| #[trigger] is_group_aggregate(cs, s, e, minutes, out)
}

/// `bars` (newest group first) tile the history from its end: window `n`
/// spans `cs[bounds[n + 1] .. bounds[n]]`, the first window ends at the
/// history's end, and unless the limit cut the walk short the windows
/// reach all the way back to the oldest bar.
pub open spec fn tiles(
    cs: Seq<Candle>,
    minutes: int,
    bars: Seq<Candle>,
    bounds: Seq<int>,
    limit: int,
) -> bool {
    &&& bounds.len() == bars.len() + 1
    &&& bounds[0] == cs.len()
    &&& (bars.len() < limit ==> bounds[bars.len() as int] == 0)
    &&& forall|n: int|
        0 <= n < bars.len() ==> #[trigger] is_group_aggregate(
            cs,
            bounds[n + 1],
            bounds[n],
            minutes,
            bars[n],
        )
}

/// Some boundary sequence tiles the history into `bars`.
pub open spec fn tiled_ok(cs: Seq<Candle>, minutes: int, bars: Seq<Candle>, limit: int) -> bool {
    exists|bounds: Seq<int>| #[trigger] tiles(cs, minutes, bars, bounds, limit)
}

/// The newest `limit` candles of `cs[0..k]`, newest first.
pub open spec fn recent_candles(cs: Seq<Candle>, k: int, limit: int) -> Seq<Candle>
    decreases (if k >= 0 { k } else { 0 }),
{
    if k <= 0 || limit <= 0 || k > cs.len() {
        Seq::<Candle>::empty()
    } else {
        seq![cs[k - 1]] + recent_candles(cs, k - 1, limit - 1)
    }
}

impl PriceFeed {
    /// The feed invariant: well-formed entries with unique symbols.
    pub open spec fn wf(self) -> bool {
        &&& forall|i: int| 0 <= i < self.entries@.len() ==> (#[trigger] self.entries@[i]).wf()
        &&& entry_symbols_unique(self.entries@)
    }

    /// An empty feed stamped with the current time.
    pub fn new() -> (r: PriceFeed)
        ensures
            r.wf(),
            r.entries@.len() == 0,
    {
        PriceFeed { entries: Vec::new(), last_update: clock::now_seconds() }
    }

    /// The index of the entry for `symbol`, if any.
    fn find_entry(&self, symbol: &str) -> (r: Option<usize>)
        ensures
            match r {
                Some(i) => i < self.entries@.len() && self.entries@[i as int].data.symbol@
                    == symbol@,
                None => forall|i: int|
                    0 <= i < self.entries@.len() ==> (#[trigger] self.entries@[i]).data.symbol@
                        != symbol@,
            },
    {
        let mut i: usize = 0;
        while i < self.entries.len()
            invariant
                i <= self.entries@.len(),
                forall|k: int|
                    0 <= k < i ==> (#[trigger] self.entries@[k]).data.symbol@ != symbol@,
            decreases self.entries@.len() - i,
        {
            if str_eq(self.entries[i].data.symbol.as_str(), symbol) {
                return Some(i);
            }
            i += 1;
        }
        None
    }

    /// The symbols the feed quotes.
    pub fn get_symbols(&self) -> (r: Vec<String>)
        ensures
            r@.len() == self.entries@.len(),
            forall|i: int| 0 <= i < r@.len() ==> (#[trigger] r@[i])@ == self.entries@[i].data.symbol@,
    {
        let mut r: Vec<String> = Vec::new();
        let mut i: usize = 0;
        while i < self.entries.len()
            invariant
                i <= self.entries@.len(),
                r@.len() == i as int,
                forall|k: int|
                    0 <= k < i ==> (#[trigger] r@[k])@ == self.entries@[k].data.symbol@,
            decreases self.entries@.len() - i,
        {
            r.push(self.entries[i].data.symbol.clone());
            i += 1;
        }
        r
    }

    /// The current quote for `symbol`, or the documented default quote for
    /// an unknown symbol.
    pub fn get_current_price(&self, symbol: &str) -> (r: PriceData)
        ensures
            (exists|i: int|
                0 <= i < self.entries@.len() && (#[trigger] self.entries@[i]).data.symbol@
                    == symbol@ && r == self.entries@[i].data) || ((forall|i: int|
                0 <= i < self.entries@.len() ==> (#[trigger] self.entries@[i]).data.symbol@
                    != symbol@) && r.symbol@ == symbol@ && r.bid == 1_000_000 && r.ask == 1_000_100
                && r.last == 1_000_000 && r.high_24h == 1_000_000 && r.low_24h == 1_000_000
                && r.volume_24h == 0 && r.change_24h == 0 && r.change_percent_24h == 0),
    {
        match self.find_entry(symbol) {
            Some(i) => {
                let d = &self.entries[i].data;
                let r = PriceData {
                    symbol: d.symbol.clone(),
                    bid: d.bid,
                    ask: d.ask,
                    last: d.last,
                    high_24h: d.high_24h,
                    low_24h: d.low_24h,
                    volume_24h: d.volume_24h,
                    timestamp: d.timestamp,
                    change_24h: d.change_24h,
                    change_percent_24h: d.change_percent_24h,
                };
                proof {
                    assert(r == self.entries@[i as int].data);
                }
                r
            },
            None => PriceData {
                symbol: symbol.to_owned(),
                bid: 1_000_000,
                ask: 1_000_100,
                last: 1_000_000,
                high_24h: 1_000_000,
                low_24h: 1_000_000,
                volume_24h: 0,
                timestamp: clock::now_seconds(),
                change_24h: 0,
                change_percent_24h: 0,
            },
        }
    }
}

/// The per-symbol timeframe names the feed aggregates to; `None` stands
/// for the raw one-minute bars.
pub open spec fn timeframe_minutes(tf: Seq<char>) -> Option<int> {
    if tf == "5m"@ {
        Some(5int)
    } else if tf == "15m"@ {
        Some(15int)
    } else if tf == "1h"@ {
        Some(60int)
    } else if tf == "4h"@ {
        Some(240int)
    } else if tf == "1d"@ {
        Some(1440int)
    } else {
        None
    }
}

impl PriceFeed {
    /// Seed a symbol: a quote centred on the initial price with the
    /// symbol's base spread, and a thousand minutes of synthetic history.
    /// An existing entry for the symbol is replaced.
    pub fn add_symbol(&mut self, symbol: &str, initial_price: u64, now: i64)
        requires
            old(self).wf(),
            0 < initial_price <= PRICE_LIMIT,
            now >= 60_000,
        ensures
            final(self).wf(),
            exists|i: int|
                {
                    &&& 0 <= i < final(self).entries@.len()
                    &&& (#[trigger] final(self).entries@[i]).data.symbol@ == symbol@
                    &&& final(self).entries@[i].data.last == initial_price
                    &&& final(self).entries@[i].data.bid == (if initial_price > feed_spread_of(
                        symbol@,
                    ) / 2 {
                        initial_price - feed_spread_of(symbol@) / 2
                    } else {
                        0
                    })
                    &&& final(self).entries@[i].data.ask == (if initial_price + feed_spread_of(
                        symbol@,
                    ) / 2 > PRICE_LIMIT {
                        PRICE_LIMIT as int
                    } else {
                        initial_price + feed_spread_of(symbol@) / 2
                    })
                    &&& final(self).entries@[i].data.high_24h == initial_price
                    &&& final(self).entries@[i].data.low_24h == initial_price
                    &&& final(self).entries@[i].data.volume_24h == 0
                    &&& final(self).entries@[i].data.timestamp == now
                    &&& final(self).entries@[i].data.change_24h == 0
                    &&& final(self).entries@[i].data.change_percent_24h == 0
                    &&& final(self).entries@[i].candles@.len() == 1000
                    &&& seeded_timestamps(final(self).entries@[i].candles@, now)
                    &&& seeded_walk(final(self).entries@[i].candles@, initial_price)
                },
    {
        let spread = self.calculate_spread(symbol);
        let vol = self.get_symbol_volatility(symbol);
        let half = spread / 2;
        let bid: u64 = if initial_price > half {
            initial_price - half
        } else {
            0
        };
        let ask: u64 = if initial_price + half > PRICE_LIMIT {
            PRICE_LIMIT
        } else {
            initial_price + half
        };
        let data = PriceData {
            symbol: symbol.to_owned(),
            bid,
            ask,
            last: initial_price,
            high_24h: initial_price,
            low_24h: initial_price,
            volume_24h: 0,
            timestamp: now,
            change_24h: 0,
            change_percent_24h: 0,
        };
        let candles = generate_initial_history(vol, initial_price, now);
        let entry = FeedEntry { data, candles };
        let ghost en = entry;
        proof {
            assert(en.wf());
        }
        let found = self.find_entry(symbol);
        match found {
            Some(i) => {
                let ghost pre = self.entries@;
                self.entries.remove(i);
                self.entries.insert(i, entry);
                proof {
                    assert(self.entries@ =~= pre.update(i as int, en));
                    assert(entry_symbols_unique(self.entries@));
                    assert(self.entries@[i as int] == en);
                }
            },
            None => {
                self.entries.push(entry);
                proof {
                    let n = self.entries@.len() - 1;
                    assert(self.entries@[n] == en);
                }
            },
        }
    }

    /// The base spread the feed uses for `symbol`, micro-units.
    fn calculate_spread(&self, symbol: &str) -> (r: u64)
        ensures
            r == feed_spread_of(symbol@),
    {
        if str_eq(symbol, "EURUSD") {
            150
        } else if str_eq(symbol, "GBPUSD") {
            200
        } else if str_eq(symbol, "USDJPY") {
            15_000
        } else if str_eq(symbol, "USDCHF") {
            180
        } else if str_eq(symbol, "AUDUSD") {
            250
        } else if str_eq(symbol, "USDCAD") {
            220
        } else {
            200
        }
    }

    /// The volatility the synthetic model uses for `symbol`, parts per
    /// million per minute.
    fn get_symbol_volatility(&self, symbol: &str) -> (r: u64)
        ensures
            r == volatility_of(symbol@),
    {
        if str_eq(symbol, "EURUSD") {
            800
        } else if str_eq(symbol, "GBPUSD") {
            1_200
        } else if str_eq(symbol, "USDJPY") {
            1_000
        } else if str_eq(symbol, "USDCHF") {
            900
        } else if str_eq(symbol, "AUDUSD") {
            1_500
        } else if str_eq(symbol, "USDCAD") {
            1_100
        } else {
            1_000
        }
    }

}

/// One feed entry refreshed from its book at `now`: the traded volume and
/// timestamp copied, the last price set to the book's last trade moved by a
/// noise draw within a tenth of the symbol's volatility, bid and ask
/// rederived from the spread table around it, the daily envelope widened,
/// and the move folded into the candle history.
pub open spec fn entry_refreshed(
    pre: FeedEntry,
    post: FeedEntry,
    last_trade: u64,
    total_volume: u128,
    now: i64,
) -> bool {
    let sym = pre.data.symbol@;
    let half = feed_spread_of(sym) / 2;
    let tenth = if volatility_of(sym) / 10 >= 1 {
        volatility_of(sym) / 10
    } else {
        1
    };
    let lastp = post.data.last;
    &&& post.data.symbol == pre.data.symbol
    &&& post.data.volume_24h == total_volume
    &&& post.data.timestamp == now
    &&& exists|n: i64|
        -(tenth as int) <= n < tenth && lastp == #[trigger] crate::fixed::scale_by_ppm(
            last_trade,
            n,
        )
    &&& post.data.bid == (if lastp > half {
        (lastp - half) as u64
    } else {
        0u64
    })
    &&& post.data.ask == (if lastp + half > PRICE_LIMIT {
        PRICE_LIMIT
    } else {
        (lastp + half) as u64
    })
    &&& post.data.high_24h == (if lastp > pre.data.high_24h && lastp > last_trade {
        lastp
    } else if last_trade > pre.data.high_24h {
        last_trade
    } else {
        pre.data.high_24h
    })
    &&& post.data.low_24h == (if lastp < pre.data.low_24h && lastp < last_trade {
        lastp
    } else if last_trade < pre.data.low_24h {
        last_trade
    } else {
        pre.data.low_24h
    })
    &&& candles_folded(pre.candles@, post.candles@, last_trade, lastp, now)
}

/// One feed entry shocked by a news impact at `now`: the last price scaled
/// by the impact, bid and ask rederived from the spread table around it,
/// the daily envelope widened, and the move folded into the candles.
pub open spec fn entry_shocked(pre: FeedEntry, post: FeedEntry, impact_ppm: i64, now: i64) -> bool {
    let half = feed_spread_of(pre.data.symbol@) / 2;
    let lastp = post.data.last;
    &&& post.data.symbol == pre.data.symbol
    &&& lastp == crate::fixed::scale_by_ppm(pre.data.last, impact_ppm)
    &&& post.data.bid == (if lastp > half {
        (lastp - half) as u64
    } else {
        0u64
    })
    &&& post.data.ask == (if lastp + half > PRICE_LIMIT {
        PRICE_LIMIT
    } else {
        (lastp + half) as u64
    })
    &&& post.data.high_24h == (if lastp > pre.data.high_24h {
        lastp
    } else {
        pre.data.high_24h
    })
    &&& post.data.low_24h == (if lastp < pre.data.low_24h {
        lastp
    } else {
        pre.data.low_24h
    })
    &&& candles_folded(pre.candles@, post.candles@, pre.data.last, lastp, now)
}

/// The whole feed refreshed from the engine at `now`: entries keep their
/// count and symbols, the update is stamped, and every entry whose symbol
/// the engine trades is refreshed from that symbol's book.
pub open spec fn feed_refreshed(
    pre: PriceFeed,
    post: PriceFeed,
    market: MarketEngine,
    now: i64,
) -> bool {
    &&& post.last_update == now
    &&& post.entries@.len() == pre.entries@.len()
    &&& (forall|i: int|
        0 <= i < pre.entries@.len() ==> (#[trigger] post.entries@[i]).data.symbol
            == pre.entries@[i].data.symbol)
    &&& (forall|b: int, i: int|
        0 <= b < market.symbols@.len() && 0 <= i < pre.entries@.len() && (
        #[trigger] market.symbols@[b]).symbol@ == (#[trigger] pre.entries@[i]).data.symbol@
            ==> entry_refreshed(
            pre.entries@[i],
            post.entries@[i],
            market.symbols@[b].last_trade_price,
            market.symbols@[b].total_volume,
            now,
        ))
}

impl PriceFeed {
    /// Refresh one entry from its book's state, then apply market noise
    /// and fold the new price into the candle history.
    #[verifier::rlimit(60)]
    fn refresh_entry(
        entry: &mut FeedEntry,
        best_bid: Option<u64>,
        best_ask: Option<u64>,
        last_trade: u64,
        total_volume: u128,
        now: i64,
    )
        requires
            old(entry).wf(),
            best_bid matches Some(b) ==> 0 < b <= PRICE_LIMIT,
            best_ask matches Some(a) ==> 0 < a <= PRICE_LIMIT,
            0 < last_trade <= PRICE_LIMIT,
            now >= 0,
        ensures
            final(entry).wf(),
            entry_refreshed(*old(entry), *final(entry), last_trade, total_volume, now),
    {
        if let Some(b) = best_bid {
            entry.data.bid = b;
        }
        if let Some(a) = best_ask {
            entry.data.ask = a;
        }
        entry.data.last = last_trade;
        entry.data.volume_24h = total_volume;
        if entry.data.last > entry.data.high_24h {
            entry.data.high_24h = entry.data.last;
        }
        if entry.data.last < entry.data.low_24h {
            entry.data.low_24h = entry.data.last;
        }
        entry.data.timestamp = now;
        let vol = volatility_ppm_of_entry(entry);
        let spread = spread_of_entry(entry);
        let tenth: i64 = (vol / 10) as i64;
        let bound: i64 = if tenth >= 1 {
            tenth
        } else {
            1
        };
        let old_price = entry.data.last;
        let noise = rng::gen_range_i64(-bound, bound);
        let new_price = apply_ppm(old_price, noise);
        entry.data.last = new_price;
        let half = spread / 2;
        entry.data.bid = if new_price > half {
            new_price - half
        } else {
            0
        };
        entry.data.ask = if new_price + half > PRICE_LIMIT {
            PRICE_LIMIT
        } else {
            new_price + half
        };
        if entry.data.last > entry.data.high_24h {
            entry.data.high_24h = entry.data.last;
        }
        if entry.data.last < entry.data.low_24h {
            entry.data.low_24h = entry.data.last;
        }
        if entry.candles.len() > 0 {
            let idx: usize = if entry.candles.len() >= 1440 {
                entry.candles.len() - 1440
            } else {
                0
            };
            let reference = entry.candles[idx].close;
            let lastp = entry.data.last;
            if lastp >= reference {
                let gain = lastp - reference;
                entry.data.change_24h = gain as i128;
                proof {
                    assert(gain * 100_000_000 <= 1_000_000_000_000u64 * 100_000_000u64)
                        by (nonlinear_arith)
                        requires 0 <= gain <= 1_000_000_000_000u64;
                }
                entry.data.change_percent_24h = ((gain as u128) * 100_000_000 / (
                reference as u128)) as i128;
            } else {
                let loss = reference - lastp;
                entry.data.change_24h = -(loss as i128);
                proof {
                    assert(loss * 100_000_000 <= 1_000_000_000_000u64 * 100_000_000u64)
                        by (nonlinear_arith)
                        requires 0 <= loss <= 1_000_000_000_000u64;
                }
                entry.data.change_percent_24h = -(((loss as u128) * 100_000_000 / (
                reference as u128)) as i128);
            }
        }
        update_candle_data(&mut entry.candles, old_price, new_price, now);
    }

    /// Refresh every symbol the engine trades from its book: touch prices,
    /// last trade, traded volume, the daily envelope, synthetic noise and
    /// the candle history; `feed_refreshed` pins the whole effect.
    pub fn update_from_market_at(&mut self, market: &MarketEngine, now: i64)
        requires
            old(self).wf(),
            market.wf(),
            now >= 0,
        ensures
            final(self).wf(),
            feed_refreshed(*old(self), *final(self), *market, now),
    {
        let ghost pre = *self;
        let mut b: usize = 0;
        while b < market.symbols.len()
            invariant
                self.wf(),
                pre.wf(),
                pre == *old(self),
                market.wf(),
                now >= 0,
                pre.entries@.len() == old(self).entries@.len(),
                b <= market.symbols@.len(),
                self.entries@.len() == pre.entries@.len(),
                forall|i: int|
                    0 <= i < pre.entries@.len() ==> (#[trigger] self.entries@[i]).data.symbol
                        == pre.entries@[i].data.symbol,
                forall|b2: int, i: int|
                    0 <= b2 < b && 0 <= i < pre.entries@.len() && (
                    #[trigger] market.symbols@[b2]).symbol@ == (
                    #[trigger] pre.entries@[i]).data.symbol@ ==> entry_refreshed(
                        pre.entries@[i],
                        self.entries@[i],
                        market.symbols@[b2].last_trade_price,
                        market.symbols@[b2].total_volume,
                        now,
                    ),
                forall|i: int|
                    0 <= i < pre.entries@.len() ==> (#[trigger] self.entries@[i])
                        == pre.entries@[i] || (exists|b2: int|
                        0 <= b2 < b && (#[trigger] market.symbols@[b2]).symbol@
                            == pre.entries@[i].data.symbol@),
            decreases market.symbols@.len() - b,
        {
            let ghost step = self.entries@;
            let book = &market.symbols[b];
            if let Some(ei) = self.find_entry(book.symbol.as_str()) {
                let ghost mid = self.entries@;
                let mut entry = self.entries.remove(ei);
                PriceFeed::refresh_entry(
                    &mut entry,
                    book.get_best_bid(),
                    book.get_best_ask(),
                    book.last_trade_price,
                    book.get_total_volume(),
                    now,
                );
                self.entries.insert(ei, entry);
                proof {
                    assert(self.entries@ =~= mid.update(ei as int, self.entries@[ei as int]));
                    assert(entry_symbols_unique(self.entries@));
                    assert forall|b2: int, i: int|
                        0 <= b2 < b + 1 && 0 <= i < pre.entries@.len() && (
                        #[trigger] market.symbols@[b2]).symbol@ == (
                        #[trigger] pre.entries@[i]).data.symbol@ implies entry_refreshed(
                        pre.entries@[i],
                        self.entries@[i],
                        market.symbols@[b2].last_trade_price,
                        market.symbols@[b2].total_volume,
                        now,
                    ) by {
                        if b2 < b {
                            if i == ei {
                                // Two distinct books would share this entry's
                                // symbol, contradicting book uniqueness.
                                assert(market.symbols@[b2].symbol@
                                    != market.symbols@[b as int].symbol@);
                                assert(false);
                            } else {
                                assert(self.entries@[i] == step[i]);
                            }
                        } else {
                            let gei = ei as int;
                            assert(step[gei].data.symbol@ == pre.entries@[gei].data.symbol@);
                            if i != ei {
                                assert(pre.entries@[i].data.symbol@
                                    != pre.entries@[gei].data.symbol@);
                                assert(false);
                            } else {
                                // This entry was untouched so far: no earlier
                                // book shares its unique symbol.
                                assert(step[gei] == pre.entries@[gei]) by {
                                    if step[gei] != pre.entries@[gei] {
                                        let b3 = choose|b3: int|
                                            0 <= b3 < b && (#[trigger] market.symbols@[b3]).symbol@
                                                == pre.entries@[gei].data.symbol@;
                                        assert(market.symbols@[b3].symbol@
                                            != market.symbols@[b as int].symbol@);
                                        assert(false);
                                    }
                                }
                            }
                        }
                    }
                    assert forall|i: int| 0 <= i < pre.entries@.len() implies (
                    #[trigger] self.entries@[i]) == pre.entries@[i] || (exists|b2: int|
                        0 <= b2 < b + 1 && (#[trigger] market.symbols@[b2]).symbol@
                            == pre.entries@[i].data.symbol@) by {
                        if i == ei {
                            assert(market.symbols@[b as int].symbol@
                                == pre.entries@[i].data.symbol@);
                        } else {
                            assert(self.entries@[i] == step[i]);
                        }
                    }
                }
            } else {
                proof {
                    assert forall|b2: int, i: int|
                        0 <= b2 < b + 1 && 0 <= i < pre.entries@.len() && (
                        #[trigger] market.symbols@[b2]).symbol@ == (
                        #[trigger] pre.entries@[i]).data.symbol@ implies entry_refreshed(
                        pre.entries@[i],
                        self.entries@[i],
                        market.symbols@[b2].last_trade_price,
                        market.symbols@[b2].total_volume,
                        now,
                    ) by {
                        if b2 == b {
                            assert(self.entries@[i].data.symbol@ == pre.entries@[i].data.symbol@);
                            assert(false);
                        }
                    }
                }
            }
            b += 1;
        }
        self.last_update = now;
    }

    /// Refresh from the engine at the current wall-clock time: the whole
    /// effect of `update_from_market_at` at some non-negative instant.
    pub fn update_from_market(&mut self, market: &MarketEngine)
        requires
            old(self).wf(),
            market.wf(),
        ensures
            final(self).wf(),
            exists|t: i64|
                t >= 0 && #[trigger] feed_refreshed(*old(self), *final(self), *market, t),
    {
        let now = clock::now_seconds();
        let at = if now >= 0 {
            now
        } else {
            0
        };
        self.update_from_market_at(market, at);
        proof {
            assert(feed_refreshed(*old(self), *self, *market, at));
        }
    }

    /// Shock one symbol's price by `impact_ppm` parts per million, rederive
    /// its quote and fold the move into the candle history.
    pub fn simulate_major_news_event(&mut self, symbol: &str, impact_ppm: i64, now: i64)
        requires
            old(self).wf(),
            -1_000_000 <= impact_ppm <= 1_000_000,
            now >= 0,
        ensures
            final(self).wf(),
            final(self).entries@.len() == old(self).entries@.len(),
            forall|i: int|
                0 <= i < old(self).entries@.len()
                    ==> (#[trigger] final(self).entries@[i]).data.symbol
                    == old(self).entries@[i].data.symbol,
            (forall|i: int|
                0 <= i < old(self).entries@.len() ==> (#[trigger] old(
                    self,
                ).entries@[i]).data.symbol@ != symbol@) ==> *final(self) == *old(self),
            forall|i: int|
                0 <= i < old(self).entries@.len() && (#[trigger] old(self).entries@[i]).data.symbol@
                    == symbol@ ==> entry_shocked(
                    old(self).entries@[i],
                    final(self).entries@[i],
                    impact_ppm,
                    now,
                ),
    {
        let ghost pre = *self;
        let spread = self.calculate_spread(symbol);
        match self.find_entry(symbol) {
            Some(ei) => {
                let ghost mid = self.entries@;
                let mut entry = self.entries.remove(ei);
                let old_price = entry.data.last;
                let new_price = apply_ppm(old_price, impact_ppm);
                entry.data.last = new_price;
                let half = spread / 2;
                entry.data.bid = if new_price > half {
                    new_price - half
                } else {
                    0
                };
                entry.data.ask = if new_price + half > PRICE_LIMIT {
                    PRICE_LIMIT
                } else {
                    new_price + half
                };
                if entry.data.last > entry.data.high_24h {
                    entry.data.high_24h = entry.data.last;
                }
                if entry.data.last < entry.data.low_24h {
                    entry.data.low_24h = entry.data.last;
                }
                update_candle_data(&mut entry.candles, old_price, new_price, now);
                self.entries.insert(ei, entry);
                proof {
                    assert(self.entries@ =~= mid.update(ei as int, self.entries@[ei as int]));
                    assert(entry_symbols_unique(self.entries@));
                    assert(pre.entries@[ei as int].data.symbol@ == symbol@);
                    assert(entry_shocked(
                        pre.entries@[ei as int],
                        self.entries@[ei as int],
                        impact_ppm,
                        now,
                    ));
                    assert forall|i: int|
                        0 <= i < pre.entries@.len() && (#[trigger] pre.entries@[i]).data.symbol@
                            == symbol@ implies entry_shocked(
                        pre.entries@[i],
                        self.entries@[i],
                        impact_ppm,
                        now,
                    ) by {
                        if i != ei {
                            assert(pre.entries@[i].data.symbol@ != pre.entries@[ei as int].data.symbol@);
                        }
                    }
                }
            },
            None => {},
        }
    }

    /// The candle history of `symbol` in the requested timeframe, newest
    /// first for the one-minute view, and aggregated from one-minute bars
    /// for the coarser views; at most `limit` bars. An unknown timeframe
    /// falls back to one-minute bars, an unknown symbol to no bars.
    pub fn get_historical_data(&self, symbol: &str, timeframe: &str, limit: usize) -> (r: Vec<
        Candle,
    >)
        requires
            self.wf(),
        ensures
            (forall|i: int|
                0 <= i < self.entries@.len() ==> (#[trigger] self.entries@[i]).data.symbol@
                    != symbol@) ==> r@.len() == 0,
            forall|i: int|
                0 <= i < self.entries@.len() && (#[trigger] self.entries@[i]).data.symbol@
                    == symbol@ ==> ({
                    let cs = self.entries@[i].candles@;
                    match timeframe_minutes(timeframe@) {
                        Some(m) => {
                            &&& r@.len() <= limit
                            &&& forall|n: int|
                                0 <= n < r@.len() ==> aggregated_ok(cs, m, #[trigger] r@[n])
                            &&& tiled_ok(cs, m, r@, limit as int)
                        },
                        None => r@ == recent_candles(cs, cs.len() as int, limit as int),
                    }
                }),
    {
        let found = self.find_entry(symbol);
        match found {
            Some(i) => {
                proof {
                    assert forall|k: int|
                        0 <= k < self.entries@.len() && (#[trigger] self.entries@[k]).data.symbol@
                            == symbol@ implies k == i as int by {
                        if k != i {
                            let gi = i as int;
                            assert(self.entries@[k].data.symbol@ != self.entries@[gi].data.symbol@);
                        }
                    }
                }
                let entry = &self.entries[i];
                if str_eq(timeframe, "5m") {
                    aggregate_candles(&entry.candles, 5, limit)
                } else if str_eq(timeframe, "15m") {
                    aggregate_candles(&entry.candles, 15, limit)
                } else if str_eq(timeframe, "1h") {
                    aggregate_candles(&entry.candles, 60, limit)
                } else if str_eq(timeframe, "4h") {
                    aggregate_candles(&entry.candles, 240, limit)
                } else if str_eq(timeframe, "1d") {
                    aggregate_candles(&entry.candles, 1440, limit)
                } else {
                    newest_first(&entry.candles, limit)
                }
            },
            None => Vec::new(),
        }
    }
}

/// The volatility for the entry's own symbol.
fn volatility_ppm_of_entry(entry: &FeedEntry) -> (r: u64)
    ensures
        r == volatility_of(entry.data.symbol@),
{
    if str_eq(entry.data.symbol.as_str(), "EURUSD") {
        800
    } else if str_eq(entry.data.symbol.as_str(), "GBPUSD") {
        1_200
    } else if str_eq(entry.data.symbol.as_str(), "USDJPY") {
        1_000
    } else if str_eq(entry.data.symbol.as_str(), "USDCHF") {
        900
    } else if str_eq(entry.data.symbol.as_str(), "AUDUSD") {
        1_500
    } else if str_eq(entry.data.symbol.as_str(), "USDCAD") {
        1_100
    } else {
        1_000
    }
}

/// The base spread for the entry's own symbol.
fn spread_of_entry(entry: &FeedEntry) -> (r: u64)
    ensures
        r == feed_spread_of(entry.data.symbol@),
{
    if str_eq(entry.data.symbol.as_str(), "EURUSD") {
        150
    } else if str_eq(entry.data.symbol.as_str(), "GBPUSD") {
        200
    } else if str_eq(entry.data.symbol.as_str(), "USDJPY") {
        15_000
    } else if str_eq(entry.data.symbol.as_str(), "USDCHF") {
        180
    } else if str_eq(entry.data.symbol.as_str(), "AUDUSD") {
        250
    } else if str_eq(entry.data.symbol.as_str(), "USDCAD") {
        220
    } else {
        200
    }
}

/// The newest `limit` one-minute bars, newest first.
fn newest_first(candles: &Vec<Candle>, limit: usize) -> (r: Vec<Candle>)
    ensures
        r@ == recent_candles(candles@, candles@.len() as int, limit as int),
{
    let ghost cs = candles@;
    let ghost lim = limit as int;
    let mut r: Vec<Candle> = Vec::new();
    let mut k: usize = candles.len();
    while k > 0 && r.len() < limit
        invariant
            cs == candles@,
            lim == limit as int,
            k <= cs.len(),
            r@.len() <= limit,
            recent_candles(cs, cs.len() as int, lim) == r@ + recent_candles(
                cs,
                k as int,
                lim - r@.len(),
            ),
        decreases k,
    {
        let ghost r0 = r@;
        r.push(candles[k - 1]);
        proof {
            assert(recent_candles(cs, k as int, lim - r0.len()) == seq![cs[k as int - 1]]
                + recent_candles(cs, k as int - 1, (lim - r0.len()) - 1));
            assert(r@ =~= r0 + seq![cs[k as int - 1]]);
            assert(r@ + recent_candles(cs, k as int - 1, lim - r@.len()) =~= (r0 + seq![
                cs[k as int - 1],
            ]) + recent_candles(cs, k as int - 1, (lim - r0.len()) - 1));
            assert((r0 + seq![cs[k as int - 1]]) + recent_candles(
                cs,
                k as int - 1,
                (lim - r0.len()) - 1,
            ) =~= r0 + (seq![cs[k as int - 1]] + recent_candles(
                cs,
                k as int - 1,
                (lim - r0.len()) - 1,
            )));
        }
        k -= 1;
    }
    proof {
        if k == 0 {
            assert(recent_candles(cs, 0, lim - r@.len()) =~= Seq::<Candle>::empty());
        } else {
            assert(recent_candles(cs, k as int, 0) =~= Seq::<Candle>::empty());
        }
        assert(r@ + Seq::<Candle>::empty() =~= r@);
    }
    r
}

/// The aggregation bucket of one bar.
fn candle_key(c: &Candle, minutes: u64) -> (r: u64)
    requires
        c.timestamp >= 0,
        1 <= minutes,
    ensures
        r == group_key(*c, minutes as int),
{
    let ts: u64 = c.timestamp as u64;
    ts / 60 / minutes
}

/// Aggregate one consecutive window `candles[s..e]` into a single bar.
fn create_aggregated_candle(candles: &Vec<Candle>, s: usize, e: usize) -> (out: Candle)
    requires
        s < e <= candles@.len(),
        forall|i: int| 0 <= i < candles@.len() ==> (#[trigger] candles@[i]).wf(),
    ensures
        out.open == candles@[s as int].open,
        out.close == candles@[e as int - 1].close,
        out.high == max_high(candles@.subrange(s as int, e as int)),
        out.low == min_low(candles@.subrange(s as int, e as int)),
        out.volume == clamp_vol(sum_candle_volume(candles@.subrange(s as int, e as int))),
        out.timestamp == candles@[s as int].timestamp,
        out.wf(),
{
    let ghost cs = candles@;
    let mut high: u64 = 0;
    let mut low: u64 = PRICE_LIMIT + 1;
    let mut vol: u128 = 0;
    let mut i: usize = s;
    while i < e
        invariant
            cs == candles@,
            s <= i <= e <= cs.len(),
            forall|k: int| 0 <= k < cs.len() ==> (#[trigger] cs[k]).wf(),
            high == max_high(cs.subrange(s as int, i as int)),
            low == min_low(cs.subrange(s as int, i as int)),
            vol == sum_candle_volume(cs.subrange(s as int, i as int)),
            vol <= (i - s) * 0xFFFF_FFFF_FFFF_FFFFu64,
            high <= PRICE_LIMIT,
            low <= PRICE_LIMIT + 1,
        decreases e - i,
    {
        proof {
            assert(cs.subrange(s as int, i as int + 1).drop_last() =~= cs.subrange(
                s as int,
                i as int,
            ));
            assert(cs.subrange(s as int, i as int + 1).last() == cs[i as int]);
            assert(cs[i as int].wf());
            assert((i - s) * 0xFFFF_FFFF_FFFF_FFFFu64 <= 0xFFFF_FFFF_FFFF_FFFFu64
                * 0xFFFF_FFFF_FFFF_FFFFu64) by (nonlinear_arith)
                requires 0 <= i - s <= 0xFFFF_FFFF_FFFF_FFFFu64;
        }
        let c = &candles[i];
        if c.high > high {
            high = c.high;
        }
        if c.low < low {
            low = c.low;
        }
        vol = vol + c.volume as u128;
        i += 1;
    }
    let volume: u64 = if vol > u64::MAX as u128 {
        u64::MAX
    } else {
        vol as u64
    };
    let out = Candle {
        timestamp: candles[s].timestamp,
        open: candles[s].open,
        high,
        low,
        close: candles[e - 1].close,
        volume,
    };
    proof {
        let window = cs.subrange(s as int, e as int);
        assert(forall|k: int| 0 <= k < window.len() ==> #[trigger] window[k] == cs[s + k]);
        lemma_window_range(window);
        lemma_window_bounds(window, 0);
        lemma_window_bounds(window, e - s - 1);
        assert(window[0] == cs[s as int]);
        assert(window[e - s - 1] == cs[e as int - 1]);
        assert(cs[s as int].wf() && cs[e as int - 1].wf());
        assert(out.wf());
    }
    out
}

/// The extremes of a window of well-formed bars stay inside the price band.
proof fn lemma_window_range(cs: Seq<Candle>)
    requires
        forall|i: int| 0 <= i < cs.len() ==> (#[trigger] cs[i]).wf(),
    ensures
        max_high(cs) <= PRICE_LIMIT,
        min_low(cs) >= 1,
    decreases cs.len(),
{
    if cs.len() > 0 {
        assert(forall|i: int|
            0 <= i < cs.drop_last().len() ==> #[trigger] cs.drop_last()[i] == cs[i]);
        lemma_window_range(cs.drop_last());
        assert(cs.last().wf());
    }
}

/// The extremes of a window bound each bar in it.
proof fn lemma_window_bounds(cs: Seq<Candle>, i: int)
    requires
        0 <= i < cs.len(),
    ensures
        max_high(cs) >= cs[i].high,
        min_low(cs) <= cs[i].low,
    decreases cs.len(),
{
    if i < cs.len() - 1 {
        lemma_window_bounds(cs.drop_last(), i);
        assert(cs.drop_last()[i] == cs[i]);
    }
}

/// Aggregate a one-minute history into bars of `minutes` minutes, newest
/// group first, at most `limit` of them. Each output bar aggregates one
/// maximal consecutive run of bars sharing an aggregation bucket.
fn aggregate_candles(candles: &Vec<Candle>, minutes: u64, limit: usize) -> (r: Vec<Candle>)
    requires
        1 <= minutes <= 1440,
        forall|i: int| 0 <= i < candles@.len() ==> (#[trigger] candles@[i]).wf(),
    ensures
        r@.len() <= limit,
        forall|n: int|
            0 <= n < r@.len() ==> aggregated_ok(candles@, minutes as int, #[trigger] r@[n]),
        tiled_ok(candles@, minutes as int, r@, limit as int),
{
    let ghost cs = candles@;
    let ghost lim = limit as int;
    let mut r: Vec<Candle> = Vec::new();
    let ghost mut bounds: Seq<int> = seq![candles@.len() as int];
    let mut e: usize = candles.len();
    while e > 0 && r.len() < limit
        invariant
            cs == candles@,
            lim == limit as int,
            1 <= minutes <= 1440,
            forall|i: int| 0 <= i < cs.len() ==> (#[trigger] cs[i]).wf(),
            e <= cs.len(),
            r@.len() <= limit,
            forall|n: int|
                0 <= n < r@.len() ==> aggregated_ok(cs, minutes as int, #[trigger] r@[n]),
            bounds.len() == r@.len() + 1,
            bounds[0] == cs.len(),
            bounds[r@.len() as int] == e as int,
            e == cs.len() || e == 0 || group_key(cs[e as int], minutes as int) != group_key(
                cs[e as int - 1],
                minutes as int,
            ),
            forall|n: int|
                0 <= n < r@.len() ==> #[trigger] is_group_aggregate(
                    cs,
                    bounds[n + 1],
                    bounds[n],
                    minutes as int,
                    r@[n],
                ),
        decreases e,
    {
        let key = candle_key(&candles[e - 1], minutes);
        let mut s: usize = e - 1;
        while s > 0 && candle_key(&candles[s - 1], minutes) == key
            invariant
                cs == candles@,
                1 <= minutes <= 1440,
                forall|i: int| 0 <= i < cs.len() ==> (#[trigger] cs[i]).wf(),
                0 < e <= cs.len(),
                s < e,
                key == group_key(cs[e as int - 1], minutes as int),
                forall|i: int|
                    s <= i < e ==> group_key(#[trigger] cs[i], minutes as int) == group_key(
                        cs[e as int - 1],
                        minutes as int,
                    ),
            decreases s,
        {
            s -= 1;
        }
        let agg = create_aggregated_candle(candles, s, e);
        let ghost r0 = r@;
        let ghost bounds0 = bounds;
        r.push(agg);
        proof {
            bounds = bounds.push(s as int);
            assert(is_group_aggregate(cs, s as int, e as int, minutes as int, agg));
            assert forall|n: int| 0 <= n < r@.len() implies aggregated_ok(
                cs,
                minutes as int,
                #[trigger] r@[n],
            ) by {
                if n < r0.len() {
                    assert(r@[n] == r0[n]);
                    assert(aggregated_ok(cs, minutes as int, r0[n]));
                } else {
                    assert(r@[n] == agg);
                    assert(is_group_aggregate(cs, s as int, e as int, minutes as int, r@[n]));
                }
            }
            assert forall|n: int| 0 <= n < r@.len() implies #[trigger] is_group_aggregate(
                cs,
                bounds[n + 1],
                bounds[n],
                minutes as int,
                r@[n],
            ) by {
                if n < r0.len() {
                    assert(bounds[n] == bounds0[n] && bounds[n + 1] == bounds0[n + 1]);
                    assert(r@[n] == r0[n]);
                } else {
                    assert(bounds[n] == e as int && bounds[n + 1] == s as int);
                    assert(r@[n] == agg);
                }
            }
        }
        e = s;
    }
    proof {
        assert(r@.len() < lim ==> bounds[r@.len() as int] == 0);
        assert(tiles(cs, minutes as int, r@, bounds, lim));
        assert(tiled_ok(cs, minutes as int, r@, lim));
    }
    r
}

/// The candle timestamps of a freshly seeded history: one per minute,
/// ending one minute before `now`.
pub open spec fn seeded_timestamps(cs: Seq<Candle>, now: i64) -> bool {
    forall|i: int| 0 <= i < cs.len() ==> (#[trigger] cs[i]).timestamp == now - (cs.len() - i) * 60
}

/// A seeded history is a random walk: it starts at the base price and each
/// bar opens at the previous bar's close.
pub open spec fn seeded_walk(cs: Seq<Candle>, base_price: u64) -> bool {
    &&& (cs.len() > 0 ==> cs[0].open == base_price)
    &&& (forall|i: int| 1 <= i < cs.len() ==> (#[trigger] cs[i]).open == cs[i - 1].close)
}

/// A synthetic one-minute history of 1000 bars walking backward from
/// `now`: each close is the open moved by a draw within the volatility,
/// each high and low pad the bar outward by at most half the volatility.
fn generate_initial_history(vol: u64, base_price: u64, now: i64) -> (r: Vec<Candle>)
    requires
        2 <= vol <= 1_000_000,
        0 < base_price <= PRICE_LIMIT,
        now >= 60_000,
    ensures
        r@.len() == 1000,
        forall|i: int| 0 <= i < r@.len() ==> (#[trigger] r@[i]).wf(),
        seeded_timestamps(r@, now),
        seeded_walk(r@, base_price),
{
    let mut r: Vec<Candle> = Vec::new();
    let mut current: u64 = base_price;
    let mut i: usize = 0;
    while i < 1000
        invariant
            2 <= vol <= 1_000_000,
            now >= 60_000,
            0 < current <= PRICE_LIMIT,
            i <= 1000,
            r@.len() == i as int,
            forall|k: int| 0 <= k < i ==> (#[trigger] r@[k]).wf(),
            forall|k: int| 0 <= k < i ==> (#[trigger] r@[k]).timestamp == now - (1000 - k) * 60,
            i == 0 ==> current == base_price,
            i > 0 ==> r@[i - 1].close == current,
            i > 0 ==> r@[0].open == base_price,
            forall|k: int| 1 <= k < i ==> (#[trigger] r@[k]).open == r@[k - 1].close,
        decreases 1000 - i,
    {
        let timestamp: i64 = now - (1000 - i as i64) * 60;
        let open = current;
        let close = apply_ppm(open, rng::gen_range_i64(-(vol as i64), vol as i64));
        let hi_base = if open >= close {
            open
        } else {
            close
        };
        let lo_base = if open <= close {
            open
        } else {
            close
        };
        let up = rng::gen_range_u64(0, vol / 2) as i64;
        let down = rng::gen_range_u64(0, vol / 2) as i64;
        let high = apply_ppm(hi_base, up);
        let low = apply_ppm(lo_base, -down);
        let volume = rng::gen_range_u64(1_000, 10_000);
        let candle = Candle { timestamp, open, high, low, close, volume };
        proof {
            assert(candle.wf());
        }
        r.push(candle);
        current = close;
        i += 1;
    }
    proof {
        assert forall|k: int| 0 <= k < r@.len() implies (#[trigger] r@[k]).timestamp == now - (
        r@.len() - k) * 60 by {}
    }
    r
}

/// The one-minute history after folding in a price move at `now`: the
/// current minute's bar extended (close set, extremes widened, volume grown
/// by a small draw), or a fresh bar appended (dropping the oldest beyond
/// the cap); an empty history stays empty.
pub open spec fn candles_folded(
    pre: Seq<Candle>,
    post: Seq<Candle>,
    old_price: u64,
    new_price: u64,
    now: i64,
) -> bool {
    &&& (pre.len() == 0 ==> post == pre)
    &&& (pre.len() > 0 && pre.last().timestamp / 60 == now / 60 ==> ({
        let last = pre.last();
        &&& post.len() == pre.len()
        &&& (forall|i: int| 0 <= i < pre.len() - 1 ==> post[i] == pre[i])
        &&& post.last().close == new_price
        &&& post.last().high == (if last.high >= new_price {
            last.high
        } else {
            new_price
        })
        &&& post.last().low == (if last.low <= new_price {
            last.low
        } else {
            new_price
        })
        &&& post.last().open == last.open
        &&& post.last().timestamp == last.timestamp
        &&& post.last().volume >= last.volume
        &&& (last.volume + 100 <= u64::MAX ==> last.volume + 10 <= post.last().volume < last.volume
            + 100)
    }))
    &&& (pre.len() > 0 && pre.last().timestamp / 60 != now / 60 ==> ({
        let kept = if pre.len() == CANDLE_CAP {
            pre.drop_first()
        } else {
            pre
        };
        &&& post.len() == kept.len() + 1
        &&& (forall|i: int| 0 <= i < kept.len() ==> post[i] == kept[i])
        &&& post.last().open == old_price
        &&& post.last().close == new_price
        &&& post.last().high == (if old_price >= new_price {
            old_price
        } else {
            new_price
        })
        &&& post.last().low == (if old_price <= new_price {
            old_price
        } else {
            new_price
        })
        &&& post.last().timestamp == now
        &&& 100 <= post.last().volume < 1000
    }))
}

/// Fold the newest price into a one-minute history as `candles_folded`
/// says.
fn update_candle_data(candles: &mut Vec<Candle>, old_price: u64, new_price: u64, now: i64)
    requires
        forall|i: int| 0 <= i < old(candles)@.len() ==> (#[trigger] old(candles)@[i]).wf(),
        old(candles)@.len() <= CANDLE_CAP,
        0 < old_price <= PRICE_LIMIT,
        0 < new_price <= PRICE_LIMIT,
        now >= 0,
    ensures
        forall|i: int| 0 <= i < final(candles)@.len() ==> (#[trigger] final(candles)@[i]).wf(),
        final(candles)@.len() <= CANDLE_CAP,
        candles_folded(old(candles)@, final(candles)@, old_price, new_price, now),
{
    let ghost pre = candles@;
    if candles.len() == 0 {
        return ;
    }
    let n = candles.len() - 1;
    let last_minute: i64 = candles[n].timestamp / 60;
    let current_minute: i64 = now / 60;
    if last_minute == current_minute {
        let mut last = candles.remove(n);
        let d = rng::gen_range_u64(10, 100);
        last.close = new_price;
        if new_price > last.high {
            last.high = new_price;
        }
        if new_price < last.low {
            last.low = new_price;
        }
        last.volume = if last.volume > u64::MAX - d {
            u64::MAX
        } else {
            last.volume + d
        };
        candles.push(last);
        proof {
            assert(candles@.last().wf());
            assert(forall|i: int| 0 <= i < pre.len() - 1 ==> #[trigger] candles@[i] == pre[i]);
        }
    } else {
        let d = rng::gen_range_u64(100, 1_000);
        let candle = Candle {
            timestamp: now,
            open: old_price,
            high: if old_price >= new_price {
                old_price
            } else {
                new_price
            },
            low: if old_price <= new_price {
                old_price
            } else {
                new_price
            },
            close: new_price,
            volume: d,
        };
        proof {
            assert(candle.wf());
        }
        if candles.len() == CANDLE_CAP {
            candles.remove(0);
            proof {
                assert(candles@ =~= pre.drop_first());
            }
        }
        candles.push(candle);
    }
}

} // verus!
