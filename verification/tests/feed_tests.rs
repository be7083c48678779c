use fx_venue::price_feed::{Candle, FeedEntry, PriceData, PriceFeed};

fn candle(ts: i64, open: u64, high: u64, low: u64, close: u64, volume: u64) -> Candle {
    Candle { timestamp: ts, open, high, low, close, volume }
}

fn entry_with(candles: Vec<Candle>) -> FeedEntry {
    FeedEntry {
        data: PriceData {
            symbol: "EURUSD".to_owned(),
            bid: 999_900,
            ask: 1_000_100,
            last: 1_000_000,
            high_24h: 1_000_000,
            low_24h: 1_000_000,
            volume_24h: 0,
            timestamp: 0,
            change_24h: 0,
            change_percent_24h: 0,
        },
        candles,
    }
}

#[test]
fn five_minute_aggregation() {
    // Five consecutive one-minute candles inside one five-minute bucket.
    let candles = vec![
        candle(0, 1_000_000, 1_120_000, 990_000, 1_100_000, 100),
        candle(60, 1_100_000, 1_110_000, 1_040_000, 1_050_000, 200),
        candle(120, 1_050_000, 1_210_000, 1_040_000, 1_200_000, 150),
        candle(180, 1_200_000, 1_220_000, 1_100_000, 1_150_000, 250),
        candle(240, 1_150_000, 1_310_000, 1_140_000, 1_300_000, 300),
    ];
    let feed = PriceFeed { entries: vec![entry_with(candles)], last_update: 0 };
    let bars = feed.get_historical_data("EURUSD", "5m", 10);
    assert_eq!(bars.len(), 1);
    let b = &bars[0];
    assert_eq!(b.open, 1_000_000);
    assert_eq!(b.close, 1_300_000);
    assert_eq!(b.high, 1_310_000);
    assert_eq!(b.low, 990_000);
    assert_eq!(b.volume, 1_000);
    assert_eq!(b.timestamp, 0);
}

#[test]
fn aggregation_splits_buckets_newest_first() {
    // Two five-minute buckets; the newest group comes first.
    let candles = vec![
        candle(0, 1_000_000, 1_010_000, 990_000, 1_005_000, 10),
        candle(60, 1_005_000, 1_015_000, 1_000_000, 1_010_000, 20),
        candle(300, 1_010_000, 1_030_000, 1_005_000, 1_020_000, 30),
        candle(360, 1_020_000, 1_040_000, 1_010_000, 1_030_000, 40),
    ];
    let feed = PriceFeed { entries: vec![entry_with(candles)], last_update: 0 };
    let bars = feed.get_historical_data("EURUSD", "5m", 10);
    assert_eq!(bars.len(), 2);
    assert_eq!(bars[0].open, 1_010_000);
    assert_eq!(bars[0].close, 1_030_000);
    assert_eq!(bars[0].volume, 70);
    assert_eq!(bars[1].open, 1_000_000);
    assert_eq!(bars[1].close, 1_010_000);
    assert_eq!(bars[1].volume, 30);
    // The limit caps the number of groups.
    let capped = feed.get_historical_data("EURUSD", "5m", 1);
    assert_eq!(capped.len(), 1);
    assert_eq!(capped[0].open, 1_010_000);
}

#[test]
fn one_minute_view_is_newest_first() {
    let candles = vec![
        candle(0, 1_000_000, 1_010_000, 990_000, 1_005_000, 10),
        candle(60, 1_005_000, 1_015_000, 1_000_000, 1_010_000, 20),
        candle(120, 1_010_000, 1_030_000, 1_005_000, 1_020_000, 30),
    ];
    let feed = PriceFeed { entries: vec![entry_with(candles)], last_update: 0 };
    let bars = feed.get_historical_data("EURUSD", "1m", 2);
    assert_eq!(bars.len(), 2);
    assert_eq!(bars[0].timestamp, 120);
    assert_eq!(bars[1].timestamp, 60);
    // Unknown symbols have no history.
    assert_eq!(feed.get_historical_data("XXXYYY", "1m", 2).len(), 0);
}

#[test]
fn add_symbol_seeds_quote_and_history() {
    let mut feed = PriceFeed::new();
    let now: i64 = 1_700_000_000;
    feed.add_symbol("EURUSD", 1_095_000, now);
    let q = feed.get_current_price("EURUSD");
    assert_eq!(q.symbol, "EURUSD");
    assert_eq!(q.last, 1_095_000);
    // Half the EURUSD base spread of 0.00015 on each side.
    assert_eq!(q.bid, 1_095_000 - 75);
    assert_eq!(q.ask, 1_095_000 + 75);
    assert_eq!(q.volume_24h, 0);
    assert_eq!(q.change_24h, 0);
    let bars = feed.get_historical_data("EURUSD", "1m", 2_000);
    assert_eq!(bars.len(), 1_000);
    // Candle invariants hold across the generated history.
    for b in &bars {
        assert!(b.low > 0);
        assert!(b.low <= b.open && b.open <= b.high);
        assert!(b.low <= b.close && b.close <= b.high);
    }
    // Newest first, one minute apart, ending one minute before `now`.
    assert_eq!(bars[0].timestamp, now - 60);
    assert_eq!(bars[1].timestamp, now - 120);
    assert_eq!(feed.get_symbols(), vec!["EURUSD".to_owned()]);
}

#[test]
fn unknown_symbol_gets_default_quote() {
    let feed = PriceFeed::new();
    let q = feed.get_current_price("GBPUSD");
    assert_eq!(q.bid, 1_000_000);
    assert_eq!(q.ask, 1_000_100);
    assert_eq!(q.last, 1_000_000);
}

#[test]
fn news_event_shocks_the_price() {
    let mut feed = PriceFeed::new();
    let now: i64 = 1_700_000_000;
    feed.add_symbol("EURUSD", 1_000_000, now);
    // +1% impact.
    feed.simulate_major_news_event("EURUSD", 10_000, now + 60);
    let q = feed.get_current_price("EURUSD");
    assert_eq!(q.last, 1_010_000);
    assert_eq!(q.high_24h, 1_010_000);
    assert_eq!(q.bid, 1_010_000 - 75);
    assert_eq!(q.ask, 1_010_000 + 75);
    // -50% impact from there.
    feed.simulate_major_news_event("EURUSD", -500_000, now + 120);
    let q2 = feed.get_current_price("EURUSD");
    assert_eq!(q2.last, 505_000);
    assert_eq!(q2.low_24h, 505_000);
}

#[test]
fn candle_update_extends_current_minute_or_appends() {
    let mut feed = PriceFeed { entries: vec![entry_with(vec![
        candle(600, 1_000_000, 1_010_000, 990_000, 1_005_000, 10),
    ])], last_update: 0 };
    // Same minute (600..660): the bar is extended, not replaced.
    feed.simulate_major_news_event("EURUSD", 10_000, 630);
    {
        let cs = &feed.entries[0].candles;
        assert_eq!(cs.len(), 1);
        assert_eq!(cs[0].open, 1_000_000);
        assert_eq!(cs[0].close, 1_010_000);
        assert_eq!(cs[0].high, 1_010_000.max(1_010_000));
        assert!(cs[0].volume >= 20 && cs[0].volume < 110);
    }
    // A later minute appends a fresh bar opening at the prior price.
    feed.simulate_major_news_event("EURUSD", 10_000, 700);
    {
        let cs = &feed.entries[0].candles;
        assert_eq!(cs.len(), 2);
        assert_eq!(cs[1].timestamp, 700);
        assert_eq!(cs[1].open, 1_010_000);
        assert_eq!(cs[1].close, 1_020_100);
        assert!(cs[1].volume >= 100 && cs[1].volume < 1_000);
    }
}
