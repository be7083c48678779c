use fx_venue::broker::{Broker, BrokerType, ExecutionModel};
use fx_venue::market::{MarketEngine, MarketError, Trade, TradeType};
use fx_venue::orderbook::{Order, OrderSide, OrderType};
use fx_venue::participants::{Participant, ParticipantType};
use fx_venue::price_feed::PriceFeed;

fn seeded_engine() -> MarketEngine {
    let mut engine = MarketEngine::new();
    engine.add_symbol("EURUSD".to_owned());
    engine.add_symbol("GBPUSD".to_owned());
    engine.add_symbol("USDJPY".to_owned());
    engine
}

fn seed_ask(engine: &mut MarketEngine, symbol: &str, price: u64, amount: u64, maker: &str) {
    let mut found = None;
    for (i, b) in engine.symbols.iter().enumerate() {
        if b.symbol == symbol {
            found = Some(i);
        }
    }
    let i = found.expect("symbol must be registered");
    engine.symbols[i].add_order(Order {
        id: 1,
        symbol: symbol.to_owned(),
        side: OrderSide::Sell,
        amount,
        price,
        timestamp: 0,
        participant_id: maker.to_owned(),
        order_type: OrderType::Limit,
    });
}

#[test]
fn place_order_unknown_symbol_errors() {
    let mut engine = seeded_engine();
    let broker = Broker::new("DA".to_owned(), BrokerType::DirectAccess, 100, 0);
    let r = engine.place_order("XXXYYY", OrderSide::Buy, 10_000, broker);
    assert_eq!(r, Err(MarketError::UnknownSymbol));
    assert_eq!(engine.trade_history.len(), 0);
}

#[test]
fn place_order_rejects_out_of_bounds_amount() {
    let mut engine = seeded_engine();
    let broker = Broker::new("DA".to_owned(), BrokerType::DirectAccess, 100, 0);
    let low = engine.place_order("EURUSD", OrderSide::Buy, 999, broker.clone());
    assert_eq!(low, Err(MarketError::AmountOutOfBounds));
    let high = engine.place_order("EURUSD", OrderSide::Buy, 100_000_001, broker);
    assert_eq!(high, Err(MarketError::AmountOutOfBounds));
}

#[test]
fn place_order_matches_seeded_liquidity() {
    let mut engine = seeded_engine();
    let mut broker = Broker::new("DA".to_owned(), BrokerType::DirectAccess, 0, 0);
    // Make the pipeline deterministic enough: no requotes; slippage only
    // moves the buy price up, which stays marketable.
    broker.requote_probability = 0;
    seed_ask(&mut engine, "EURUSD", 1_100_000, 50_000, "maker");
    let r = engine.place_order("EURUSD", OrderSide::Buy, 10_000, broker);
    let order_id = r.expect("marketable buy must be accepted");
    assert_eq!(engine.trade_history.len(), 1);
    let t = &engine.trade_history[0];
    assert_eq!(t.price, 1_100_000);
    assert_eq!(t.volume, 10_000);
    assert_eq!(t.buyer_id, "user");
    assert_eq!(t.seller_id, "maker");
    assert!(t.volume > 0 && t.price > 0);
    assert_eq!(engine.market_stats.total_trades, 1);
    assert_eq!(engine.market_stats.total_volume, 10_000);
    assert_eq!(engine.active_orders.len(), 1);
    assert_eq!(engine.active_orders[0].id, order_id);
}

#[test]
fn place_order_invalid_price_from_degenerate_spread() {
    let mut engine = seeded_engine();
    // A custom broker whose spread pushes the sell price to zero and whose
    // stochastic stages never fire upward.
    let broker = Broker {
        id: "wide".to_owned(),
        name: "Wide".to_owned(),
        broker_type: BrokerType::DirectAccess,
        spread: 1_000_000_000_000,
        commission: 0,
        execution_model: ExecutionModel::ExchangeExecution,
        liquidity_providers: Vec::new(),
        slippage_factor: 100,
        requote_probability: 0,
        max_leverage: 500,
        min_trade_size: 1_000,
        max_trade_size: 100_000_000,
    };
    let r = engine.place_order("EURUSD", OrderSide::Sell, 10_000, broker);
    assert_eq!(r, Err(MarketError::InvalidPrice));
}

#[test]
fn market_maker_sometimes_rejects() {
    let mut engine = seeded_engine();
    let broker = Broker::new("MM".to_owned(), BrokerType::MarketMaker, 300, 0);
    let mut rejected = false;
    for _ in 0..1_000 {
        if engine.place_order("EURUSD", OrderSide::Buy, 10_000, broker.clone())
            == Err(MarketError::BrokerRejected)
        {
            rejected = true;
            break;
        }
    }
    assert!(rejected, "a market maker rejects about five percent of orders");
}

#[test]
fn execute_trades_settle_balances() {
    let mut engine = seeded_engine();
    engine.add_participant(Participant::new(
        "maker".to_owned(),
        "Maker".to_owned(),
        ParticipantType::Bank,
        1_000_000_000,
    ));
    engine.add_participant(Participant::new(
        "user".to_owned(),
        "User".to_owned(),
        ParticipantType::Trader,
        1_000_000_000,
    ));
    assert_eq!(engine.market_stats.active_participants, 2);
    let mut broker = Broker::new("DA".to_owned(), BrokerType::DirectAccess, 0, 0);
    broker.requote_probability = 0;
    seed_ask(&mut engine, "EURUSD", 1_000_000, 50_000, "maker");
    engine.place_order("EURUSD", OrderSide::Buy, 1_000, broker).expect("must match");
    // One trade at 1.0 for 1 000 units: the buyer pays 1e9 micro-units.
    let t = &engine.trade_history[0];
    let cost = (t.price as i128) * (t.volume as i128);
    let maker = engine.participants.iter().find(|p| p.id == "maker").unwrap();
    let user = engine.participants.iter().find(|p| p.id == "user").unwrap();
    assert_eq!(maker.balance, 1_000_000_000 + cost);
    assert_eq!(user.balance, 1_000_000_000 - cost);
}

#[test]
fn recent_trades_filters_by_symbol_newest_first() {
    let mut engine = seeded_engine();
    let make = |id: u128, symbol: &str, price: u64| Trade {
        id,
        symbol: symbol.to_owned(),
        buyer_id: "b".to_owned(),
        seller_id: "s".to_owned(),
        price,
        volume: 100,
        timestamp: id as i64,
        trade_type: TradeType::Market,
    };
    engine.trade_history.push(make(1, "EURUSD", 1_000_000));
    engine.trade_history.push(make(2, "GBPUSD", 1_265_000));
    engine.trade_history.push(make(3, "EURUSD", 1_001_000));
    engine.trade_history.push(make(4, "EURUSD", 1_002_000));
    let recent = engine.get_recent_trades("EURUSD", 2);
    assert_eq!(recent.len(), 2);
    assert_eq!(recent[0].id, 4);
    assert_eq!(recent[1].id, 3);
    let all = engine.get_recent_trades("EURUSD", 10);
    assert_eq!(all.len(), 3);
    assert_eq!(engine.get_recent_trades("USDJPY", 10).len(), 0);
}

#[test]
fn participant_positions_net_by_symbol() {
    let mut engine = seeded_engine();
    let make = |id: u128, symbol: &str, buyer: &str, seller: &str, volume: u64| Trade {
        id,
        symbol: symbol.to_owned(),
        buyer_id: buyer.to_owned(),
        seller_id: seller.to_owned(),
        price: 1_000_000,
        volume,
        timestamp: 0,
        trade_type: TradeType::Market,
    };
    engine.trade_history.push(make(1, "EURUSD", "alice", "bob", 500));
    engine.trade_history.push(make(2, "EURUSD", "bob", "alice", 200));
    engine.trade_history.push(make(3, "GBPUSD", "alice", "carol", 50));
    let positions = engine.get_participant_positions("alice");
    assert_eq!(positions.len(), 2);
    let eur = positions.iter().find(|(s, _)| s == "EURUSD").unwrap();
    assert_eq!(eur.1, 300);
    let gbp = positions.iter().find(|(s, _)| s == "GBPUSD").unwrap();
    assert_eq!(gbp.1, 50);
    assert_eq!(engine.get_participant_positions("dave").len(), 0);
}

#[test]
fn simulation_tick_keeps_invariants_and_appends_history() {
    let mut engine = seeded_engine();
    for i in 0..20 {
        engine.add_participant(Participant::new_bank(format!("bank_{}", i)));
        engine.add_participant(Participant::new_trader(format!("trader_{}", i)));
    }
    let before = engine.trade_history.len();
    for _ in 0..50 {
        engine.update();
    }
    assert!(engine.trade_history.len() >= before);
    // The books stay crossed-free through the whole simulation.
    for book in &engine.symbols {
        if let (Some(bid), Some(ask)) = (book.get_best_bid(), book.get_best_ask()) {
            assert!(bid < ask);
        }
    }
    assert_eq!(engine.market_stats.active_participants, 40);
}

#[test]
fn stats_liquidity_index_is_mean_book_volume() {
    let mut engine = seeded_engine();
    seed_ask(&mut engine, "EURUSD", 1_000_000, 50_000, "m");
    let mut broker = Broker::new("DA".to_owned(), BrokerType::DirectAccess, 0, 0);
    broker.requote_probability = 0;
    engine.place_order("EURUSD", OrderSide::Buy, 30_000, broker).expect("must match");
    engine.update_market_stats();
    // 30 000 traded over three books.
    assert_eq!(engine.market_stats.liquidity_index, 10_000);
}

#[test]
fn feed_refresh_follows_the_books() {
    let mut engine = seeded_engine();
    let mut feed = PriceFeed::new();
    let now: i64 = 1_700_000_000;
    feed.add_symbol("EURUSD", 1_095_000, now);
    seed_ask(&mut engine, "EURUSD", 1_100_000, 50_000, "maker");
    let mut broker = Broker::new("DA".to_owned(), BrokerType::DirectAccess, 0, 0);
    broker.requote_probability = 0;
    engine.place_order("EURUSD", OrderSide::Buy, 10_000, broker).expect("must match");
    feed.update_from_market_at(&engine, now + 60);
    let q = feed.get_current_price("EURUSD");
    // The last trade printed at 1.1; noise moves it by at most 0.008 %.
    let last = q.last as i64;
    assert!((last - 1_100_000).abs() <= 1_100_000 * 80 / 1_000_000 + 1);
    assert_eq!(q.volume_24h, 10_000);
    assert!(q.bid <= q.ask);
}
