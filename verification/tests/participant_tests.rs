use fx_venue::orderbook::OrderSide;
use fx_venue::participants::{Participant, ParticipantType, Position, TradingStrategy};

#[test]
fn participant_type_tables() {
    let bank = Participant::new("b1".to_owned(), "Bank".to_owned(), ParticipantType::Bank, 1_000_000);
    assert_eq!(bank.leverage, 50);
    assert_eq!(bank.trading_strategy, TradingStrategy::MarketMaking);
    assert_eq!(bank.risk_tolerance, 300_000);
    let gov = Participant::new(
        "g1".to_owned(),
        "Gov".to_owned(),
        ParticipantType::Government,
        1_000_000,
    );
    assert_eq!(gov.leverage, 1);
    assert_eq!(gov.trading_strategy, TradingStrategy::Conservative);
    assert_eq!(gov.risk_tolerance, 100_000);
    let trader = Participant::new(
        "t1".to_owned(),
        "Trader".to_owned(),
        ParticipantType::Trader,
        1_000_000,
    );
    assert_eq!(trader.leverage, 100);
    assert_eq!(trader.trading_strategy, TradingStrategy::HighFrequency);
    assert!(trader.active);
    assert_eq!(trader.equity, trader.balance);
}

#[test]
fn random_constructors_draw_documented_balance_ranges() {
    let bank = Participant::new_bank("1".to_owned());
    assert!(bank.balance >= 10_000_000_000_000 && bank.balance < 1_000_000_000_000_000);
    assert_eq!(bank.participant_type, ParticipantType::Bank);
    assert_eq!(bank.name, "Bank 1");
    let t = Participant::new_trader("2".to_owned());
    assert!(t.balance >= 100_000_000_000 && t.balance < 10_000_000_000_000);
    let h = Participant::new_hedge_fund("3".to_owned());
    assert!(h.balance >= 50_000_000_000_000 && h.balance < 500_000_000_000_000);
    let r = Participant::new_retail_trader("4".to_owned());
    assert!(r.balance >= 1_000_000_000 && r.balance < 100_000_000_000);
    let any = Participant::new_random("5".to_owned());
    assert!(matches!(
        any.participant_type,
        ParticipantType::Trader
            | ParticipantType::RetailTrader
            | ParticipantType::HedgeFund
            | ParticipantType::Corporation
    ));
}

#[test]
fn position_pnl_round_trip_is_zero() {
    let mut p = Position::new("EURUSD".to_owned(), OrderSide::Buy, 10_000, 1_095_000, 0);
    assert_eq!(p.get_unrealized_pnl(), 0);
    p.update_price(1_100_000);
    assert_eq!(p.get_unrealized_pnl(), 5_000 * 10_000);
    // Marking back to the entry price always zeroes the profit.
    p.update_price(1_095_000);
    assert_eq!(p.get_unrealized_pnl(), 0);
}

#[test]
fn sell_position_profits_when_price_falls() {
    let mut p = Position::new("EURUSD".to_owned(), OrderSide::Sell, 1_000, 1_100_000, 0);
    p.update_price(1_090_000);
    assert_eq!(p.get_unrealized_pnl(), 10_000 * 1_000);
    p.update_price(1_110_000);
    assert_eq!(p.get_unrealized_pnl(), -(10_000 * 1_000));
}

#[test]
fn return_percentage_in_micro_percent() {
    let mut p = Position::new("EURUSD".to_owned(), OrderSide::Buy, 1_000, 1_000_000, 0);
    p.update_price(1_100_000);
    // A 10 % favourable move: 10 * 1_000_000 micro-percent.
    assert_eq!(p.get_return_percentage(), 10_000_000);
    p.update_price(900_000);
    assert_eq!(p.get_return_percentage(), -10_000_000);
}

#[test]
fn equity_tracks_balance_plus_unrealized_pnl() {
    let mut acct = Participant::new(
        "t".to_owned(),
        "T".to_owned(),
        ParticipantType::Trader,
        1_000_000_000,
    );
    let mut pos = Position::new("EURUSD".to_owned(), OrderSide::Buy, 100, 1_000_000, 0);
    pos.update_price(1_010_000);
    let pnl = pos.get_unrealized_pnl();
    acct.add_position(pos);
    assert_eq!(acct.equity, 1_000_000_000 + pnl);
    assert_eq!(acct.get_free_margin(), acct.equity);
    // Closing realizes the profit into the balance.
    let closed = acct.close_position("EURUSD").expect("position must exist");
    assert_eq!(closed.get_unrealized_pnl(), pnl);
    assert_eq!(acct.balance, 1_000_000_000 + pnl);
    assert_eq!(acct.equity, acct.balance);
    assert!(acct.close_position("EURUSD").is_none());
}

#[test]
fn update_position_price_recomputes_pnl() {
    let mut acct = Participant::new(
        "t".to_owned(),
        "T".to_owned(),
        ParticipantType::Trader,
        5_000_000,
    );
    acct.add_position(Position::new("GBPUSD".to_owned(), OrderSide::Buy, 10, 1_265_000, 0));
    acct.update_position_price("GBPUSD", 1_270_000);
    assert_eq!(acct.positions[0].unrealized_pnl, 5_000 * 10);
    assert_eq!(acct.equity, 5_000_000 + 50_000);
    // Marking back to entry zeroes it again.
    acct.update_position_price("GBPUSD", 1_265_000);
    assert_eq!(acct.positions[0].unrealized_pnl, 0);
    assert_eq!(acct.equity, 5_000_000);
}

#[test]
fn add_position_replaces_same_symbol() {
    let mut acct = Participant::new(
        "t".to_owned(),
        "T".to_owned(),
        ParticipantType::Trader,
        5_000_000,
    );
    acct.add_position(Position::new("EURUSD".to_owned(), OrderSide::Buy, 10, 1_000_000, 0));
    acct.add_position(Position::new("EURUSD".to_owned(), OrderSide::Sell, 20, 1_100_000, 1));
    assert_eq!(acct.positions.len(), 1);
    assert_eq!(acct.positions[0].volume, 20);
}

#[test]
fn can_open_position_needs_free_margin_and_active() {
    let mut acct = Participant::new(
        "t".to_owned(),
        "T".to_owned(),
        ParticipantType::Trader,
        1_000_000,
    );
    assert!(acct.can_open_position(1_000_000));
    assert!(!acct.can_open_position(1_000_001));
    acct.deactivate();
    assert!(!acct.active);
    assert!(!acct.can_open_position(0));
    assert!(!acct.should_trade());
    acct.activate();
    assert!(acct.active);
}

#[test]
fn position_size_formula() {
    let mut acct = Participant::new(
        "t".to_owned(),
        "T".to_owned(),
        ParticipantType::Trader,
        1_000_000_000,
    );
    acct.risk_tolerance = 600_000;
    // equity * min(risk, tolerance) / 1e6 / price * leverage
    // = 1e9 * 0.5 / 2 * 100 = 25e9.
    assert_eq!(acct.calculate_position_size(2, 500_000), 25_000_000_000);
    // The tolerance caps the requested risk.
    assert_eq!(acct.calculate_position_size(2, 900_000), 30_000_000_000);
}

#[test]
fn simple_margin_requirement() {
    let acct = Participant::new(
        "t".to_owned(),
        "T".to_owned(),
        ParticipantType::Trader,
        1_000_000,
    );
    assert_eq!(acct.get_margin_requirement(100_000, 100), 1_000);
    assert_eq!(acct.get_margin_requirement(100_000, 3), 33_333);
}

#[test]
fn preferred_symbols_and_trade_sizes() {
    let bank = Participant::new("b".to_owned(), "B".to_owned(), ParticipantType::Bank, 0);
    assert_eq!(bank.get_preferred_symbols().len(), 6);
    for _ in 0..20 {
        let s = bank.get_typical_trade_size();
        assert!((1_000_000..10_000_000).contains(&s));
    }
    let retail = Participant::new("r".to_owned(), "R".to_owned(), ParticipantType::RetailTrader, 0);
    assert_eq!(retail.get_preferred_symbols(), vec!["EURUSD".to_owned()]);
    for _ in 0..20 {
        let s = retail.get_typical_trade_size();
        assert!((1_000..10_000).contains(&s));
    }
}
