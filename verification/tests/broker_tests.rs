use fx_venue::broker::{Broker, BrokerType, ExecutionModel, LiquidityProvider};
use fx_venue::orderbook::{Order, OrderSide, OrderType};

fn buy_order(amount: u64, price: u64) -> Order {
    Order {
        id: 7,
        symbol: "EURUSD".to_owned(),
        side: OrderSide::Buy,
        amount,
        price,
        timestamp: 1_700_000_000,
        participant_id: "client".to_owned(),
        order_type: OrderType::Limit,
    }
}

#[test]
fn broker_type_tables() {
    let b = Broker::new("Direct Access".to_owned(), BrokerType::DirectAccess, 100, 0);
    assert_eq!(b.execution_model, ExecutionModel::ExchangeExecution);
    assert_eq!(b.slippage_factor, 100);
    assert_eq!(b.requote_probability, 20_000);
    assert_eq!(b.max_leverage, 500);
    assert_eq!(b.min_trade_size, 1_000);
    assert_eq!(b.max_trade_size, 100_000_000);
    assert_eq!(b.id.len(), 36);
    let e = Broker::new("ECN".to_owned(), BrokerType::ECN, 0, 5_000_000);
    assert_eq!(e.execution_model, ExecutionModel::MarketExecution);
    assert_eq!(e.max_leverage, 200);
    assert_eq!(e.liquidity_providers.len(), 4);
    let m = Broker::new("MM".to_owned(), BrokerType::MarketMaker, 300, 0);
    assert_eq!(m.execution_model, ExecutionModel::InstantExecution);
    assert_eq!(m.max_leverage, 100);
    assert_eq!(m.requote_probability, 150_000);
}

#[test]
fn market_maker_pipeline_with_seeded_slippage() {
    // MarketMaker with spread 0.0004: Buy at 1.0950 moves to 1.0952 at the
    // execution-model stage; a slippage draw of 0.0002 gives 1.0954; the
    // requote stage does not fire.
    let broker = Broker::new("MM".to_owned(), BrokerType::MarketMaker, 400, 0);
    let out = broker.process_order_with(buy_order(100_000, 1_095_000), Some(200), None);
    assert_eq!(out.price, 1_095_400);
    assert_eq!(out.amount, 100_000);
}

#[test]
fn ecn_pipeline_aggregates_weighted_lp_prices() {
    // Two providers, weights 1 and 3, markups 0.00005 and 0.00009: a Buy
    // at 1.2000 aggregates to (1*1.20005 + 3*1.20009)/4 = 1.20008.
    let mut broker = Broker::new("ECN".to_owned(), BrokerType::ECN, 0, 0);
    broker.liquidity_providers = vec![
        LiquidityProvider { name: "LP1".to_owned(), tier: 1, weight: 1, spread_markup: 50 },
        LiquidityProvider { name: "LP2".to_owned(), tier: 1, weight: 3, spread_markup: 90 },
    ];
    let out = broker.process_order_with(buy_order(100_000, 1_200_000), None, None);
    assert_eq!(out.price, 1_200_080);
}

#[test]
fn direct_access_pipeline_is_identity_without_draws() {
    let broker = Broker::new("DA".to_owned(), BrokerType::DirectAccess, 100, 0);
    let out = broker.process_order_with(buy_order(100_000, 1_095_000), None, None);
    assert_eq!(out.price, 1_095_000);
}

#[test]
fn sell_side_pipeline_moves_price_down() {
    let broker = Broker::new("MM".to_owned(), BrokerType::MarketMaker, 400, 0);
    let mut o = buy_order(100_000, 1_095_000);
    o.side = OrderSide::Sell;
    let out = broker.process_order_with(o, Some(200), None);
    // 1.0950 - 0.0002 (half spread) - 0.0002 (slippage) = 1.0946
    assert_eq!(out.price, 1_094_600);
}

#[test]
fn requote_rescales_by_drawn_ppm() {
    let broker = Broker::new("DA".to_owned(), BrokerType::DirectAccess, 100, 0);
    let out = broker.process_order_with(buy_order(100_000, 1_000_000), None, Some(500));
    // 1.0 * (1 + 0.0005) = 1.0005
    assert_eq!(out.price, 1_000_500);
    let down = broker.process_order_with(buy_order(100_000, 1_000_000), None, Some(-500));
    assert_eq!(down.price, 999_500);
}

#[test]
fn process_order_only_changes_price() {
    let broker = Broker::new("MM".to_owned(), BrokerType::MarketMaker, 400, 0);
    let input = buy_order(42_000, 1_095_000);
    let out = broker.process_order(input);
    assert_eq!(out.id, 7);
    assert_eq!(out.symbol, "EURUSD");
    assert_eq!(out.amount, 42_000);
    assert_eq!(out.participant_id, "client");
}

#[test]
fn commission_by_broker_type() {
    let ecn = Broker::new("ECN".to_owned(), BrokerType::ECN, 0, 5_000_000);
    // $5 per standard lot on a 100 000 volume: 5_000_000 * 100_000 / 100_000.
    assert_eq!(ecn.calculate_commission(100_000), 5_000_000);
    let da = Broker::new("DA".to_owned(), BrokerType::DirectAccess, 100, 0);
    assert_eq!(da.calculate_commission(100_000), 100_000);
    let mm = Broker::new("MM".to_owned(), BrokerType::MarketMaker, 300, 0);
    assert_eq!(mm.calculate_commission(100_000), 0);
}

#[test]
fn swap_rate_table() {
    let b = Broker::new("DA".to_owned(), BrokerType::DirectAccess, 100, 0);
    // EURUSD Buy at -0.5 per lot: -5 micro-units per base unit.
    assert_eq!(b.calculate_swap("EURUSD", OrderSide::Buy, 100_000), -500_000);
    assert_eq!(b.calculate_swap("EURUSD", OrderSide::Sell, 100_000), -2_100_000);
    assert_eq!(b.calculate_swap("GBPUSD", OrderSide::Buy, 100_000), 800_000);
    assert_eq!(b.calculate_swap("USDJPY", OrderSide::Sell, 100_000), -5_400_000);
    assert_eq!(b.calculate_swap("XXXYYY", OrderSide::Buy, 100_000), 0);
}

#[test]
fn effective_spread_adds_base_and_broker_spread() {
    let b = Broker::new("B".to_owned(), BrokerType::STP, 100, 0);
    assert_eq!(b.get_effective_spread("EURUSD"), 250);
    assert_eq!(b.get_effective_spread("GBPUSD"), 300);
    assert_eq!(b.get_effective_spread("USDJPY"), 15_100);
    assert_eq!(b.get_effective_spread("OTHER"), 300);
}

#[test]
fn admission_enforces_trade_size_bounds() {
    let b = Broker::new("ECN".to_owned(), BrokerType::ECN, 0, 0);
    assert!(!b.can_execute_order(&buy_order(999, 1_000_000)));
    assert!(!b.can_execute_order(&buy_order(100_000_001, 1_000_000)));
    assert!(b.can_execute_order(&buy_order(1_000, 1_000_000)));
    assert!(b.can_execute_order(&buy_order(100_000_000, 1_000_000)));
}

#[test]
fn execution_speed_stays_in_documented_band() {
    let b = Broker::new("MM".to_owned(), BrokerType::MarketMaker, 300, 0);
    for _ in 0..50 {
        let ms = b.get_execution_speed_ms();
        assert!((1..10).contains(&ms));
    }
    let r = Broker::new("H".to_owned(), BrokerType::Hybrid, 300, 0);
    for _ in 0..50 {
        let ms = r.get_execution_speed_ms();
        assert!((100..500).contains(&ms));
    }
}

#[test]
fn margin_decreases_with_leverage_up_to_cap() {
    let b = Broker::new("DA".to_owned(), BrokerType::DirectAccess, 100, 0);
    // Notional of 1 000 units is 1e9 micro-units.
    let m1 = b.get_margin_requirement("EURUSD", 1_000, 1);
    let m100 = b.get_margin_requirement("EURUSD", 1_000, 100);
    let m500 = b.get_margin_requirement("EURUSD", 1_000, 500);
    let m900 = b.get_margin_requirement("EURUSD", 1_000, 900);
    assert_eq!(m1, 1_000_000_000);
    assert_eq!(m100, 10_000_000);
    assert_eq!(m500, 2_000_000);
    assert!(m1 > m100 && m100 > m500);
    // Beyond the broker's cap the margin stays constant.
    assert_eq!(m900, m500);
    // JPY-quoted pairs scale the notional by 100.
    assert_eq!(b.get_margin_requirement("USDJPY", 1_000, 1), 100_000_000_000);
}

#[test]
fn available_symbols_by_type() {
    assert_eq!(
        Broker::new("DA".to_owned(), BrokerType::DirectAccess, 0, 0).get_available_symbols().len(),
        10
    );
    assert_eq!(Broker::new("E".to_owned(), BrokerType::ECN, 0, 0).get_available_symbols().len(), 6);
    let hybrid = Broker::new("H".to_owned(), BrokerType::Hybrid, 0, 0).get_available_symbols();
    assert_eq!(hybrid.len(), 3);
    assert_eq!(hybrid[0], "EURUSD");
    assert_eq!(hybrid[1], "GBPUSD");
    assert_eq!(hybrid[2], "USDJPY");
}

#[test]
fn deterministic_admission_rule() {
    let mm = Broker::new("MM".to_owned(), BrokerType::MarketMaker, 300, 0);
    // With the draw made explicit, the market maker's admission is exact.
    assert!(mm.can_execute_order_with(&buy_order(10_000, 1_000_000), true));
    assert!(!mm.can_execute_order_with(&buy_order(10_000, 1_000_000), false));
    assert!(!mm.can_execute_order_with(&buy_order(999, 1_000_000), true));
    let ecn = Broker::new("ECN".to_owned(), BrokerType::ECN, 0, 0);
    assert!(ecn.can_execute_order_with(&buy_order(10_000, 1_000_000), false));
}
