use fx_venue::orderbook::{Order, OrderBook, OrderSide, OrderType};

fn order(
    id: u128,
    side: OrderSide,
    amount: u64,
    price: u64,
    participant: &str,
    order_type: OrderType,
) -> Order {
    Order {
        id,
        symbol: "EURUSD".to_owned(),
        side,
        amount,
        price,
        timestamp: 1_700_000_000,
        participant_id: participant.to_owned(),
        order_type,
    }
}

#[test]
fn marketable_limit_crosses_single_resting_order() {
    let mut book = OrderBook::new("EURUSD".to_owned());
    // Resting Sell Limit at 1.1000 for 100 000 from A.
    let rested = book.add_order(order(1, OrderSide::Sell, 100_000, 1_100_000, "A", OrderType::Limit));
    assert!(rested.is_none());
    assert_eq!(book.get_best_ask(), Some(1_100_000));
    // Buy Limit 1.1005 for 100 000 from B crosses it entirely.
    let trades = book
        .add_order(order(2, OrderSide::Buy, 100_000, 1_100_500, "B", OrderType::Limit))
        .expect("the marketable limit must trade");
    assert_eq!(trades.len(), 1);
    assert_eq!(trades[0].price, 1_100_000);
    assert_eq!(trades[0].volume, 100_000);
    assert_eq!(trades[0].buyer_id, "B");
    assert_eq!(trades[0].seller_id, "A");
    assert_eq!(book.get_best_bid(), None);
    assert_eq!(book.get_best_ask(), None);
    assert_eq!(book.last_trade_price, 1_100_000);
    assert_eq!(book.get_total_volume(), 100_000);
}

#[test]
fn market_order_sweeps_two_levels() {
    let mut book = OrderBook::new("EURUSD".to_owned());
    book.add_order(order(1, OrderSide::Sell, 60_000, 1_100_000, "A", OrderType::Limit));
    book.add_order(order(2, OrderSide::Sell, 60_000, 1_100_200, "B", OrderType::Limit));
    let trades = book
        .add_order(order(3, OrderSide::Buy, 100_000, 1_100_000, "C", OrderType::Market))
        .expect("a market order against liquidity must trade");
    assert_eq!(trades.len(), 2);
    assert_eq!((trades[0].price, trades[0].volume), (1_100_000, 60_000));
    assert_eq!((trades[1].price, trades[1].volume), (1_100_200, 40_000));
    assert_eq!(trades[0].seller_id, "A");
    assert_eq!(trades[1].seller_id, "B");
    // Residual of the incoming market order is discarded, not rested.
    assert_eq!(book.get_best_bid(), None);
    let asks = book.get_asks(10);
    assert_eq!(asks.len(), 1);
    assert_eq!(asks[0], (1_100_200, 20_000));
    assert_eq!(book.get_total_volume(), 100_000);
}

#[test]
fn limit_rests_and_preserves_fifo() {
    let mut book = OrderBook::new("EURUSD".to_owned());
    book.add_order(order(1, OrderSide::Buy, 10_000, 1_095_000, "A", OrderType::Limit));
    book.add_order(order(2, OrderSide::Buy, 5_000, 1_095_000, "B", OrderType::Limit));
    let trades = book
        .add_order(order(3, OrderSide::Sell, 12_000, 1_095_000, "C", OrderType::Market))
        .expect("the sell must match the resting bids");
    assert_eq!(trades.len(), 2);
    assert_eq!(trades[0].buyer_id, "A");
    assert_eq!(trades[0].volume, 10_000);
    assert_eq!(trades[1].buyer_id, "B");
    assert_eq!(trades[1].volume, 2_000);
    let bids = book.get_bids(10);
    assert_eq!(bids.len(), 1);
    assert_eq!(bids[0], (1_095_000, 3_000));
    // The surviving order is B's, reduced to 3 000.
    assert_eq!(book.bids[0].orders.len(), 1);
    assert_eq!(book.bids[0].orders[0].participant_id, "B");
    assert_eq!(book.bids[0].orders[0].amount, 3_000);
}

#[test]
fn best_bid_stays_below_best_ask() {
    let mut book = OrderBook::new("EURUSD".to_owned());
    book.add_order(order(1, OrderSide::Buy, 10_000, 1_094_000, "A", OrderType::Limit));
    book.add_order(order(2, OrderSide::Sell, 10_000, 1_096_000, "B", OrderType::Limit));
    book.add_order(order(3, OrderSide::Buy, 5_000, 1_095_000, "C", OrderType::Limit));
    book.add_order(order(4, OrderSide::Sell, 5_000, 1_095_500, "D", OrderType::Limit));
    let bid = book.get_best_bid().unwrap();
    let ask = book.get_best_ask().unwrap();
    assert!(bid < ask);
    assert_eq!(book.get_spread(), Some(ask - bid));
    // Every resting bid buys, every resting ask sells.
    for level in &book.bids {
        for o in &level.orders {
            assert_eq!(o.side, OrderSide::Buy);
            assert_eq!(o.price, level.price);
        }
    }
    for level in &book.asks {
        for o in &level.orders {
            assert_eq!(o.side, OrderSide::Sell);
            assert_eq!(o.price, level.price);
        }
    }
}

#[test]
fn stop_order_triggers_on_last_trade_price() {
    let mut book = OrderBook::new("EURUSD".to_owned());
    // Fresh book: last trade price is seeded at 1.0.
    book.add_order(order(1, OrderSide::Sell, 10_000, 900_000, "A", OrderType::Limit));
    // Buy stop with trigger 0.95: last (1.0) >= 0.95, so it converts to a
    // market order and matches the resting ask.
    let trades = book
        .add_order(order(2, OrderSide::Buy, 10_000, 950_000, "B", OrderType::Stop))
        .expect("a triggered stop must trade");
    assert_eq!(trades[0].volume, 10_000);
    assert_eq!(trades[0].price, 900_000);
    // Sell stop with trigger below the last trade price is dropped.
    let rested = book.add_order(order(3, OrderSide::Sell, 10_000, 100_000, "C", OrderType::Stop));
    assert!(rested.is_none());
    assert_eq!(book.get_order_count(), 0);
}

#[test]
fn stop_limit_converts_to_limit_and_rests() {
    let mut book = OrderBook::new("EURUSD".to_owned());
    // Buy stop-limit with trigger at 0.99 <= last (1.0): converts to a
    // limit order; with no asks it rests on the bid side.
    let rested = book.add_order(order(1, OrderSide::Buy, 10_000, 990_000, "A", OrderType::StopLimit));
    assert!(rested.is_none());
    assert_eq!(book.get_best_bid(), Some(990_000));
    assert_eq!(book.bids[0].orders[0].order_type, OrderType::Limit);
    // A sell stop-limit triggers only when the last trade price has come
    // down to its trigger; with the trigger far below it is dropped.
    let dropped = book.add_order(order(2, OrderSide::Sell, 10_000, 100_000, "B", OrderType::StopLimit));
    assert!(dropped.is_none());
    assert_eq!(book.get_order_count(), 1);
}

#[test]
fn remove_order_preserves_fifo_of_remaining() {
    let mut book = OrderBook::new("EURUSD".to_owned());
    book.add_order(order(1, OrderSide::Buy, 1_000, 1_095_000, "A", OrderType::Limit));
    book.add_order(order(2, OrderSide::Buy, 2_000, 1_095_000, "B", OrderType::Limit));
    book.add_order(order(3, OrderSide::Buy, 3_000, 1_095_000, "C", OrderType::Limit));
    assert_eq!(book.get_order_count(), 3);
    assert!(book.remove_order(2));
    assert!(!book.remove_order(2));
    assert_eq!(book.get_order_count(), 2);
    assert_eq!(book.bids[0].orders[0].id, 1);
    assert_eq!(book.bids[0].orders[1].id, 3);
    // Removing the rest empties the level entirely.
    assert!(book.remove_order(1));
    assert!(book.remove_order(3));
    assert_eq!(book.get_bids(10).len(), 0);
}

#[test]
fn clear_empties_both_sides() {
    let mut book = OrderBook::new("EURUSD".to_owned());
    book.add_order(order(1, OrderSide::Buy, 1_000, 1_000_000, "A", OrderType::Limit));
    book.add_order(order(2, OrderSide::Sell, 1_000, 1_200_000, "B", OrderType::Limit));
    book.clear();
    assert_eq!(book.get_order_count(), 0);
    assert_eq!(book.get_total_volume(), 0);
}

#[test]
fn partial_fill_reduces_resting_order_in_place() {
    let mut book = OrderBook::new("EURUSD".to_owned());
    book.add_order(order(1, OrderSide::Sell, 50_000, 1_100_000, "A", OrderType::Limit));
    let trades = book
        .add_order(order(2, OrderSide::Buy, 20_000, 1_100_000, "B", OrderType::Limit))
        .expect("must partially fill");
    assert_eq!(trades.len(), 1);
    assert_eq!(trades[0].volume, 20_000);
    let asks = book.get_asks(10);
    assert_eq!(asks[0], (1_100_000, 30_000));
    // Conservation: filled volume never exceeds the incoming amount.
    let filled: u64 = trades.iter().map(|t| t.volume).sum();
    assert!(filled <= 20_000);
}

#[test]
fn book_rejects_degenerate_orders() {
    let mut book = OrderBook::new("EURUSD".to_owned());
    book.add_order(order(1, OrderSide::Sell, 10_000, 1_100_000, "A", OrderType::Limit));
    // A zero amount or zero price is rejected outright: no trades, and the
    // book is left exactly as it was.
    assert!(book.add_order(order(2, OrderSide::Buy, 0, 1_100_000, "B", OrderType::Market)).is_none());
    assert!(book.add_order(order(3, OrderSide::Buy, 10_000, 0, "B", OrderType::Limit)).is_none());
    assert_eq!(book.get_order_count(), 1);
    assert_eq!(book.get_best_ask(), Some(1_100_000));
    assert_eq!(book.get_total_volume(), 0);
}
