use matching_engine::{Level, MatchingResult, Order, OrderSide, OrderType};
use std::cmp::Ordering;

fn resting(id: &str, price: u64, qty: u32, side: OrderSide, entry_seq: u64) -> Order {
    Order::new(String::from(id), String::from("REL"), qty, price, entry_seq, side, OrderType::Limit)
}

fn incoming(qty: u32, side: OrderSide) -> Order {
    Order::new(String::from("in"), String::from("REL"), qty, 0, 1_000, side, OrderType::Mkt)
}

fn ids(level: &Level) -> Vec<String> {
    level.orders().iter().map(|o| o.id().clone()).collect()
}

fn qtys(level: &Level) -> Vec<u32> {
    level.orders().iter().map(|o| o.qty()).collect()
}

fn matched(result: &MatchingResult) -> Vec<&str> {
    result.matched_order_ids().iter().map(|s| s.as_str()).collect()
}

#[test]
fn average_price_over_two_resting_orders() {
    let mut level = Level::from_first_order(&resting("a", 100, 100, OrderSide::Buy, 1));
    level.add_order(&resting("b", 101, 200, OrderSide::Buy, 2));

    let result = level.match_order(&incoming(300, OrderSide::Sell));

    assert_eq!(result.executed_qty(), 300);
    assert_eq!(matched(&result), vec!["a", "b"]);
    assert_eq!(result.executed_notional(), 100 * 100 + 200 * 101);
    assert_eq!(result.executed_price(), Some(100));
    let average = result.executed_notional() as f64 / result.executed_qty() as f64;
    assert!((average - 100.667).abs() < 0.001);
    assert!(level.is_empty());
    assert_eq!(level.len(), 0);
}

#[test]
fn earlier_arrival_trades_first_whatever_the_insertion_order() {
    let first = resting("early", 100, 50, OrderSide::Sell, 5);
    let second = resting("late", 100, 50, OrderSide::Sell, 9);

    let mut forward = Level::from_first_order(&first);
    forward.add_order(&second);
    let mut backward = Level::from_first_order(&second);
    backward.add_order(&first);

    assert_eq!(ids(&forward), vec!["early", "late"]);
    assert_eq!(ids(&backward), vec!["early", "late"]);

    let result = backward.match_order(&incoming(60, OrderSide::Buy));
    assert_eq!(matched(&result), vec!["early", "late"]);
    assert_eq!(result.executed_qty(), 60);
    assert_eq!(ids(&backward), vec!["late"]);
    assert_eq!(qtys(&backward), vec![40]);
}

#[test]
fn order_joins_between_earlier_and_later_arrivals() {
    let mut level = Level::from_first_order(&resting("a", 100, 10, OrderSide::Buy, 10));
    level.add_order(&resting("c", 100, 30, OrderSide::Buy, 30));
    level.add_order(&resting("b", 100, 20, OrderSide::Buy, 20));
    level.add_order(&resting("z", 100, 5, OrderSide::Buy, 1));

    assert_eq!(ids(&level), vec!["z", "a", "b", "c"]);
    assert_eq!(qtys(&level), vec![5, 10, 20, 30]);
}

#[test]
fn order_with_a_taken_arrival_number_does_not_join() {
    let mut level = Level::from_first_order(&resting("a", 100, 10, OrderSide::Buy, 7));
    level.add_order(&resting("b", 100, 99, OrderSide::Buy, 7));

    assert_eq!(ids(&level), vec!["a"]);
    assert_eq!(qtys(&level), vec![10]);
}

#[test]
fn exact_cross_removes_the_head_and_stops() {
    let mut level = Level::from_first_order(&resting("a", 100, 200, OrderSide::Buy, 1));
    level.add_order(&resting("b", 100, 70, OrderSide::Buy, 2));

    let result = level.match_order(&incoming(200, OrderSide::Sell));

    assert_eq!(result.executed_qty(), 200);
    assert_eq!(matched(&result), vec!["a"]);
    assert_eq!(result.executed_notional(), 20_000);
    assert_eq!(result.executed_price(), Some(100));
    assert_eq!(ids(&level), vec!["b"]);
    assert_eq!(qtys(&level), vec![70]);
}

#[test]
fn partial_cross_leaves_the_head_in_front_with_less() {
    let mut level = Level::from_first_order(&resting("a", 100, 200, OrderSide::Buy, 1));
    level.add_order(&resting("b", 100, 70, OrderSide::Buy, 2));

    let result = level.match_order(&incoming(150, OrderSide::Sell));

    assert_eq!(result.executed_qty(), 150);
    assert_eq!(matched(&result), vec!["a"]);
    assert_eq!(ids(&level), vec!["a", "b"]);
    assert_eq!(qtys(&level), vec![50, 70]);
    assert_eq!(level.order_at(0).map(|o| o.entry_seq()), Some(1));
}

#[test]
fn consumption_runs_on_to_the_next_order() {
    let mut level = Level::from_first_order(&resting("a", 100, 30, OrderSide::Sell, 1));
    level.add_order(&resting("b", 100, 30, OrderSide::Sell, 2));
    level.add_order(&resting("c", 100, 30, OrderSide::Sell, 3));

    let result = level.match_order(&incoming(70, OrderSide::Buy));

    assert_eq!(result.executed_qty(), 70);
    assert_eq!(matched(&result), vec!["a", "b", "c"]);
    assert_eq!(result.executed_notional(), 7_000);
    assert_eq!(ids(&level), vec!["c"]);
    assert_eq!(qtys(&level), vec![20]);
}

#[test]
fn incoming_larger_than_the_level_takes_all_of_it() {
    let mut level = Level::from_first_order(&resting("a", 100, 30, OrderSide::Sell, 1));
    level.add_order(&resting("b", 100, 30, OrderSide::Sell, 2));

    let result = level.match_order(&incoming(100, OrderSide::Buy));

    assert_eq!(result.executed_qty(), 60);
    assert_eq!(matched(&result), vec!["a", "b"]);
    assert!(level.is_empty());
}

#[test]
fn quantity_is_conserved_by_a_match() {
    let mut level = Level::from_first_order(&resting("a", 100, 11, OrderSide::Sell, 1));
    level.add_order(&resting("b", 100, 22, OrderSide::Sell, 2));
    level.add_order(&resting("c", 100, 33, OrderSide::Sell, 3));
    let before: u32 = qtys(&level).iter().sum();

    let taker = incoming(40, OrderSide::Buy);
    let result = level.match_order(&taker);

    let after: u32 = qtys(&level).iter().sum();
    assert_eq!(before - after, result.executed_qty());
    assert_eq!(result.executed_qty(), 40);
    assert_eq!(qtys(&level), vec![26]);
    assert_eq!(taker.qty(), 40);
}

#[test]
fn nothing_trades_for_an_incoming_quantity_of_zero() {
    let mut level = Level::from_first_order(&resting("a", 100, 30, OrderSide::Sell, 1));

    let result = level.match_order(&incoming(0, OrderSide::Buy));

    assert_eq!(result.executed_qty(), 0);
    assert_eq!(result.executed_notional(), 0);
    assert_eq!(result.executed_price(), None);
    assert!(result.matched_order_ids().is_empty());
    assert_eq!(qtys(&level), vec![30]);
}

#[test]
fn nothing_trades_against_an_empty_level() {
    let mut level = Level::from_order(&resting("a", 100, 30, OrderSide::Sell, 1));
    assert!(level.is_empty());
    assert_eq!(level.price(), 100);
    assert_eq!(level.side(), OrderSide::Sell);

    let result = level.match_order(&incoming(10, OrderSide::Buy));

    assert_eq!(result.executed_qty(), 0);
    assert_eq!(result.executed_price(), None);
    assert!(level.order_at(0).is_none());
}

#[test]
fn default_result_reports_no_trade() {
    let result = MatchingResult::default();
    assert_eq!(result.executed_qty(), 0);
    assert_eq!(result.executed_notional(), 0);
    assert_eq!(result.executed_price(), None);
    assert!(result.matched_order_ids().is_empty());
}

#[test]
fn largest_price_and_quantity_do_not_overflow() {
    let mut level = Level::from_first_order(&resting("a", u64::MAX, u32::MAX, OrderSide::Sell, 1));

    let result = level.match_order(&incoming(u32::MAX, OrderSide::Buy));

    assert_eq!(result.executed_qty(), u32::MAX);
    assert_eq!(result.executed_notional(), u64::MAX as u128 * u32::MAX as u128);
    assert_eq!(result.executed_price(), Some(u64::MAX));
}

#[test]
fn bids_are_compared_from_the_highest_price_down() {
    let high = Level::from_order(&resting("a", 101, 1, OrderSide::Buy, 1));
    let low = Level::from_order(&resting("b", 100, 1, OrderSide::Buy, 2));

    assert_eq!(high.compare(&low), Ordering::Less);
    assert_eq!(low.compare(&high), Ordering::Greater);
    assert_eq!(high.compare(&high), Ordering::Equal);
    assert!(high.has_priority_over(&low));
    assert!(!low.has_priority_over(&high));
    assert!(low.same_price(&low));
    assert!(!low.same_price(&high));
}

#[test]
fn asks_are_compared_from_the_lowest_price_up() {
    let high = Level::from_order(&resting("a", 101, 1, OrderSide::Sell, 1));
    let low = Level::from_order(&resting("b", 100, 1, OrderSide::Sell, 2));

    assert_eq!(low.compare(&high), Ordering::Less);
    assert_eq!(high.compare(&low), Ordering::Greater);
    assert_eq!(low.compare(&low), Ordering::Equal);
    assert!(low.has_priority_over(&high));
    assert!(!high.has_priority_over(&low));
}

#[test]
fn orders_compare_by_arrival_alone() {
    let early = resting("x", 105, 1, OrderSide::Buy, 3);
    let late = resting("y", 100, 900, OrderSide::Sell, 4);
    let twin = resting("z", 1, 2, OrderSide::Sell, 3);

    assert!(early < late);
    assert!(late > early);
    assert!(early != late);
    assert!(early == twin);
    assert_eq!(early.partial_cmp(&late), Some(Ordering::Less));
    assert_eq!(late.partial_cmp(&early), Some(Ordering::Greater));
    assert_eq!(early.partial_cmp(&twin), Some(Ordering::Equal));
}

#[test]
fn levels_compare_by_priority() {
    let best_bid = Level::from_order(&resting("a", 101, 1, OrderSide::Buy, 1));
    let next_bid = Level::from_first_order(&resting("b", 100, 1, OrderSide::Buy, 2));
    let same_bid = Level::from_first_order(&resting("c", 101, 7, OrderSide::Buy, 3));

    assert!(best_bid < next_bid);
    assert!(next_bid > best_bid);
    assert!(best_bid == same_bid);
    assert!(best_bid != next_bid);
    assert_eq!(best_bid.partial_cmp(&next_bid), Some(Ordering::Less));
}

#[test]
fn results_compare_by_executed_quantity() {
    let mut level = Level::from_first_order(&resting("a", 100, 30, OrderSide::Sell, 1));
    level.add_order(&resting("b", 100, 30, OrderSide::Sell, 2));
    let small = level.match_order(&incoming(10, OrderSide::Buy));
    let large = level.match_order(&incoming(40, OrderSide::Buy));
    let none = MatchingResult::default();

    assert!(small < large);
    assert!(none < small);
    assert!(small == small.clone());
    assert!(none == MatchingResult::default());
    assert_eq!(large.partial_cmp(&small), Some(Ordering::Greater));
    assert_eq!(matched(&large), vec!["a", "b"]);
    assert_eq!(large.clone().executed_notional(), 4_000);
}

#[test]
fn cloned_level_holds_the_same_orders() {
    let mut level = Level::from_first_order(&resting("a", 100, 30, OrderSide::Sell, 1));
    level.add_order(&resting("b", 100, 40, OrderSide::Sell, 2));

    let copy = level.clone();
    level.match_order(&incoming(50, OrderSide::Buy));

    assert_eq!(ids(&copy), vec!["a", "b"]);
    assert_eq!(qtys(&copy), vec![30, 40]);
    assert_eq!(qtys(&level), vec![20]);
    assert_eq!(copy.price(), 100);
    assert_eq!(copy.side(), OrderSide::Sell);
}

#[test]
fn order_reports_what_it_was_built_from() {
    let mut o = Order::new(
        String::from("42"),
        String::from("REL"),
        7,
        1_250,
        99,
        OrderSide::Sell,
        OrderType::Mkt,
    );

    assert_eq!(o.id(), "42");
    assert_eq!(o.symbol(), "REL");
    assert_eq!(o.qty(), 7);
    assert_eq!(o.price(), 1_250);
    assert_eq!(o.entry_seq(), 99);
    assert_eq!(o.side(), OrderSide::Sell);
    assert!(matches!(o.order_type(), OrderType::Mkt));

    o.set_qty(3);
    let copy = o.clone();
    assert_eq!(copy.qty(), 3);
    assert_eq!(copy.id(), "42");
    assert_eq!(copy.price(), 1_250);
}
