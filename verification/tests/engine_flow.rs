use matching_engine::{
    process_event, EventType, MatchingEngine, MatchingResult, Order, OrderSide, OrderType,
};

fn new_order(
    id: &str,
    price: u64,
    qty: u32,
    side: OrderSide,
    kind: OrderType,
    entry_seq: u64,
) -> Order {
    Order::new(String::from(id), String::from("REL"), qty, price, entry_seq, side, kind)
}

fn validate_result(
    p_result: &Result<Option<MatchingResult>, String>,
    p_exp_exec_qty: u32,
    p_exp_exec_price: u64,
    p_matched_order_ids: Option<&Vec<String>>,
) {
    match p_result {
        Ok(match_result_or_none) => match match_result_or_none {
            None => {
                assert!(p_exp_exec_qty == 0);
            }
            Some(match_result) => {
                assert_eq!(match_result.executed_qty(), p_exp_exec_qty);
                match p_matched_order_ids {
                    None => {
                        assert!(match_result.matched_order_ids().is_empty());
                    }
                    Some(matched_ord_ids) => {
                        assert_eq!(match_result.executed_price(), Some(p_exp_exec_price));
                        assert_eq!(match_result.matched_order_ids(), matched_ord_ids);
                    }
                }
            }
        },
        Err(error_msg) => {
            panic!("process event failed with error {error_msg}");
        }
    }
}

#[test]
fn create_first_order() {
    let mut order_book_collection = MatchingEngine::new();

    let mut order = new_order("1", 100, 200, OrderSide::Buy, OrderType::Limit, 1);
    let result = process_event(EventType::New, &mut order, &mut order_book_collection);
    validate_result(&result, 0, 0, None);
}

#[test]
fn qty_match_simple_order() {
    let mut order_book_collection = MatchingEngine::new();
    let mut matched_order_ids: Vec<String> = Vec::new();

    let mut order = new_order("1", 100, 200, OrderSide::Buy, OrderType::Limit, 1);
    let result = process_event(EventType::New, &mut order, &mut order_book_collection);
    validate_result(&result, 0, 0, None);

    let mut order = new_order("2", 100, 200, OrderSide::Sell, OrderType::Limit, 2);
    let result = process_event(EventType::New, &mut order, &mut order_book_collection);
    matched_order_ids.clear();
    matched_order_ids.push("1".to_string());
    validate_result(&result, 200, order.price(), Some(&matched_order_ids));

    let mut order = new_order("3", 100, 200, OrderSide::Sell, OrderType::Limit, 3);
    let result = process_event(EventType::New, &mut order, &mut order_book_collection);
    validate_result(&result, 0, 0, None);

    let mut order = new_order("4", 100, 200, OrderSide::Buy, OrderType::Limit, 4);
    let result = process_event(EventType::New, &mut order, &mut order_book_collection);
    matched_order_ids.clear();
    matched_order_ids.push("3".to_string());
    validate_result(&result, 200, order.price(), Some(&matched_order_ids));
}

#[test]
fn qty_macth_test_partial_match() {
    let mut order_book_collection = MatchingEngine::new();
    let mut matched_order_ids: Vec<String> = Vec::new();

    let mut order = new_order("1", 100, 200, OrderSide::Buy, OrderType::Limit, 1);
    let result = process_event(EventType::New, &mut order, &mut order_book_collection);
    validate_result(&result, 0, 0, None);

    let mut order = new_order("2", 100, 100, OrderSide::Sell, OrderType::Limit, 2);
    let result = process_event(EventType::New, &mut order, &mut order_book_collection);
    matched_order_ids.clear();
    matched_order_ids.push("1".to_string());
    validate_result(&result, 100, order.price(), Some(&matched_order_ids));

    let mut order = new_order("3", 100, 200, OrderSide::Sell, OrderType::Limit, 3);
    let result = process_event(EventType::New, &mut order, &mut order_book_collection);
    matched_order_ids.clear();
    matched_order_ids.push("1".to_string());
    validate_result(&result, 100, order.price(), Some(&matched_order_ids));

    let mut order = new_order("4", 100, 100, OrderSide::Buy, OrderType::Limit, 4);
    let result = process_event(EventType::New, &mut order, &mut order_book_collection);
    matched_order_ids.clear();
    matched_order_ids.push("3".to_string());
    validate_result(&result, 100, order.price(), Some(&matched_order_ids));

    let mut order = new_order("5", 100, 200, OrderSide::Buy, OrderType::Limit, 5);
    let result = process_event(EventType::New, &mut order, &mut order_book_collection);
    validate_result(&result, 0, 0, None);

    let mut order = new_order("6", 100, 200, OrderSide::Sell, OrderType::Limit, 6);
    let result = process_event(EventType::New, &mut order, &mut order_book_collection);
    matched_order_ids.clear();
    matched_order_ids.push("5".to_string());
    validate_result(&result, 200, order.price(), Some(&matched_order_ids));
}

#[test]
fn mkt_order_match_simple() {
    let mut order_book_collection = MatchingEngine::new();
    let mut matched_order_ids: Vec<String> = Vec::new();

    let mut order = new_order("1", 100, 200, OrderSide::Buy, OrderType::Limit, 1);
    let result = process_event(EventType::New, &mut order, &mut order_book_collection);
    validate_result(&result, 0, 0, None);

    let mut order = new_order("2", 0, 200, OrderSide::Sell, OrderType::Mkt, 2);
    let result = process_event(EventType::New, &mut order, &mut order_book_collection);
    matched_order_ids.clear();
    matched_order_ids.push("1".to_string());
    validate_result(&result, 200, 100, Some(&matched_order_ids));

    let mut order = new_order("3", 100, 200, OrderSide::Buy, OrderType::Limit, 3);
    let result = process_event(EventType::New, &mut order, &mut order_book_collection);
    validate_result(&result, 0, 0, None);

    let mut order = new_order("4", 0, 200, OrderSide::Buy, OrderType::Mkt, 4);
    let result = process_event(EventType::New, &mut order, &mut order_book_collection);
    validate_result(&result, 0, 0, None);
}

#[test]
fn mkt_order_match_time() {
    let mut order_book_collection = MatchingEngine::new();
    let mut matched_order_ids: Vec<String> = Vec::new();

    let mut order = new_order("1", 100, 200, OrderSide::Buy, OrderType::Limit, 1);
    let result = process_event(EventType::New, &mut order, &mut order_book_collection);
    validate_result(&result, 0, 0, None);

    let mut order = new_order("2", 100, 200, OrderSide::Buy, OrderType::Limit, 2);
    let result = process_event(EventType::New, &mut order, &mut order_book_collection);
    validate_result(&result, 0, 0, None);

    let mut order = new_order("3", 0, 200, OrderSide::Sell, OrderType::Mkt, 3);
    let result = process_event(EventType::New, &mut order, &mut order_book_collection);
    matched_order_ids.clear();
    matched_order_ids.push("1".to_string());
    validate_result(&result, 200, 100, Some(&matched_order_ids));

    let mut order = new_order("4", 0, 200, OrderSide::Sell, OrderType::Mkt, 4);
    let result = process_event(EventType::New, &mut order, &mut order_book_collection);
    matched_order_ids.clear();
    matched_order_ids.push("2".to_string());
    validate_result(&result, 200, 100, Some(&matched_order_ids));
}

#[test]
fn mkt_order_match_price() {
    let mut order_book_collection = MatchingEngine::new();
    let mut matched_order_ids: Vec<String> = Vec::new();

    let mut order = new_order("1", 100, 200, OrderSide::Buy, OrderType::Limit, 1);
    let result = process_event(EventType::New, &mut order, &mut order_book_collection);
    validate_result(&result, 0, 0, None);

    let mut order = new_order("2", 101, 200, OrderSide::Buy, OrderType::Limit, 2);
    let result = process_event(EventType::New, &mut order, &mut order_book_collection);
    validate_result(&result, 0, 0, None);

    let mut order = new_order("3", 0, 200, OrderSide::Sell, OrderType::Mkt, 3);
    let result = process_event(EventType::New, &mut order, &mut order_book_collection);
    matched_order_ids.clear();
    matched_order_ids.push("2".to_string());
    validate_result(&result, 200, 101, Some(&matched_order_ids));

    let mut order = new_order("4", 0, 200, OrderSide::Sell, OrderType::Mkt, 4);
    let result = process_event(EventType::New, &mut order, &mut order_book_collection);
    matched_order_ids.clear();
    matched_order_ids.push("1".to_string());
    validate_result(&result, 200, 100, Some(&matched_order_ids));
}

#[test]
fn mkt_order_match_price_sell_buy() {
    let mut order_book_collection = MatchingEngine::new();
    let mut matched_order_ids: Vec<String> = Vec::new();

    let mut order = new_order("1", 102, 200, OrderSide::Sell, OrderType::Limit, 1);
    let result = process_event(EventType::New, &mut order, &mut order_book_collection);
    validate_result(&result, 0, 0, None);

    let mut order = new_order("2", 101, 200, OrderSide::Sell, OrderType::Limit, 2);
    let result = process_event(EventType::New, &mut order, &mut order_book_collection);
    validate_result(&result, 0, 0, None);

    let mut order = new_order("3", 0, 200, OrderSide::Buy, OrderType::Mkt, 3);
    let result = process_event(EventType::New, &mut order, &mut order_book_collection);
    matched_order_ids.clear();
    matched_order_ids.push("2".to_string());
    validate_result(&result, 200, 101, Some(&matched_order_ids));

    let mut order = new_order("4", 0, 200, OrderSide::Buy, OrderType::Mkt, 4);
    let result = process_event(EventType::New, &mut order, &mut order_book_collection);
    matched_order_ids.clear();
    matched_order_ids.push("1".to_string());
    validate_result(&result, 200, 102, Some(&matched_order_ids));
}
