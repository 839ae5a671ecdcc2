use matching_engine::balance::balance_of;
use matching_engine::balance::UserBalance;
use matching_engine::decimal::Decimal;
use matching_engine::engine::Engine;
use matching_engine::order::CreateOrderArgs;
use matching_engine::order::DbOrder;
use matching_engine::order::EngineError;
use matching_engine::order::Order;
use matching_engine::order::OrderType;
use matching_engine::order::Side;
use matching_engine::order::Status;
use matching_engine::orderbook::has_priority;
use matching_engine::orderbook::Orderbook;

fn dec(v: i64) -> Decimal {
    Decimal::from_i64(v)
}

fn is(d: &Decimal, v: i64) -> bool {
    d.equals(&dec(v))
}

fn balance(free_base: i64, free_quote: i64, locked_base: i64, locked_quote: i64) -> UserBalance {
    UserBalance {
        id: 100,
        user_id: 1,
        free_base_qty: dec(free_base),
        free_quote_qty: dec(free_quote),
        locked_base_qty: dec(locked_base),
        locked_quote_qty: dec(locked_quote),
    }
}

fn holds(b: &UserBalance, free_base: i64, free_quote: i64, locked_base: i64, locked_quote: i64) -> bool {
    is(&b.free_base_qty, free_base)
        && is(&b.free_quote_qty, free_quote)
        && is(&b.locked_base_qty, locked_base)
        && is(&b.locked_quote_qty, locked_quote)
}

fn args(side: Side, base: i64, quote: i64) -> CreateOrderArgs {
    CreateOrderArgs {
        order_type: OrderType::Limit,
        side,
        user_id: 1,
        limit_price: dec(10),
        base_qty: dec(base),
        quote_qty: dec(quote),
    }
}

fn order(id: u128, side: Side, price: i64, created_at: i64) -> Order {
    Order {
        id,
        user_id: 1,
        order_type: OrderType::Limit,
        price: dec(price),
        quantity: dec(5),
        filled_quantity: dec(0),
        side,
        status: Status::Open,
        created_at,
        updated_at: created_at,
    }
}

fn ids(queue: &Vec<Order>) -> Vec<u128> {
    queue.iter().map(|o| o.id).collect()
}

#[test]
fn lock_funds_moves_quote_of_a_bid_from_free_to_locked() {
    let mut b = balance(3, 100, 1, 7);
    let deposit = b.lock_funds(&args(Side::Bid, 5, 50)).unwrap();
    assert!(deposit.is_zero());
    assert!(holds(&b, 3, 50, 1, 57));
}

#[test]
fn lock_funds_moves_base_of_an_ask_from_free_to_locked() {
    let mut b = balance(8, 100, 1, 7);
    let deposit = b.lock_funds(&args(Side::Ask, 5, 50)).unwrap();
    assert!(deposit.is_zero());
    assert!(holds(&b, 3, 100, 6, 7));
}

#[test]
fn lock_funds_takes_all_that_is_free_and_no_more() {
    let mut b = balance(5, 50, 0, 0);
    assert!(b.lock_funds(&args(Side::Bid, 5, 50)).is_ok());
    assert!(holds(&b, 5, 0, 0, 50));
    assert_eq!(b.lock_funds(&args(Side::Bid, 1, 1)).err(), Some(EngineError::InsufficientFunds));
    assert!(holds(&b, 5, 0, 0, 50));
    assert_eq!(b.lock_funds(&args(Side::Ask, 6, 0)).err(), Some(EngineError::InsufficientFunds));
    assert!(holds(&b, 5, 0, 0, 50));
}

#[test]
fn lock_and_credit_keep_quantities_at_or_above_zero() {
    let mut b = balance(5, 50, 2, 20);
    assert_eq!(b.lock_free_quote_qty(&dec(51)).err(), Some(EngineError::InsufficientFunds));
    assert_eq!(b.lock_free_quote_qty(&dec(-21)).err(), Some(EngineError::InsufficientFunds));
    assert_eq!(b.lock_free_base_qty(&dec(6)).err(), Some(EngineError::InsufficientFunds));
    assert_eq!(b.lock_free_base_qty(&dec(-3)).err(), Some(EngineError::InsufficientFunds));
    assert_eq!(b.credit_locked_quote_qty(&dec(-21)).err(), Some(EngineError::InsufficientFunds));
    assert_eq!(b.credit_locked_base_qty(&dec(-3)).err(), Some(EngineError::InsufficientFunds));
    assert!(holds(&b, 5, 50, 2, 20));
    assert!(b.lock_free_quote_qty(&dec(-20)).is_ok());
    assert!(holds(&b, 5, 70, 2, 0));
    assert!(b.lock_free_base_qty(&dec(5)).is_ok());
    assert!(holds(&b, 0, 70, 7, 0));
    assert!(b.credit_locked_quote_qty(&dec(4)).is_ok());
    assert!(b.credit_locked_base_qty(&dec(-7)).is_ok());
    assert!(holds(&b, 0, 70, 0, 4));
}

#[test]
fn update_balance_settles_a_bid() {
    let mut b = balance(1, 0, 0, 30);
    assert!(b.update_balance(Side::Bid, &dec(10), &dec(2)).is_ok());
    assert!(holds(&b, 3, 0, 0, 10));
    assert_eq!(b.update_balance(Side::Bid, &dec(10), &dec(2)).err(), Some(EngineError::InsufficientFunds));
    assert!(holds(&b, 3, 0, 0, 10));
}

#[test]
fn update_balance_settles_an_ask() {
    let mut b = balance(0, 1, 3, 0);
    assert!(b.update_balance(Side::Ask, &dec(10), &dec(2)).is_ok());
    assert!(holds(&b, 0, 21, 1, 0));
    assert_eq!(b.update_balance(Side::Ask, &dec(10), &dec(2)).err(), Some(EngineError::InsufficientFunds));
    assert!(holds(&b, 0, 21, 1, 0));
}

#[test]
fn release_funds_frees_what_an_unfilled_quantity_locked() {
    let mut b = balance(0, 0, 4, 30);
    assert!(b.release_funds(Side::Bid, &dec(10), &dec(3)).is_ok());
    assert!(holds(&b, 0, 30, 4, 0));
    assert!(b.release_funds(Side::Ask, &dec(10), &dec(3)).is_ok());
    assert!(holds(&b, 3, 30, 1, 0));
    assert_eq!(b.release_funds(Side::Ask, &dec(10), &dec(2)).err(), Some(EngineError::InsufficientFunds));
    assert_eq!(b.release_funds(Side::Bid, &dec(10), &dec(1)).err(), Some(EngineError::InsufficientFunds));
    assert!(holds(&b, 3, 30, 1, 0));
}

#[test]
fn init_user_balances_keeps_each_balance_under_its_user() {
    let mut first = balance(1, 2, 3, 4);
    first.user_id = 7;
    let mut second = balance(5, 6, 7, 8);
    second.user_id = 9;
    let mut again = balance(9, 9, 9, 9);
    again.user_id = 7;
    let ledger = UserBalance::init_user_balances(vec![first, second, again]).unwrap();
    assert_eq!(ledger.len(), 2);
    assert!(holds(&ledger[&7], 9, 9, 9, 9));
    assert!(holds(&ledger[&9], 5, 6, 7, 8));
    assert!(balance_of(&ledger, 9).is_some());
    assert!(balance_of(&ledger, 100).is_none());
    let bad = UserBalance::init_user_balances(vec![balance(0, 0, -1, 0)]);
    assert_eq!(bad.err(), Some(EngineError::InvariantViolation));
}

#[test]
fn balance_tells_a_negative_quantity() {
    assert!(balance(0, 0, 0, 0).is_non_negative());
    assert!(!balance(-1, 0, 0, 0).is_non_negative());
    assert!(!balance(0, -1, 0, 0).is_non_negative());
    assert!(!balance(0, 0, -1, 0).is_non_negative());
    assert!(!balance(0, 0, 0, -1).is_non_negative());
}

#[test]
fn add_order_keeps_bids_highest_first_and_earliest_first() {
    let mut book = Orderbook::default();
    for o in [
        order(1, Side::Bid, 10, 5),
        order(2, Side::Bid, 12, 6),
        order(3, Side::Bid, 10, 7),
        order(4, Side::Bid, 11, 8),
        order(5, Side::Bid, 10, 6),
        order(6, Side::Bid, 10, 5),
    ] {
        assert_eq!(book.add_order(o), Ok(()));
    }
    assert_eq!(ids(&book.bids), vec![2, 4, 1, 6, 5, 3]);
    assert_eq!(book.asks.len(), 0);
}

#[test]
fn add_order_keeps_asks_lowest_first_and_earliest_first() {
    let mut book = Orderbook::default();
    for o in [
        order(1, Side::Ask, 10, 5),
        order(2, Side::Ask, 12, 6),
        order(3, Side::Ask, 10, 7),
        order(4, Side::Ask, 9, 8),
        order(5, Side::Ask, 10, 6),
    ] {
        assert_eq!(book.add_order(o), Ok(()));
    }
    assert_eq!(ids(&book.asks), vec![4, 1, 5, 3, 2]);
    assert_eq!(book.bids.len(), 0);
}

#[test]
fn add_order_refuses_what_cannot_rest() {
    let mut book = Orderbook::default();
    let mut closed = order(1, Side::Bid, 10, 5);
    closed.status = Status::Closed;
    assert_eq!(book.add_order(closed), Err(EngineError::InvariantViolation));
    let mut cancelled = order(1, Side::Bid, 10, 5);
    cancelled.status = Status::Cancelled;
    assert_eq!(book.add_order(cancelled), Err(EngineError::InvariantViolation));
    let mut filled = order(1, Side::Bid, 10, 5);
    filled.filled_quantity = dec(5);
    assert_eq!(book.add_order(filled), Err(EngineError::InvariantViolation));
    let mut overfilled = order(1, Side::Ask, 10, 5);
    overfilled.filled_quantity = dec(-1);
    assert_eq!(book.add_order(overfilled), Err(EngineError::InvariantViolation));
    assert_eq!(book.add_order(order(1, Side::Ask, 0, 5)), Err(EngineError::InvariantViolation));
    assert_eq!(book.bids.len() + book.asks.len(), 0);
}

#[test]
fn remove_order_takes_the_order_out_and_closes_the_gap() {
    let mut book = Orderbook::default();
    for o in [order(1, Side::Bid, 10, 5), order(2, Side::Bid, 12, 6), order(3, Side::Bid, 10, 7), order(4, Side::Ask, 13, 8)] {
        book.add_order(o).unwrap();
    }
    assert_eq!(book.remove_order(1, Side::Ask, &dec(10)), Err(EngineError::OrderNotFound));
    assert_eq!(book.remove_order(1, Side::Bid, &dec(11)), Err(EngineError::OrderNotFound));
    assert_eq!(book.remove_order(9, Side::Bid, &dec(10)), Err(EngineError::OrderNotFound));
    assert_eq!(ids(&book.bids), vec![2, 1, 3]);
    assert_eq!(book.remove_order(1, Side::Bid, &dec(10)), Ok(()));
    assert_eq!(ids(&book.bids), vec![2, 3]);
    assert_eq!(book.remove_order(1, Side::Bid, &dec(10)), Err(EngineError::OrderNotFound));
    assert_eq!(book.remove_order(4, Side::Ask, &dec(13)), Ok(()));
    assert_eq!(book.asks.len(), 0);
    assert_eq!(book.remove_order(2, Side::Bid, &dec(12)), Ok(()));
    assert_eq!(book.remove_order(3, Side::Bid, &dec(10)), Ok(()));
    assert_eq!(book.bids.len(), 0);
}

#[test]
fn find_order_gives_the_place_or_the_length() {
    let mut book = Orderbook::default();
    for o in [order(1, Side::Bid, 10, 5), order(2, Side::Bid, 12, 6), order(3, Side::Bid, 10, 7)] {
        book.add_order(o).unwrap();
    }
    assert_eq!(Orderbook::find_order(&book.bids, 3, &dec(10)), 2);
    assert_eq!(Orderbook::find_order(&book.bids, 3, &dec(12)), 3);
    assert_eq!(Orderbook::find_order_by_id(&book.bids, 2), 0);
    assert_eq!(Orderbook::find_order_by_id(&book.bids, 7), 3);
    assert_eq!(Orderbook::find_insert_position(Side::Bid, &book.bids, &order(9, Side::Bid, 11, 1)), 1);
    assert_eq!(Orderbook::find_insert_position(Side::Bid, &book.bids, &order(9, Side::Bid, 10, 7)), 3);
    assert_eq!(Orderbook::find_insert_position(Side::Bid, &book.bids, &order(9, Side::Bid, 13, 7)), 0);
}

#[test]
fn maker_book_is_the_opposite_side() {
    let mut book = Orderbook::default();
    book.add_order(order(1, Side::Bid, 10, 5)).unwrap();
    book.add_order(order(2, Side::Ask, 12, 6)).unwrap();
    let (maker, taker) = book.determine_maker_taker_book(Side::Bid);
    assert_eq!(ids(maker), vec![2]);
    assert_eq!(ids(taker), vec![1]);
    let (maker, taker) = book.determine_maker_taker_book(Side::Ask);
    assert_eq!(ids(maker), vec![1]);
    assert_eq!(ids(taker), vec![2]);
}

#[test]
fn consume_and_take_change_one_queue() {
    let mut book = Orderbook::default();
    for o in [order(1, Side::Ask, 10, 5), order(2, Side::Ask, 11, 6), order(3, Side::Ask, 12, 7), order(4, Side::Bid, 9, 8)] {
        book.add_order(o).unwrap();
    }
    let mut partial = order(2, Side::Ask, 11, 6);
    partial.filled_quantity = dec(1);
    book.consume(Side::Ask, 2, Some(partial));
    assert_eq!(ids(&book.asks), vec![2, 3]);
    assert!(is(&book.asks[0].filled_quantity, 1));
    assert_eq!(ids(&book.bids), vec![4]);
    book.consume(Side::Ask, 1, None);
    assert_eq!(ids(&book.asks), vec![3]);
    let taken = book.take(Side::Bid, 0);
    assert_eq!(taken.id, 4);
    assert_eq!(book.bids.len(), 0);
}

#[test]
fn priority_is_price_then_time() {
    let a = order(1, Side::Bid, 10, 5);
    let b = order(2, Side::Bid, 11, 9);
    let c = order(3, Side::Bid, 10, 6);
    assert!(has_priority(Side::Bid, &b, &a));
    assert!(!has_priority(Side::Bid, &a, &b));
    assert!(has_priority(Side::Ask, &a, &b));
    assert!(!has_priority(Side::Ask, &b, &a));
    assert!(has_priority(Side::Bid, &a, &c));
    assert!(!has_priority(Side::Bid, &c, &a));
    assert!(has_priority(Side::Ask, &a, &c));
    assert!(has_priority(Side::Bid, &a, &a));
}

#[test]
fn convert_db_order_copies_every_field() {
    let row = DbOrder {
        id: 11,
        user_id: 12,
        order_type: OrderType::Market,
        price: dec(13),
        quantity: dec(14),
        filled_quantity: dec(15),
        side: Side::Ask,
        status: Status::Cancelled,
        created_at: 16,
        updated_at: 17,
    };
    let o = Orderbook::convert_db_order(&row).unwrap();
    assert_eq!(o.id, 11);
    assert_eq!(o.user_id, 12);
    assert_eq!(o.order_type, OrderType::Market);
    assert!(is(&o.price, 13));
    assert!(is(&o.quantity, 14));
    assert!(is(&o.filled_quantity, 15));
    assert_eq!(o.side, Side::Ask);
    assert_eq!(o.status, Status::Cancelled);
    assert_eq!(o.created_at, 16);
    assert_eq!(o.updated_at, 17);
}

#[test]
fn trade_names_buyer_then_seller() {
    assert_eq!(Engine::determine_order_ids_for_trade_event(Side::Bid, 1, 2), Ok((1, 2)));
    assert_eq!(Engine::determine_order_ids_for_trade_event(Side::Ask, 1, 2), Ok((2, 1)));
}

#[test]
fn arguments_are_held_to_the_type_of_the_order() {
    let good = args(Side::Bid, 5, 50);
    assert!(good.is_wf());
    assert!(good.is_valid_for(OrderType::Limit));
    assert!(!good.is_valid_for(OrderType::Market));
    assert!(!args(Side::Bid, 0, 50).is_valid_for(OrderType::Limit));
    assert!(!args(Side::Bid, -1, 50).is_valid_for(OrderType::Limit));
    let mut free = args(Side::Bid, 5, 50);
    free.limit_price = dec(0);
    assert!(!free.is_valid_for(OrderType::Limit));
    free.order_type = OrderType::Market;
    assert!(free.is_valid_for(OrderType::Market));
    let mut fine = args(Side::Bid, 5, 50);
    fine.base_qty = Decimal { digits: vec![5], scale: 1_000_001 };
    assert!(!fine.is_wf());
    assert!(!fine.is_valid_for(OrderType::Limit));
}

#[test]
fn orders_and_balances_tell_their_scales() {
    let mut o = order(1, Side::Bid, 10, 5);
    assert!(o.is_wf());
    assert!(o.is_resting());
    o.filled_quantity = Decimal { digits: vec![5], scale: 2_000_001 };
    assert!(!o.is_wf());
    let mut b = balance(1, 1, 1, 1);
    assert!(b.is_wf());
    b.locked_quote_qty = Decimal { digits: vec![5], scale: 3_000_001 };
    assert!(!b.is_wf());
    let c = balance(1, 2, 3, 4).copy();
    assert!(holds(&c, 1, 2, 3, 4));
    assert_eq!(Side::Bid.other(), Side::Ask);
    assert_eq!(Side::Ask.other(), Side::Bid);
}
