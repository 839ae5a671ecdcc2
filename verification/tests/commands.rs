use matching_engine::balance::UserBalance;
use matching_engine::decimal::Decimal;
use matching_engine::engine::Engine;
use matching_engine::events::BalanceEvent;
use matching_engine::events::EngineIx;
use matching_engine::events::Execution;
use matching_engine::events::OrderEvent;
use matching_engine::events::TradeEvent;
use matching_engine::order::CreateOrderArgs;
use matching_engine::order::EngineError;
use matching_engine::order::Order;
use matching_engine::order::OrderType;
use matching_engine::order::Side;
use matching_engine::order::Status;

const U1: u128 = 1;
const U2: u128 = 2;
const U3: u128 = 3;

fn dec(v: i64) -> Decimal {
    Decimal::from_i64(v)
}

fn is(d: &Decimal, v: i64) -> bool {
    d.equals(&dec(v))
}

fn balance(user: u128, free_base: i64, free_quote: i64, locked_base: i64, locked_quote: i64) -> UserBalance {
    UserBalance {
        id: user + 1000,
        user_id: user,
        free_base_qty: dec(free_base),
        free_quote_qty: dec(free_quote),
        locked_base_qty: dec(locked_base),
        locked_quote_qty: dec(locked_quote),
    }
}

fn args(order_type: OrderType, side: Side, user: u128, price: i64, base: i64, quote: i64) -> CreateOrderArgs {
    CreateOrderArgs {
        order_type,
        side,
        user_id: user,
        limit_price: dec(price),
        base_qty: dec(base),
        quote_qty: dec(quote),
    }
}

fn limit(side: Side, user: u128, price: i64, base: i64, quote: i64) -> CreateOrderArgs {
    args(OrderType::Limit, side, user, price, base, quote)
}

fn resting(id: u128, user: u128, side: Side, price: i64, quantity: i64, filled: i64, created_at: i64) -> Order {
    Order {
        id,
        user_id: user,
        order_type: OrderType::Limit,
        price: dec(price),
        quantity: dec(quantity),
        filled_quantity: dec(filled),
        side,
        status: Status::Open,
        created_at,
        updated_at: created_at,
    }
}

fn engine(orders: Vec<Order>, balances: Vec<UserBalance>) -> Engine {
    let mut engine = Engine::default();
    assert_eq!(engine.init_engine(orders, balances), Ok(()));
    engine
}

fn has_balance(engine: &Engine, user: u128, free_base: i64, free_quote: i64, locked_base: i64, locked_quote: i64) -> bool {
    let b = engine.balance(user).unwrap();
    is(&b.free_base_qty, free_base)
        && is(&b.free_quote_qty, free_quote)
        && is(&b.locked_base_qty, locked_base)
        && is(&b.locked_quote_qty, locked_quote)
}

fn trade_is(execution: &Execution, at: usize, buy: u128, sell: u128, price: i64, quantity: i64) -> bool {
    let TradeEvent::InsertTrade(t) = &execution.trade_events[at];
    t.buy_order_id == buy && t.sell_order_id == sell && is(&t.price, price) && is(&t.quantity, quantity)
}

fn order_event(execution: &Execution, at: usize) -> &Order {
    let OrderEvent::UpdateOrder(o) = &execution.order_events[at];
    o
}

fn balance_event(execution: &Execution, at: usize) -> &UserBalance {
    let BalanceEvent::UpdateBalance(b) = &execution.balance_events[at];
    b
}

#[test]
fn simple_cross() {
    let mut engine = engine(vec![], vec![balance(U1, 0, 100, 0, 0), balance(U2, 5, 0, 0, 0)]);
    let posted = engine.execute_limit_order(limit(Side::Ask, U2, 10, 5, 50), 20, 1).unwrap();
    assert_eq!(posted.trade_events.len(), 0);
    assert_eq!(engine.orderbook().asks.len(), 1);
    assert!(has_balance(&engine, U2, 0, 0, 5, 0));

    let crossed = engine.execute_limit_order(limit(Side::Bid, U1, 10, 5, 50), 10, 2).unwrap();
    assert_eq!(crossed.trade_events.len(), 1);
    assert!(trade_is(&crossed, 0, 10, 20, 10, 5));
    assert!(has_balance(&engine, U1, 5, 50, 0, 0));
    assert!(has_balance(&engine, U2, 0, 50, 0, 0));
    assert_eq!(engine.orderbook().bids.len(), 0);
    assert_eq!(engine.orderbook().asks.len(), 0);

    assert_eq!(crossed.order_events.len(), 2);
    assert_eq!(order_event(&crossed, 0).id, 20);
    assert_eq!(order_event(&crossed, 0).status, Status::Closed);
    assert_eq!(order_event(&crossed, 1).id, 10);
    assert_eq!(order_event(&crossed, 1).status, Status::Closed);
    assert!(is(&order_event(&crossed, 1).filled_quantity, 5));
    assert_eq!(crossed.balance_events.len(), 2);
    assert_eq!(balance_event(&crossed, 0).user_id, U2);
    assert_eq!(balance_event(&crossed, 1).user_id, U1);
}

#[test]
fn partial_taker_rests() {
    let mut engine = engine(
        vec![resting(20, U2, Side::Ask, 10, 2, 0, 1)],
        vec![balance(U1, 0, 50, 0, 0), balance(U2, 0, 0, 2, 0)],
    );
    let execution = engine.execute_limit_order(limit(Side::Bid, U1, 10, 5, 50), 10, 2).unwrap();
    assert_eq!(execution.trade_events.len(), 1);
    assert!(trade_is(&execution, 0, 10, 20, 10, 2));

    let book = engine.orderbook();
    assert_eq!(book.asks.len(), 0);
    assert_eq!(book.bids.len(), 1);
    assert_eq!(book.bids[0].id, 10);
    assert_eq!(book.bids[0].status, Status::Open);
    assert!(is(&book.bids[0].price, 10));
    assert!(is(&book.bids[0].quantity, 5));
    assert!(is(&book.bids[0].filled_quantity, 2));
    assert!(has_balance(&engine, U1, 2, 0, 0, 30));

    assert_eq!(order_event(&execution, 0).id, 20);
    assert_eq!(order_event(&execution, 0).status, Status::Closed);
    assert_eq!(order_event(&execution, 1).status, Status::Open);
}

#[test]
fn price_priority() {
    let mut engine = engine(
        vec![resting(30, U3, Side::Ask, 10, 1, 0, 1), resting(20, U2, Side::Ask, 9, 1, 0, 2)],
        vec![balance(U1, 0, 20, 0, 0), balance(U2, 0, 0, 1, 0), balance(U3, 0, 0, 1, 0)],
    );
    let execution = engine.execute_limit_order(limit(Side::Bid, U1, 10, 2, 20), 10, 3).unwrap();
    assert_eq!(execution.trade_events.len(), 2);
    assert!(trade_is(&execution, 0, 10, 20, 9, 1));
    assert!(trade_is(&execution, 1, 10, 30, 10, 1));
    assert!(has_balance(&engine, U1, 2, 0, 0, 1));
    assert!(has_balance(&engine, U2, 0, 9, 0, 0));
    assert!(has_balance(&engine, U3, 0, 10, 0, 0));
}

#[test]
fn time_priority() {
    let mut engine = engine(
        vec![resting(10, U1, Side::Bid, 10, 1, 0, 1), resting(20, U2, Side::Bid, 10, 1, 0, 2)],
        vec![balance(U1, 0, 0, 0, 10), balance(U2, 0, 0, 0, 10), balance(U3, 1, 0, 0, 0)],
    );
    let execution = engine.execute_limit_order(limit(Side::Ask, U3, 10, 1, 10), 30, 3).unwrap();
    assert_eq!(execution.trade_events.len(), 1);
    assert!(trade_is(&execution, 0, 10, 30, 10, 1));
    let book = engine.orderbook();
    assert_eq!(book.bids.len(), 1);
    assert_eq!(book.bids[0].id, 20);
    assert_eq!(book.bids[0].user_id, U2);
    assert!(has_balance(&engine, U1, 1, 0, 0, 0));
    assert!(has_balance(&engine, U2, 0, 0, 0, 10));
}

#[test]
fn limit_no_cross() {
    let mut engine = engine(
        vec![resting(20, U2, Side::Ask, 11, 1, 0, 1)],
        vec![balance(U1, 0, 10, 0, 0), balance(U2, 0, 0, 1, 0)],
    );
    let execution = engine.execute_limit_order(limit(Side::Bid, U1, 10, 1, 10), 10, 2).unwrap();
    assert_eq!(execution.trade_events.len(), 0);
    let book = engine.orderbook();
    assert_eq!(book.asks.len(), 1);
    assert_eq!(book.bids.len(), 1);
    assert_eq!(book.bids[0].id, 10);
    assert!(is(&book.bids[0].price, 10));
    assert_eq!(book.bids[0].status, Status::Open);
    assert!(has_balance(&engine, U1, 0, 0, 0, 10));
    assert_eq!(execution.balance_events.len(), 1);
    assert_eq!(execution.order_events.len(), 1);
}

#[test]
fn cancel_refund() {
    let mut engine = engine(
        vec![resting(10, U1, Side::Bid, 10, 5, 2, 1)],
        vec![balance(U1, 2, 7, 0, 30)],
    );
    let execution = engine.apply(EngineIx::CancelOrder { order_id: 10 }, 0, 0).unwrap();
    assert_eq!(engine.orderbook().bids.len(), 0);
    assert!(has_balance(&engine, U1, 2, 37, 0, 0));
    assert_eq!(execution.order_events.len(), 1);
    assert_eq!(order_event(&execution, 0).id, 10);
    assert_eq!(order_event(&execution, 0).status, Status::Cancelled);
    assert_eq!(execution.balance_events.len(), 1);
    assert!(is(&balance_event(&execution, 0).free_quote_qty, 37));
    assert!(is(&balance_event(&execution, 0).locked_quote_qty, 0));
    assert_eq!(execution.trade_events.len(), 0);
}

#[test]
fn cancel_ask_refunds_base() {
    let mut engine = engine(
        vec![resting(10, U1, Side::Ask, 10, 5, 2, 1)],
        vec![balance(U1, 1, 20, 3, 0)],
    );
    engine.cancel_order(10).unwrap();
    assert_eq!(engine.orderbook().asks.len(), 0);
    assert!(has_balance(&engine, U1, 4, 20, 0, 0));
}

#[test]
fn cancel_of_unknown_order_is_rejected() {
    let mut engine = engine(
        vec![resting(10, U1, Side::Bid, 10, 5, 2, 1)],
        vec![balance(U1, 0, 0, 0, 30)],
    );
    assert_eq!(engine.cancel_order(11).err(), Some(EngineError::OrderNotFound));
    assert_eq!(engine.orderbook().bids.len(), 1);
    assert!(has_balance(&engine, U1, 0, 0, 0, 30));
    engine.cancel_order(10).unwrap();
    assert_eq!(engine.cancel_order(10).err(), Some(EngineError::OrderNotFound));
}

#[test]
fn cancel_without_locked_funds_is_rejected() {
    let mut engine = engine(
        vec![resting(10, U1, Side::Bid, 10, 5, 2, 1)],
        vec![balance(U1, 0, 0, 0, 29)],
    );
    assert_eq!(engine.cancel_order(10).err(), Some(EngineError::InsufficientFunds));
    assert_eq!(engine.orderbook().bids.len(), 1);
    assert!(has_balance(&engine, U1, 0, 0, 0, 29));
}

#[test]
fn cancel_of_order_without_balance_is_invariant_violation() {
    let mut engine = engine(vec![resting(10, U1, Side::Bid, 10, 5, 2, 1)], vec![]);
    assert_eq!(engine.cancel_order(10).err(), Some(EngineError::InvariantViolation));
    assert_eq!(engine.orderbook().bids.len(), 1);
}

#[test]
fn unknown_user_is_rejected() {
    let mut engine = engine(vec![], vec![balance(U1, 0, 100, 0, 0)]);
    let r = engine.execute_limit_order(limit(Side::Bid, U2, 10, 5, 50), 10, 1);
    assert_eq!(r.err(), Some(EngineError::UnknownUser));
    let r = engine.execute_market_order(args(OrderType::Market, Side::Bid, U2, 0, 5, 50), 10, 1);
    assert_eq!(r.err(), Some(EngineError::UnknownUser));
    assert_eq!(engine.orderbook().bids.len(), 0);
    assert!(has_balance(&engine, U1, 0, 100, 0, 0));
}

#[test]
fn order_beyond_free_funds_is_rejected() {
    let mut engine = engine(vec![], vec![balance(U1, 4, 49, 0, 0)]);
    let r = engine.execute_limit_order(limit(Side::Bid, U1, 10, 5, 50), 10, 1);
    assert_eq!(r.err(), Some(EngineError::InsufficientFunds));
    let r = engine.execute_limit_order(limit(Side::Ask, U1, 10, 5, 50), 11, 2);
    assert_eq!(r.err(), Some(EngineError::InsufficientFunds));
    assert_eq!(engine.orderbook().bids.len(), 0);
    assert_eq!(engine.orderbook().asks.len(), 0);
    assert!(has_balance(&engine, U1, 4, 49, 0, 0));
}

#[test]
fn unfunded_maker_rejects_the_taker_whole() {
    let mut engine = engine(
        vec![resting(20, U2, Side::Ask, 9, 1, 0, 1), resting(30, U3, Side::Ask, 10, 1, 0, 2)],
        vec![balance(U1, 0, 20, 0, 0), balance(U2, 0, 0, 1, 0), balance(U3, 0, 0, 0, 0)],
    );
    let r = engine.execute_limit_order(limit(Side::Bid, U1, 10, 2, 20), 10, 3);
    assert_eq!(r.err(), Some(EngineError::InsufficientFunds));
    assert_eq!(engine.orderbook().asks.len(), 2);
    assert_eq!(engine.orderbook().bids.len(), 0);
    assert!(has_balance(&engine, U1, 0, 20, 0, 0));
    assert!(has_balance(&engine, U2, 0, 0, 1, 0));
    assert!(is(&engine.orderbook().asks[0].filled_quantity, 0));
}

#[test]
fn partly_filled_maker_keeps_its_place() {
    let mut engine = engine(
        vec![resting(20, U2, Side::Ask, 10, 5, 0, 1), resting(30, U3, Side::Ask, 10, 5, 0, 2)],
        vec![balance(U1, 0, 100, 0, 0), balance(U2, 0, 0, 5, 0), balance(U3, 0, 0, 5, 0)],
    );
    let execution = engine.execute_limit_order(limit(Side::Bid, U1, 10, 3, 30), 10, 3).unwrap();
    assert_eq!(execution.trade_events.len(), 1);
    let book = engine.orderbook();
    assert_eq!(book.asks.len(), 2);
    assert_eq!(book.asks[0].id, 20);
    assert!(is(&book.asks[0].filled_quantity, 3));
    assert_eq!(book.asks[0].status, Status::Open);
    assert_eq!(book.asks[1].id, 30);
    assert_eq!(order_event(&execution, 0).id, 20);
    assert_eq!(order_event(&execution, 0).status, Status::Open);
    assert_eq!(order_event(&execution, 1).status, Status::Closed);
    assert!(has_balance(&engine, U2, 0, 30, 2, 0));
}

#[test]
fn trades_name_the_bid_as_buyer() {
    let mut engine = engine(
        vec![resting(10, U1, Side::Bid, 10, 1, 0, 1)],
        vec![balance(U1, 0, 0, 0, 10), balance(U3, 1, 0, 0, 0)],
    );
    let execution = engine.execute_limit_order(limit(Side::Ask, U3, 10, 1, 10), 30, 3).unwrap();
    assert!(trade_is(&execution, 0, 10, 30, 10, 1));
}

#[test]
fn totals_are_conserved_and_balances_stay_non_negative() {
    let mut engine = engine(
        vec![
            resting(20, U2, Side::Ask, 9, 3, 1, 1),
            resting(30, U3, Side::Ask, 10, 4, 0, 2),
            resting(21, U2, Side::Bid, 7, 2, 0, 3),
        ],
        vec![balance(U1, 1, 200, 0, 0), balance(U2, 5, 5, 2, 14), balance(U3, 0, 3, 4, 0)],
    );
    engine.execute_limit_order(limit(Side::Bid, U1, 10, 4, 40), 10, 4).unwrap();
    engine.execute_market_order(args(OrderType::Market, Side::Ask, U1, 0, 1, 0), 11, 5).unwrap();
    engine.cancel_order(30).unwrap();
    let mut base = dec(0);
    let mut quote = dec(0);
    for user in [U1, U2, U3] {
        let b = engine.balance(user).unwrap();
        assert!(b.is_non_negative());
        base = base.plus(&b.free_base_qty).plus(&b.locked_base_qty);
        quote = quote.plus(&b.free_quote_qty).plus(&b.locked_quote_qty);
    }
    assert!(is(&base, 12));
    assert!(is(&quote, 222));
    for o in engine.orderbook().bids.iter().chain(engine.orderbook().asks.iter()) {
        assert!(o.is_resting());
    }
}

#[test]
fn market_bid_spends_its_budget_and_gets_the_rest_back() {
    let mut engine = engine(
        vec![resting(20, U2, Side::Ask, 9, 1, 0, 1), resting(30, U3, Side::Ask, 10, 5, 0, 2)],
        vec![balance(U1, 0, 100, 0, 0), balance(U2, 0, 0, 1, 0), balance(U3, 0, 0, 5, 0)],
    );
    let execution = engine
        .execute_market_order(args(OrderType::Market, Side::Bid, U1, 0, 3, 50), 10, 3)
        .unwrap();
    assert_eq!(execution.trade_events.len(), 2);
    assert!(trade_is(&execution, 0, 10, 20, 9, 1));
    assert!(trade_is(&execution, 1, 10, 30, 10, 2));
    assert!(has_balance(&engine, U1, 3, 71, 0, 0));
    assert_eq!(engine.orderbook().bids.len(), 0);
    assert_eq!(engine.orderbook().asks.len(), 1);
    assert!(is(&engine.orderbook().asks[0].filled_quantity, 2));
    let taker = order_event(&execution, 2);
    assert_eq!(taker.id, 10);
    assert_eq!(taker.status, Status::Closed);
    assert!(is(&taker.filled_quantity, 3));
}

#[test]
fn market_bid_is_cut_to_what_is_locked() {
    let mut engine = engine(
        vec![resting(20, U2, Side::Ask, 10, 5, 0, 1)],
        vec![balance(U1, 0, 100, 0, 0), balance(U2, 0, 0, 5, 0)],
    );
    let execution = engine
        .execute_market_order(args(OrderType::Market, Side::Bid, U1, 0, 5, 25), 10, 3)
        .unwrap();
    assert_eq!(execution.trade_events.len(), 1);
    assert!(trade_is(&execution, 0, 10, 20, 10, 2));
    assert!(has_balance(&engine, U1, 2, 80, 0, 0));
    let taker = order_event(&execution, 1);
    assert_eq!(taker.status, Status::Closed);
    assert!(is(&taker.filled_quantity, 2));
    assert_eq!(engine.orderbook().bids.len(), 0);
    assert!(is(&engine.orderbook().asks[0].filled_quantity, 2));
}

#[test]
fn market_bid_stops_when_it_cannot_afford_the_price() {
    let mut engine = engine(
        vec![resting(20, U2, Side::Ask, 10, 5, 0, 1)],
        vec![balance(U1, 0, 100, 0, 0), balance(U2, 0, 0, 5, 0)],
    );
    let execution = engine
        .execute_market_order(args(OrderType::Market, Side::Bid, U1, 0, 5, 9), 10, 3)
        .unwrap();
    assert_eq!(execution.trade_events.len(), 0);
    assert!(has_balance(&engine, U1, 0, 100, 0, 0));
    assert_eq!(order_event(&execution, 0).status, Status::Closed);
}

#[test]
fn market_ask_does_not_rest() {
    let mut engine = engine(
        vec![resting(10, U1, Side::Bid, 10, 1, 0, 1)],
        vec![balance(U1, 0, 0, 0, 10), balance(U3, 4, 0, 0, 0)],
    );
    let execution = engine
        .apply(EngineIx::CreateMarketOrder(args(OrderType::Market, Side::Ask, U3, 0, 3, 0)), 30, 3)
        .unwrap();
    assert_eq!(execution.trade_events.len(), 1);
    assert!(trade_is(&execution, 0, 10, 30, 10, 1));
    assert_eq!(engine.orderbook().asks.len(), 0);
    assert_eq!(engine.orderbook().bids.len(), 0);
    assert!(has_balance(&engine, U3, 3, 10, 0, 0));
    assert!(has_balance(&engine, U1, 1, 0, 0, 0));
}

#[test]
fn boot_keeps_open_orders_in_price_and_time_order() {
    let mut closed = resting(5, U1, Side::Bid, 12, 1, 1, 0);
    closed.status = Status::Closed;
    let mut cancelled = resting(6, U1, Side::Ask, 1, 1, 0, 0);
    cancelled.status = Status::Cancelled;
    let engine = engine(
        vec![
            resting(1, U1, Side::Bid, 10, 1, 0, 5),
            closed,
            resting(2, U1, Side::Bid, 11, 1, 0, 9),
            resting(3, U1, Side::Ask, 13, 1, 0, 2),
            resting(4, U2, Side::Bid, 10, 1, 0, 3),
            cancelled,
            resting(7, U2, Side::Ask, 12, 1, 0, 8),
            resting(8, U2, Side::Ask, 13, 1, 0, 2),
            resting(9, U2, Side::Bid, 10, 1, 0, 5),
        ],
        vec![],
    );
    let bids: Vec<u128> = engine.orderbook().bids.iter().map(|o| o.id).collect();
    let asks: Vec<u128> = engine.orderbook().asks.iter().map(|o| o.id).collect();
    assert_eq!(bids, vec![2, 4, 1, 9]);
    assert_eq!(asks, vec![7, 3, 8]);
}

#[test]
fn boot_refuses_a_filled_open_order_and_a_negative_balance() {
    let mut engine = Engine::default();
    let r = engine.init_engine(vec![resting(1, U1, Side::Bid, 10, 1, 1, 5)], vec![]);
    assert_eq!(r, Err(EngineError::InvariantViolation));
    let r = engine.init_engine(vec![resting(1, U1, Side::Bid, 0, 1, 0, 5)], vec![]);
    assert_eq!(r, Err(EngineError::InvariantViolation));
    let r = engine.init_engine(vec![], vec![balance(U1, 0, -1, 0, 0)]);
    assert_eq!(r, Err(EngineError::InvariantViolation));
    assert!(engine.balance(U1).is_none());
    assert_eq!(engine.orderbook().bids.len(), 0);
}

#[test]
fn balance_exhausted_when_price_is_above_locked_quote() {
    let engine = engine(vec![], vec![balance(U1, 0, 0, 0, 10)]);
    assert!(engine.is_balance_exhausted(&U1, &dec(11)));
    assert!(!engine.is_balance_exhausted(&U1, &dec(10)));
}

fn tenths(v: u8) -> Decimal {
    Decimal { digits: vec![v], scale: 1 }
}

#[test]
fn market_bid_is_cut_to_the_lot_scale_of_the_resting_order() {
    let mut maker = resting(20, U2, Side::Ask, 3, 5, 0, 1);
    maker.quantity = tenths(50);
    let mut engine = engine(vec![maker], vec![balance(U1, 0, 10, 0, 0), balance(U2, 0, 0, 5, 0)]);
    let execution = engine
        .execute_market_order(args(OrderType::Market, Side::Bid, U1, 0, 5, 10), 10, 3)
        .unwrap();
    assert_eq!(execution.trade_events.len(), 1);
    let TradeEvent::InsertTrade(t) = &execution.trade_events[0];
    assert!(t.quantity.equals(&tenths(33)));
    assert!(is(&t.price, 3));
    let b = engine.balance(U1).unwrap();
    assert!(b.free_base_qty.equals(&tenths(33)));
    assert!(b.free_quote_qty.equals(&tenths(1)));
    assert!(b.locked_quote_qty.is_zero());
    assert!(b.locked_base_qty.is_zero());
    let m = engine.balance(U2).unwrap();
    assert!(m.free_quote_qty.equals(&tenths(99)));
    assert!(m.locked_base_qty.equals(&tenths(17)));
    assert!(engine.orderbook().asks[0].filled_quantity.equals(&tenths(33)));
    assert_eq!(engine.orderbook().asks[0].status, Status::Open);
}

#[test]
fn limit_ask_walks_bids_from_the_highest() {
    let mut engine = engine(
        vec![
            resting(1, U1, Side::Bid, 9, 2, 0, 1),
            resting(2, U2, Side::Bid, 11, 2, 0, 2),
            resting(3, U1, Side::Bid, 10, 2, 0, 3),
            resting(4, U2, Side::Bid, 8, 2, 0, 4),
        ],
        vec![balance(U1, 0, 0, 0, 38), balance(U2, 0, 0, 0, 38), balance(U3, 7, 0, 0, 0)],
    );
    let execution = engine.execute_limit_order(limit(Side::Ask, U3, 9, 7, 0), 30, 5).unwrap();
    assert_eq!(execution.trade_events.len(), 3);
    assert!(trade_is(&execution, 0, 2, 30, 11, 2));
    assert!(trade_is(&execution, 1, 3, 30, 10, 2));
    assert!(trade_is(&execution, 2, 1, 30, 9, 2));
    let book = engine.orderbook();
    assert_eq!(book.bids.len(), 1);
    assert_eq!(book.bids[0].id, 4);
    assert_eq!(book.asks.len(), 1);
    assert_eq!(book.asks[0].id, 30);
    assert!(is(&book.asks[0].filled_quantity, 6));
    assert!(has_balance(&engine, U3, 0, 60, 1, 0));
    assert!(has_balance(&engine, U1, 4, 0, 0, 0));
    assert!(has_balance(&engine, U2, 2, 0, 0, 16));
    assert_eq!(execution.balance_events.len(), 4);
    assert_eq!(execution.order_events.len(), 4);
    assert_eq!(order_event(&execution, 3).id, 30);
    assert_eq!(order_event(&execution, 3).status, Status::Open);
}

#[test]
fn a_user_may_trade_with_itself() {
    let mut engine = engine(vec![resting(20, U1, Side::Ask, 10, 2, 0, 1)], vec![balance(U1, 0, 20, 2, 0)]);
    let execution = engine.execute_limit_order(limit(Side::Bid, U1, 10, 2, 20), 10, 2).unwrap();
    assert_eq!(execution.trade_events.len(), 1);
    assert!(trade_is(&execution, 0, 10, 20, 10, 2));
    assert!(has_balance(&engine, U1, 2, 20, 0, 0));
    assert_eq!(engine.orderbook().asks.len(), 0);
    assert_eq!(engine.orderbook().bids.len(), 0);
}

#[test]
fn resting_orders_of_a_command_are_found_by_the_next() {
    let mut engine = engine(vec![], vec![balance(U1, 0, 100, 0, 0), balance(U2, 10, 0, 0, 0)]);
    engine.apply(EngineIx::CreateLimitOrder(limit(Side::Bid, U1, 10, 3, 30)), 1, 1).unwrap();
    engine.apply(EngineIx::CreateLimitOrder(limit(Side::Bid, U1, 10, 3, 30)), 2, 2).unwrap();
    engine.apply(EngineIx::CreateLimitOrder(limit(Side::Bid, U1, 11, 3, 33)), 3, 3).unwrap();
    let ids: Vec<u128> = engine.orderbook().bids.iter().map(|o| o.id).collect();
    assert_eq!(ids, vec![3, 1, 2]);
    let execution = engine.apply(EngineIx::CreateLimitOrder(limit(Side::Ask, U2, 10, 5, 0)), 4, 4).unwrap();
    assert_eq!(execution.trade_events.len(), 2);
    assert!(trade_is(&execution, 0, 3, 4, 11, 3));
    assert!(trade_is(&execution, 1, 1, 4, 10, 2));
    let ids: Vec<u128> = engine.orderbook().bids.iter().map(|o| o.id).collect();
    assert_eq!(ids, vec![1, 2]);
    assert!(has_balance(&engine, U2, 5, 53, 0, 0));
    assert!(has_balance(&engine, U1, 5, 7, 0, 40));
    engine.apply(EngineIx::CancelOrder { order_id: 1 }, 0, 0).unwrap();
    engine.apply(EngineIx::CancelOrder { order_id: 2 }, 0, 0).unwrap();
    assert!(has_balance(&engine, U1, 5, 47, 0, 0));
    assert_eq!(engine.orderbook().bids.len(), 0);
}
