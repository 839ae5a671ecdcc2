//! What holds of every command, proved from the definitions of matching.
use crate::balance::BalanceView;
use crate::decimal::floor_to_scale;
use crate::decimal::lemma_floor_to_scale_bounds;
use crate::decimal::lemma_floor_to_scale_is_close;
use crate::engine::command_is_valid;
use crate::engine::command_outcome;
use crate::events::EngineIx;
use crate::ledger::lemma_totals_update;
use crate::ledger::total_base;
use crate::ledger::total_quote;
use crate::matching::trade_order_ids;
use crate::matching::EngineView;
use crate::matching::MatchState;
use crate::matching::TradeView;
use crate::order::CreateOrderArgsView;
use crate::order::OrderType;
use crate::order::OrderView;
use crate::order::Side;
use crate::order::Status;
use crate::orderbook::insert_position;
use crate::orderbook::lemma_insert_keeps_book;
use crate::orderbook::lemma_insert_position;
use crate::orderbook::levels;
use crate::orderbook::ordered;
use crate::orderbook::priced;
use crate::orderbook::lemma_position_of_id;
use crate::orderbook::lemma_remove_keeps_side;
use crate::orderbook::position_of_id;
use crate::orderbook::precedes;
use crate::orderbook::side_wf;
use crate::orderbook::BookView;
use vstd::multiset::Multiset;
use vstd::prelude::*;

verus! {

/// No balance of the ledger has a quantity below zero.
pub open spec fn ledger_non_negative(ledger: Map<u128, BalanceView>) -> bool {
    forall|user: u128| ledger.contains_key(user) ==> (#[trigger] ledger[user]).non_negative()
}

/// No balance of the sequence has a quantity below zero.
pub open spec fn all_non_negative(balances: Seq<BalanceView>) -> bool {
    forall|i: int| 0 <= i < balances.len() ==> (#[trigger] balances[i]).non_negative()
}

/// The trade is one between the taker and the resting order `maker`, at
/// the maker's price: the buyer is the one of the two that is a bid.
pub open spec fn trade_between(taker: OrderView, maker: OrderView, trade: TradeView) -> bool {
    &&& trade.buy_order_id == trade_order_ids(taker.side, taker.id, maker.id).0
    &&& trade.sell_order_id == trade_order_ids(taker.side, taker.id, maker.id).1
    &&& trade.price == maker.price
}

/// The order event shows the resting order `maker` after a trade: nothing
/// but what is filled and the status has changed; what is filled has not
/// become less, nor more than the quantity; and the order is closed if it
/// is filled and open if it is not.
pub open spec fn maker_after(maker: OrderView, event: OrderView) -> bool {
    &&& event == (OrderView {
        filled_quantity: event.filled_quantity,
        status: event.status,
        ..maker
    })
    &&& maker.filled_quantity <= event.filled_quantity <= maker.quantity
    &&& event.status == (if event.filled_quantity == maker.quantity {
        Status::Closed
    } else {
        Status::Open
    })
}

/// A market bid never buys more than what its user has locked in quote
/// pays for: the quantity that trades with a resting order, at the price
/// of that order, costs no more than the locked quote.
pub proof fn law_market_bid_never_overspends(st: MatchState, maker: OrderView)
    requires
        st.taker.order_type == OrderType::Market,
        st.taker.side == Side::Bid,
        maker.price > 0real,
    ensures
        st.trade_quantity(maker) * maker.price <= st.ledger[st.taker.user_id].locked_quote,
{
    let locked = st.ledger[st.taker.user_id].locked_quote;
    let x = locked / maker.price;
    let quantity = st.trade_quantity(maker);
    lemma_floor_to_scale_bounds(x, maker.lot_scale);
    assert(quantity * maker.price <= locked) by (nonlinear_arith)
        requires
            quantity <= x,
            maker.price > 0real,
            x == locked / maker.price,
    ;
}

/// The base that a market ask has locked covers what remains of it: where
/// it does before a trade with a bid, it does after it.
pub proof fn law_market_ask_stays_covered(st: MatchState, maker: OrderView, quantity: real)
    requires
        st.taker.side == Side::Ask,
        maker.side == Side::Bid,
        st.ledger[st.taker.user_id].locked_base >= st.taker.remaining(),
        st.trade(maker, quantity) is Ok,
    ensures
        ({
            let next = st.trade(maker, quantity).unwrap();
            next.ledger[next.taker.user_id].locked_base >= next.taker.remaining()
        }),
{
}

/// The quantity that trades with a resting order is not below zero and not
/// above what remains of either order.
pub proof fn lemma_trade_quantity(st: MatchState, maker: OrderView)
    requires
        maker.resting(),
        st.taker.remaining() > 0real,
        !st.stops_at(maker),
    ensures
        0real <= st.trade_quantity(maker) <= maker.remaining(),
        st.trade_quantity(maker) <= st.taker.remaining(),
{
    if st.taker.order_type == OrderType::Market && st.taker.side == Side::Bid {
        let locked = st.ledger[st.taker.user_id].locked_quote;
        assert(locked / maker.price >= 0real) by (nonlinear_arith)
            requires
                locked >= maker.price,
                maker.price > 0real,
        ;
        lemma_floor_to_scale_bounds(locked / maker.price, maker.lot_scale);
    }
}

/// A trade that leaves the resting order partly filled ends the walk for
/// good. Either the taker is filled; or the taker is a market bid, and
/// what its user has locked in quote no longer reaches the price of that
/// order, nor the price of any order behind it in the queue.
pub proof fn law_partial_fill_ends_the_walk(st: MatchState, maker: OrderView, later: OrderView)
    requires
        maker.resting(),
        maker.side == st.taker.side.opposite(),
        precedes(maker.side, maker, later),
        st.taker.remaining() > 0real,
        !st.stops_at(maker),
        st.trade(maker, st.trade_quantity(maker)) is Ok,
        maker.fill(st.trade_quantity(maker)).status != Status::Closed,
    ensures
        ({
            let next = st.trade(maker, st.trade_quantity(maker)).unwrap();
            next.taker.remaining() <= 0real || (next.taker.order_type == OrderType::Market
                && next.taker.side == Side::Bid && next.stops_at(later))
        }),
{
    let quantity = st.trade_quantity(maker);
    let next = st.trade(maker, quantity).unwrap();
    lemma_trade_quantity(st, maker);
    if next.taker.remaining() > 0real {
        let locked = st.ledger[st.taker.user_id].locked_quote;
        let x = locked / maker.price;
        assert(quantity == floor_to_scale(x, maker.lot_scale));
        lemma_floor_to_scale_is_close(x, maker.lot_scale);
        assert(x * maker.price == locked) by (nonlinear_arith)
            requires
                maker.price > 0real,
                x == locked / maker.price,
        ;
        assert(quantity * maker.price > locked - maker.price) by (nonlinear_arith)
            requires
                quantity > x - 1real,
                maker.price > 0real,
                x * maker.price == locked,
        ;
        assert(next.ledger[next.taker.user_id].locked_quote == locked - quantity * maker.price);
    }
}

/// The shape of a walk. It trades with the orders of the queue in their
/// order, one trade each: the trade, the order event and the balance event
/// at place `k` belong to the resting order at place `k`. The taker changes
/// in nothing but what is filled, and what is left of the queue is a side
/// of a book again.
pub proof fn lemma_walk_shape(st: MatchState, makers: Seq<OrderView>, at: int)
    requires
        0 <= at <= makers.len(),
        side_wf(st.taker.side.opposite(), makers),
        st.walk(makers, at) is Ok,
        st.events.trades.len() == at,
        st.events.orders.len() == at,
        st.events.balances.len() == at,
        at > 0 ==> st.events.orders.last().status == Status::Closed,
    ensures
        ({
            let end = st.walk(makers, at).unwrap().0;
            let count = st.walk(makers, at).unwrap().1;
            &&& at <= count <= makers.len()
            &&& end.events.trades.len() == count
            &&& end.events.orders.len() == count
            &&& end.events.balances.len() == count
            &&& forall|k: int|
                0 <= k < at ==> #[trigger] end.events.trades[k] == st.events.trades[k]
                    && end.events.orders[k] == st.events.orders[k] && end.events.balances[k]
                    == st.events.balances[k]
            &&& forall|k: int|
                at <= k < count ==> trade_between(st.taker, makers[k], #[trigger] end.events.trades[k])
                    && maker_after(makers[k], end.events.orders[k])
            &&& end.taker == (OrderView {
                filled_quantity: end.taker.filled_quantity,
                ..st.taker
            })
            &&& end.taker.filled_quantity >= st.taker.filled_quantity
            &&& st.taker.remaining() >= 0real ==> end.taker.remaining() >= 0real
            &&& side_wf(st.taker.side.opposite(), end.rest_of(makers, count))
        }),
    decreases makers.len() - at,
{
    let side = st.taker.side.opposite();
    if at >= makers.len() || st.taker.remaining() <= 0real || st.stops_at(makers[at]) {
        lemma_skip_keeps_side(side, makers, at);
    } else {
        let maker = makers[at];
        lemma_trade_quantity(st, maker);
        let quantity = st.trade_quantity(maker);
        let next = st.trade(maker, quantity).unwrap();
        let event = next.events.orders.last();
        assert(event == maker.fill(quantity));
        if event.status == Status::Closed {
            lemma_walk_shape(next, makers, at + 1);
            let end = next.walk(makers, at + 1).unwrap().0;
            let count = next.walk(makers, at + 1).unwrap().1;
            assert forall|k: int| at <= k < count implies trade_between(
                st.taker,
                makers[k],
                #[trigger] end.events.trades[k],
            ) && maker_after(makers[k], end.events.orders[k]) by {
                if k == at {
                    assert(end.events.trades[k] == next.events.trades[k]);
                    assert(end.events.orders[k] == next.events.orders[k]);
                    assert(next.events.trades[k] == st.events.trades.push(
                        next.events.trades.last(),
                    )[k]);
                    assert(next.events.orders[k] == event);
                } else {
                    assert(trade_between(next.taker, makers[k], end.events.trades[k]));
                    assert(next.taker.side == st.taker.side && next.taker.id == st.taker.id);
                }
            }
        } else {
            lemma_skip_keeps_side(side, makers, at + 1);
            let rest = makers.skip(at + 1);
            let left = seq![event] + rest;
            assert(next.rest_of(makers, at + 1) == left);
            assert forall|i: int, j: int| 0 <= i < j < left.len() implies precedes(
                side,
                left[i],
                left[j],
            ) by {
                if i == 0 {
                    assert(left[j] == makers[at + j]);
                    assert(precedes(side, makers[at], makers[at + j]));
                } else {
                    assert(left[i] == rest[i - 1] && left[j] == rest[j - 1]);
                }
            }
            assert forall|i: int| 0 <= i < left.len() implies (#[trigger] left[i]).side == side
                && left[i].resting() by {
                if i > 0 {
                    assert(left[i] == rest[i - 1]);
                }
            }
        }
    }
}

/// What is left of a side of a book behind any place is a side of a book.
pub proof fn lemma_skip_keeps_side(side: Side, queue: Seq<OrderView>, count: int)
    requires
        side_wf(side, queue),
        0 <= count <= queue.len(),
    ensures
        side_wf(side, queue.skip(count)),
{
    let rest = queue.skip(count);
    assert forall|i: int, j: int| 0 <= i < j < rest.len() implies precedes(
        side,
        rest[i],
        rest[j],
    ) by {
        assert(precedes(side, queue[i + count], queue[j + count]));
    }
}

/// A walk keeps the users of the ledger.
pub proof fn lemma_walk_users(st: MatchState, makers: Seq<OrderView>, at: int)
    requires
        0 <= at <= makers.len(),
        st.walk(makers, at) is Ok,
    ensures
        st.walk(makers, at).unwrap().0.ledger.dom() == st.ledger.dom(),
    decreases makers.len() - at,
{
    if at >= makers.len() || st.taker.remaining() <= 0real || st.stops_at(makers[at]) {
    } else {
        let maker = makers[at];
        let next = st.trade(maker, st.trade_quantity(maker)).unwrap();
        assert(next.ledger.dom() =~= st.ledger.dom());
        if next.events.orders.last().status == Status::Closed {
            lemma_walk_users(next, makers, at + 1);
        }
    }
}

/// A walk between orders of opposite sides moves assets between users and
/// makes none: the totals of the ledger are after it what they were.
pub proof fn lemma_walk_totals(st: MatchState, makers: Seq<OrderView>, at: int)
    requires
        0 <= at <= makers.len(),
        st.ledger.dom().finite(),
        forall|i: int| 0 <= i < makers.len() ==> (#[trigger] makers[i]).side == st.taker.side.opposite(),
        st.walk(makers, at) is Ok,
    ensures
        total_base(st.walk(makers, at).unwrap().0.ledger) == total_base(st.ledger),
        total_quote(st.walk(makers, at).unwrap().0.ledger) == total_quote(st.ledger),
    decreases makers.len() - at,
{
    if at >= makers.len() || st.taker.remaining() <= 0real || st.stops_at(makers[at]) {
    } else {
        let maker = makers[at];
        let quantity = st.trade_quantity(maker);
        let next = st.trade(maker, quantity).unwrap();
        let maker_balance = st.ledger[maker.user_id].settle(maker.side, maker.price, quantity);
        let ledger = st.ledger.insert(maker.user_id, maker_balance);
        lemma_totals_update(st.ledger, maker.user_id, maker_balance);
        lemma_totals_update(
            ledger,
            st.taker.user_id,
            ledger[st.taker.user_id].settle(st.taker.side, maker.price, quantity),
        );
        assert(next.ledger.dom() =~= st.ledger.dom());
        if next.events.orders.last().status == Status::Closed {
            lemma_walk_totals(next, makers, at + 1);
        }
    }
}

/// A walk that starts without a negative quantity ends without one, in
/// the ledger and in the balances it emits.
pub proof fn lemma_walk_non_negative(st: MatchState, makers: Seq<OrderView>, at: int)
    requires
        0 <= at <= makers.len(),
        ledger_non_negative(st.ledger),
        all_non_negative(st.events.balances),
        st.walk(makers, at) is Ok,
    ensures
        ledger_non_negative(st.walk(makers, at).unwrap().0.ledger),
        all_non_negative(st.walk(makers, at).unwrap().0.events.balances),
    decreases makers.len() - at,
{
    if at >= makers.len() || st.taker.remaining() <= 0real || st.stops_at(makers[at]) {
    } else {
        let maker = makers[at];
        let next = st.trade(maker, st.trade_quantity(maker)).unwrap();
        if next.events.orders.last().status == Status::Closed {
            lemma_walk_non_negative(next, makers, at + 1);
        }
    }
}

/// The state of a walk before its first step, for a new order whose funds
/// were locked.
pub open spec fn walk_start(state: EngineView, args: CreateOrderArgsView, id: u128, created_at: i64)
    -> MatchState {
    MatchState::start(
        state.ledger.insert(
            args.user_id,
            state.ledger[args.user_id].lock(args.side, args.base_qty, args.quote_qty),
        ),
        crate::matching::new_order(args, id, created_at),
    )
}

/// What a create command asks for, if the command is one.
pub open spec fn created_by(ix: EngineIx) -> Option<CreateOrderArgsView> {
    match ix {
        EngineIx::CreateLimitOrder(args) => Some(args@),
        EngineIx::CreateMarketOrder(args) => Some(args@),
        EngineIx::CancelOrder { order_id } => None,
    }
}

/// A command keeps the users of the ledger, and makes and destroys no
/// asset: the sum over all users of what they hold of the base asset, free
/// and locked, is after the command what it was before, and so is the sum
/// of the quote asset.
pub proof fn law_totals_are_conserved(
    state: EngineView,
    ix: EngineIx,
    order_id: u128,
    created_at: i64,
)
    requires
        state.book.wf(),
        state.ledger.dom().finite(),
        command_outcome(state, ix, order_id, created_at) is Ok,
    ensures
        command_outcome(state, ix, order_id, created_at).unwrap().0.ledger.dom()
            == state.ledger.dom(),
        total_base(command_outcome(state, ix, order_id, created_at).unwrap().0.ledger)
            == total_base(state.ledger),
        total_quote(command_outcome(state, ix, order_id, created_at).unwrap().0.ledger)
            == total_quote(state.ledger),
{
    match created_by(ix) {
        Some(args) => {
            let start = walk_start(state, args, order_id, created_at);
            let makers = state.book.side(args.side.opposite());
            lemma_totals_update(
                state.ledger,
                args.user_id,
                state.ledger[args.user_id].lock(args.side, args.base_qty, args.quote_qty),
            );
            lemma_walk_totals(start, makers, 0);
            lemma_walk_users(start, makers, 0);
            let end = start.walk(makers, 0).unwrap().0;
            if ix is CreateMarketOrder {
                lemma_walk_shape_of_taker(start, makers, 0);
                assert(start.ledger.contains_key(args.user_id));
                let back = -end.refund(args.quote_qty);
                lemma_totals_update(
                    end.ledger,
                    end.taker.user_id,
                    end.ledger[end.taker.user_id].lock(end.taker.side, back, back),
                );
                lemma_walk_shape(start, makers, 0);
            }
        },
        None => {
            let target = ix->CancelOrder_order_id;
            lemma_position_of_id(state.book.bids, target, 0);
            lemma_position_of_id(state.book.asks, target, 0);
            let bid = position_of_id(state.book.bids, target, 0);
            let ask = position_of_id(state.book.asks, target, 0);
            let order = if bid < state.book.bids.len() {
                state.book.bids[bid]
            } else {
                state.book.asks[ask]
            };
            lemma_totals_update(
                state.ledger,
                order.user_id,
                state.ledger[order.user_id].release(order.side, order.price, order.remaining()),
            );
        },
    }
}

/// Where no balance has a quantity below zero before a command, none has
/// one after it, and none of the balances that the command emits has one.
pub proof fn law_balances_stay_non_negative(
    state: EngineView,
    ix: EngineIx,
    order_id: u128,
    created_at: i64,
)
    requires
        ledger_non_negative(state.ledger),
        command_outcome(state, ix, order_id, created_at) is Ok,
    ensures
        ledger_non_negative(command_outcome(state, ix, order_id, created_at).unwrap().0.ledger),
        all_non_negative(command_outcome(state, ix, order_id, created_at).unwrap().1.balances),
{
    match created_by(ix) {
        Some(args) => {
            let start = walk_start(state, args, order_id, created_at);
            let makers = state.book.side(args.side.opposite());
            lemma_walk_non_negative(start, makers, 0);
            lemma_walk_users(start, makers, 0);
            lemma_walk_shape_of_taker(start, makers, 0);
        },
        None => {},
    }
}

/// A walk changes the taker in nothing but what is filled.
pub proof fn lemma_walk_shape_of_taker(st: MatchState, makers: Seq<OrderView>, at: int)
    requires
        0 <= at <= makers.len(),
        st.walk(makers, at) is Ok,
    ensures
        st.walk(makers, at).unwrap().0.taker == (OrderView {
            filled_quantity: st.walk(makers, at).unwrap().0.taker.filled_quantity,
            ..st.taker
        }),
    decreases makers.len() - at,
{
    if at >= makers.len() || st.taker.remaining() <= 0real || st.stops_at(makers[at]) {
    } else {
        let maker = makers[at];
        let next = st.trade(maker, st.trade_quantity(maker)).unwrap();
        if next.events.orders.last().status == Status::Closed {
            lemma_walk_shape_of_taker(next, makers, at + 1);
        }
    }
}

/// A well-formed book is well formed after a command: every resting order
/// is open, of the side of its queue, filled by no less than zero and by
/// less than its quantity, and each queue is in price and time priority.
pub proof fn law_book_stays_well_formed(
    state: EngineView,
    ix: EngineIx,
    order_id: u128,
    created_at: i64,
)
    requires
        state.book.wf(),
        command_is_valid(ix),
        command_outcome(state, ix, order_id, created_at) is Ok,
    ensures
        command_outcome(state, ix, order_id, created_at).unwrap().0.book.wf(),
{
    match created_by(ix) {
        Some(args) => {
            let start = walk_start(state, args, order_id, created_at);
            let makers = state.book.side(args.side.opposite());
            lemma_walk_shape(start, makers, 0);
            let end = start.walk(makers, 0).unwrap().0;
            let count = start.walk(makers, 0).unwrap().1;
            let book = state.book.with_side(args.side.opposite(), end.rest_of(makers, count));
            assert(book.wf());
            if ix is CreateLimitOrder && end.taker.remaining() > 0real {
                lemma_insert_keeps_book(book, end.taker);
            }
        },
        None => {
            let target = ix->CancelOrder_order_id;
            lemma_position_of_id(state.book.bids, target, 0);
            lemma_position_of_id(state.book.asks, target, 0);
            let bid = position_of_id(state.book.bids, target, 0);
            let ask = position_of_id(state.book.asks, target, 0);
            if bid < state.book.bids.len() {
                lemma_remove_keeps_side(Side::Bid, state.book.bids, bid);
            } else {
                lemma_remove_keeps_side(Side::Ask, state.book.asks, ask);
            }
        },
    }
}

/// The trades of a create command are with the resting orders of the
/// opposite queue from its front, one trade each and in that order, each
/// at the price of the resting order; and of every trade the buying order is
/// a bid and the selling order an ask.
pub proof fn law_trades_follow_the_queue(
    state: EngineView,
    ix: EngineIx,
    order_id: u128,
    created_at: i64,
)
    requires
        state.book.wf(),
        created_by(ix) is Some,
        command_outcome(state, ix, order_id, created_at) is Ok,
    ensures
        ({
            let args = created_by(ix).unwrap();
            let makers = state.book.side(args.side.opposite());
            let trades = command_outcome(state, ix, order_id, created_at).unwrap().1.trades;
            &&& trades.len() <= makers.len()
            &&& forall|k: int|
                0 <= k < trades.len() ==> {
                    &&& (#[trigger] trades[k]).price == makers[k].price
                    &&& makers[k].side == args.side.opposite()
                    &&& args.side == Side::Bid ==> trades[k].buy_order_id == order_id
                        && trades[k].sell_order_id == makers[k].id
                    &&& args.side == Side::Ask ==> trades[k].buy_order_id == makers[k].id
                        && trades[k].sell_order_id == order_id
                }
        }),
{
    let args = created_by(ix).unwrap();
    let start = walk_start(state, args, order_id, created_at);
    let makers = state.book.side(args.side.opposite());
    lemma_walk_shape(start, makers, 0);
    let end = start.walk(makers, 0).unwrap().0;
    let trades = command_outcome(state, ix, order_id, created_at).unwrap().1.trades;
    assert(trades == end.events.trades);
    assert forall|k: int| 0 <= k < trades.len() implies {
        &&& (#[trigger] trades[k]).price == makers[k].price
        &&& makers[k].side == args.side.opposite()
        &&& args.side == Side::Bid ==> trades[k].buy_order_id == order_id
            && trades[k].sell_order_id == makers[k].id
        &&& args.side == Side::Ask ==> trades[k].buy_order_id == makers[k].id
            && trades[k].sell_order_id == order_id
    } by {
        assert(trade_between(start.taker, makers[k], end.events.trades[k]));
    }
}

/// Price and time priority. Of two resting orders of one queue, the one
/// with the better price, or with the same price and the earlier time,
/// stands before the other; so where a create command trades with the
/// later of them, it has traded with the earlier one first.
pub proof fn law_price_time_priority(
    state: EngineView,
    ix: EngineIx,
    order_id: u128,
    created_at: i64,
    earlier: int,
    later: int,
)
    requires
        state.book.wf(),
        created_by(ix) is Some,
        command_outcome(state, ix, order_id, created_at) is Ok,
        0 <= earlier < state.book.side(created_by(ix).unwrap().side.opposite()).len(),
        0 <= later < command_outcome(state, ix, order_id, created_at).unwrap().1.trades.len(),
        ({
            let side = created_by(ix).unwrap().side.opposite();
            let makers = state.book.side(side);
            precedes(side, makers[earlier], makers[later]) && !precedes(
                side,
                makers[later],
                makers[earlier],
            )
        }),
    ensures
        earlier < later,
        ({
            let args = created_by(ix).unwrap();
            let makers = state.book.side(args.side.opposite());
            let trades = command_outcome(state, ix, order_id, created_at).unwrap().1.trades;
            trades[earlier].price == makers[earlier].price && (trades[earlier].buy_order_id
                == makers[earlier].id || trades[earlier].sell_order_id == makers[earlier].id)
        }),
{
    law_trades_follow_the_queue(state, ix, order_id, created_at);
    let side = created_by(ix).unwrap().side.opposite();
    let makers = state.book.side(side);
    if later < earlier {
        assert(precedes(side, makers[later], makers[earlier]));
    }
    let trades = command_outcome(state, ix, order_id, created_at).unwrap().1.trades;
    assert(trades[earlier].price == makers[earlier].price);
}

/// The test for an open order.
pub open spec fn is_open() -> spec_fn(OrderView) -> bool {
    |order: OrderView| order.status == Status::Open
}

/// All the orders of a book: its bids, then its asks.
pub open spec fn flattened(book: BookView) -> Seq<OrderView> {
    book.bids + book.asks
}

/// Loading orders into a well-formed book gives a well-formed book that
/// holds what it held and the open orders among those loaded, each as
/// often as it was given.
pub proof fn lemma_load(book: BookView, orders: Seq<OrderView>, from: int)
    requires
        book.wf(),
        0 <= from <= orders.len(),
        book.load(orders, from) is Some,
    ensures
        book.load(orders, from).unwrap().wf(),
        flattened(book.load(orders, from).unwrap()).to_multiset() == flattened(
            book,
        ).to_multiset().add(orders.skip(from).filter(is_open()).to_multiset()),
    decreases orders.len() - from,
{
    broadcast use vstd::seq_lib::group_to_multiset_ensures;
    broadcast use vstd::multiset::group_multiset_axioms;

    reveal(Seq::filter);
    if from >= orders.len() {
        assert(orders.skip(from).filter(is_open()) =~= Seq::<OrderView>::empty());
        assert(flattened(book).to_multiset().add(Seq::<OrderView>::empty().to_multiset())
            =~= flattened(book).to_multiset());
    } else {
        let order = orders[from];
        let first = seq![order];
        let rest = orders.skip(from + 1);
        assert(orders.skip(from) =~= first + rest);
        Seq::filter_distributes_over_add(first, rest, is_open());
        assert(first.drop_last() =~= Seq::<OrderView>::empty());
        assert(first.last() == order);
        assert(Seq::<OrderView>::empty().filter(is_open()) =~= Seq::<OrderView>::empty());
        assert(first.filter(is_open()) =~= if is_open()(order) {
            Seq::<OrderView>::empty().push(order)
        } else {
            Seq::<OrderView>::empty()
        });
        vstd::seq_lib::lemma_multiset_commutative(first.filter(is_open()), rest.filter(is_open()));
        if order.status != Status::Open {
            assert(first.filter(is_open()) =~= Seq::<OrderView>::empty());
            lemma_load(book, orders, from + 1);
            assert(orders.skip(from).filter(is_open()) =~= rest.filter(is_open()));
        } else {
            assert(first.filter(is_open()) =~= first);
            let next = book.insert(order);
            lemma_insert_keeps_book(book, order);
            crate::orderbook::lemma_insert_position(order.side, book.side(order.side), order);
            lemma_load(next, orders, from + 1);
            let queue = book.side(order.side);
            let at = crate::orderbook::insert_position(order.side, queue, order);
            vstd::seq_lib::to_multiset_insert(queue, at, order);
            vstd::seq_lib::lemma_multiset_commutative(book.bids, book.asks);
            vstd::seq_lib::lemma_multiset_commutative(next.bids, next.asks);
            assert(first.to_multiset() =~= Multiset::<OrderView>::empty().insert(order)) by {
                assert(first =~= Seq::<OrderView>::empty().push(order));
            }
            assert(flattened(next).to_multiset() =~= flattened(book).to_multiset().insert(order));
            assert(flattened(book.load(orders, from).unwrap()).to_multiset() =~= flattened(
                book,
            ).to_multiset().add(orders.skip(from).filter(is_open()).to_multiset()));
        }
    }
}

/// The boot loader: the book made of a snapshot holds the open orders of
/// the snapshot, each as often as the snapshot does, and no other; every
/// one of them is resting, and each side is in price and time priority.
pub proof fn law_boot_loader(orders: Seq<OrderView>)
    requires
        BookView::empty().load(orders, 0) is Some,
    ensures
        BookView::empty().load(orders, 0).unwrap().wf(),
        flattened(BookView::empty().load(orders, 0).unwrap()).to_multiset() == orders.filter(
            is_open(),
        ).to_multiset(),
{
    broadcast use vstd::multiset::group_multiset_axioms;

    lemma_load(BookView::empty(), orders, 0);
    assert(orders.skip(0) =~= orders);
    assert(flattened(BookView::empty()) =~= Seq::<OrderView>::empty());
    assert(Seq::<OrderView>::empty().to_multiset() =~= Multiset::<OrderView>::empty()) by {
        broadcast use vstd::seq_lib::group_to_multiset_ensures;

    }
    assert(Multiset::<OrderView>::empty().add(orders.filter(is_open()).to_multiset())
        =~= orders.filter(is_open()).to_multiset());
}

/// A command with what the durable store gave the order it creates.
pub ghost struct Command {
    pub ix: EngineIx,
    pub order_id: u128,
    pub created_at: i64,
}

/// The state after the commands were applied in turn, a rejected command
/// leaving the state as it was.
pub open spec fn after_commands(state: EngineView, commands: Seq<Command>) -> EngineView
    decreases commands.len(),
{
    if commands.len() == 0 {
        state
    } else {
        let before = after_commands(state, commands.drop_last());
        let command = commands.last();
        match command_outcome(before, command.ix, command.order_id, command.created_at) {
            Ok(outcome) => outcome.0,
            Err(_) => before,
        }
    }
}

/// Whatever sequence of valid commands is applied to a state with a
/// well-formed book and no negative balance: the book stays well formed,
/// no balance becomes negative, the users stay the same, and the totals of
/// the base and of the quote asset stay what they were.
pub proof fn law_sequences_keep_the_invariants(state: EngineView, commands: Seq<Command>)
    requires
        state.book.wf(),
        state.ledger.dom().finite(),
        ledger_non_negative(state.ledger),
        forall|i: int| 0 <= i < commands.len() ==> command_is_valid((#[trigger] commands[i]).ix),
    ensures
        after_commands(state, commands).book.wf(),
        ledger_non_negative(after_commands(state, commands).ledger),
        after_commands(state, commands).ledger.dom() == state.ledger.dom(),
        total_base(after_commands(state, commands).ledger) == total_base(state.ledger),
        total_quote(after_commands(state, commands).ledger) == total_quote(state.ledger),
    decreases commands.len(),
{
    if commands.len() > 0 {
        let front = commands.drop_last();
        assert forall|i: int| 0 <= i < front.len() implies command_is_valid(
            (#[trigger] front[i]).ix,
        ) by {
            assert(front[i] == commands[i]);
        }
        law_sequences_keep_the_invariants(state, front);
        let before = after_commands(state, front);
        let command = commands.last();
        if command_outcome(before, command.ix, command.order_id, command.created_at) is Ok {
            law_totals_are_conserved(before, command.ix, command.order_id, command.created_at);
            law_balances_stay_non_negative(
                before,
                command.ix,
                command.order_id,
                command.created_at,
            );
            law_book_stays_well_formed(before, command.ix, command.order_id, command.created_at);
        }
    }
}

/// The orders of one price of a queue in match priority stand in the order
/// of their times.
pub proof fn lemma_level_is_in_time_order(side: Side, queue: Seq<OrderView>, price: real)
    requires
        ordered(side, queue),
    ensures
        forall|i: int, j: int|
            0 <= i < j < queue.filter(priced(price)).len() ==> queue.filter(priced(price))[i].created_at
                <= queue.filter(priced(price))[j].created_at,
    decreases queue.len(),
{
    broadcast use vstd::seq_lib::group_filter_ensures;

    reveal(Seq::filter);
    if queue.len() > 0 {
        let front = queue.drop_last();
        let level = queue.filter(priced(price));
        let before = front.filter(priced(price));
        assert forall|i: int, j: int| 0 <= i < j < front.len() implies precedes(
            side,
            front[i],
            front[j],
        ) by {
            assert(front[i] == queue[i] && front[j] == queue[j]);
        }
        lemma_level_is_in_time_order(side, front, price);
        assert forall|i: int, j: int| 0 <= i < j < level.len() implies level[i].created_at
            <= level[j].created_at by {
            if j < before.len() {
                assert(level[i] == before[i] && level[j] == before[j]);
            } else {
                assert(level[i] == before[i]);
                assert(level[j] == queue.last());
                assert(before.contains(before[i]));
                front.lemma_filter_contains_rev(priced(price), before[i]);
                let k = choose|k: int| 0 <= k < front.len() && front[k] == before[i];
                assert(precedes(side, queue[k], queue[queue.len() - 1]));
                assert(priced(price)(before[i]));
            }
        }
    }
}

/// The book as a map from price to level. Of a side of a book, no level
/// is empty; the orders of a level have its price, are of that side and
/// resting; and within a level they stand in the order of their times.
pub proof fn law_levels(side: Side, queue: Seq<OrderView>, price: real)
    requires
        side_wf(side, queue),
        levels(queue).contains_key(price),
    ensures
        levels(queue)[price].len() > 0,
        forall|i: int|
            0 <= i < levels(queue)[price].len() ==> {
                &&& (#[trigger] levels(queue)[price][i]).price == price
                &&& levels(queue)[price][i].side == side
                &&& levels(queue)[price][i].resting()
            },
        forall|i: int, j: int|
            0 <= i < j < levels(queue)[price].len() ==> levels(queue)[price][i].created_at
                <= levels(queue)[price][j].created_at,
{
    broadcast use vstd::seq_lib::group_filter_ensures;

    let level = queue.filter(priced(price));
    let at = choose|i: int| 0 <= i < queue.len() && (#[trigger] queue[i]).price == price;
    assert(priced(price)(queue[at]));
    assert(level.contains(queue[at]));
    lemma_level_is_in_time_order(side, queue, price);
    assert forall|i: int| 0 <= i < level.len() implies {
        &&& (#[trigger] level[i]).price == price
        &&& level[i].side == side
        &&& level[i].resting()
    } by {
        assert(priced(price)(level[i]));
        assert(level.contains(level[i]));
        queue.lemma_filter_contains_rev(priced(price), level[i]);
        let k = choose|k: int| 0 <= k < queue.len() && queue[k] == level[i];
        assert(queue[k].side == side && queue[k].resting());
    }
}

/// A queue that holds no order of a price has no order in the level of
/// that price.
pub proof fn lemma_level_of_no_order(queue: Seq<OrderView>, price: real)
    requires
        forall|i: int| 0 <= i < queue.len() ==> (#[trigger] queue[i]).price != price,
    ensures
        queue.filter(priced(price)) == Seq::<OrderView>::empty(),
    decreases queue.len(),
{
    reveal(Seq::filter);
    if queue.len() > 0 {
        let front = queue.drop_last();
        assert forall|i: int| 0 <= i < front.len() implies (#[trigger] front[i]).price != price by {
            assert(front[i] == queue[i]);
        }
        lemma_level_of_no_order(front, price);
        assert(queue.last() == queue[queue.len() - 1]);
    }
    assert(queue.filter(priced(price)) =~= Seq::<OrderView>::empty());
}

/// The orders of a price in a queue that one order has entered: those
/// before its place, the order itself if it is of that price, and those
/// behind its place.
pub proof fn lemma_level_after_insert(
    queue: Seq<OrderView>,
    at: int,
    order: OrderView,
    price: real,
)
    requires
        0 <= at <= queue.len(),
    ensures
        queue.filter(priced(price)) == queue.take(at).filter(priced(price)) + queue.skip(at).filter(
            priced(price),
        ),
        queue.insert(at, order).filter(priced(price)) == queue.take(at).filter(priced(price)) + (
        if order.price == price {
            seq![order]
        } else {
            Seq::<OrderView>::empty()
        }) + queue.skip(at).filter(priced(price)),
{
    let front = queue.take(at);
    let back = queue.skip(at);
    let one = seq![order];
    assert(queue.insert(at, order) =~= front + one + back);
    assert(queue =~= front + back);
    Seq::filter_distributes_over_add(front + one, back, priced(price));
    Seq::filter_distributes_over_add(front, one, priced(price));
    Seq::filter_distributes_over_add(front, back, priced(price));
    assert(one.filter(priced(price)) =~= if order.price == price {
        one
    } else {
        Seq::<OrderView>::empty()
    }) by {
        reveal(Seq::filter);
        assert(one.drop_last() =~= Seq::<OrderView>::empty());
        assert(one.last() == order);
        assert(Seq::<OrderView>::empty().filter(priced(price)) =~= Seq::<OrderView>::empty());
    }
}

/// A queue that an order has entered has a level at the price of that
/// order, and at no other price but where it had one.
pub proof fn lemma_levels_after_insert(
    queue: Seq<OrderView>,
    at: int,
    order: OrderView,
    price: real,
)
    requires
        0 <= at <= queue.len(),
    ensures
        levels(queue.insert(at, order)).contains_key(price) == (price == order.price || levels(
            queue,
        ).contains_key(price)),
{
    let after = queue.insert(at, order);
    assert(after[at] == order);
    if levels(queue).contains_key(price) {
        let i = choose|i: int| 0 <= i < queue.len() && (#[trigger] queue[i]).price == price;
        let j = if i < at {
            i
        } else {
            i + 1
        };
        assert(after[j] == queue[i]);
    }
    if levels(after).contains_key(price) && price != order.price {
        let j = choose|j: int| 0 <= j < after.len() && (#[trigger] after[j]).price == price;
        let i = if j < at {
            j
        } else {
            j - 1
        };
        assert(after[j] == queue[i]);
    }
}

/// An order that enters a queue is appended to the level of its price,
/// which is made if there was none, where no order of that level is
/// younger than it; and it leaves every other level as it was.
pub proof fn law_insert_appends_to_the_level(
    side: Side,
    queue: Seq<OrderView>,
    order: OrderView,
    price: real,
)
    requires
        side_wf(side, queue),
        order.side == side,
        forall|i: int|
            0 <= i < queue.len() && (#[trigger] queue[i]).price == order.price
                ==> queue[i].created_at <= order.created_at,
    ensures
        ({
            let after = queue.insert(insert_position(side, queue, order), order);
            &&& levels(after).contains_key(order.price)
            &&& levels(after)[order.price] == queue.filter(priced(order.price)).push(order)
            &&& price != order.price ==> levels(after).contains_key(price) == levels(
                queue,
            ).contains_key(price)
            &&& price != order.price ==> after.filter(priced(price)) == queue.filter(priced(price))
        }),
{
    lemma_insert_position(side, queue, order);
    let at = insert_position(side, queue, order);
    let after = queue.insert(at, order);
    let back = queue.skip(at);
    assert forall|i: int| 0 <= i < back.len() implies (#[trigger] back[i]).price
        != order.price by {
        assert(back[i] == queue[at + i]);
        assert(!precedes(side, queue[at + i], order));
    }
    lemma_level_of_no_order(back, order.price);
    lemma_level_after_insert(queue, at, order, order.price);
    lemma_levels_after_insert(queue, at, order, order.price);
    assert(after.filter(priced(order.price)) =~= queue.filter(priced(order.price)).push(order));
    lemma_level_after_insert(queue, at, order, price);
    lemma_levels_after_insert(queue, at, order, price);
    if price != order.price {
        assert(after.filter(priced(price)) =~= queue.filter(priced(price)));
    }
}

} // verus!
