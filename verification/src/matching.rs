//! What matching means, stated on views.
//!
//! A taker walks the queue of the opposite side from its front. Each step
//! trades with the order at the front of what is left, settles both
//! balances and records three events. The walk ends when the taker is
//! filled, the queue is exhausted, the next price does not cross, a market
//! bid can no longer afford the next price, or a resting order was left
//! partly filled. A step that would make a balance negative fails the whole
//! command.
use crate::balance::BalanceView;
use crate::decimal::floor_to_scale;
use crate::order::CreateOrderArgsView;
use crate::order::EngineError;
use crate::order::OrderType;
use crate::order::OrderView;
use crate::order::Side;
use crate::order::Status;
use crate::orderbook::position_of_id;
use crate::orderbook::BookView;
use vstd::prelude::*;

verus! {

/// A trade as it is emitted.
#[verifier::ext_equal]
pub ghost struct TradeView {
    pub buy_order_id: u128,
    pub sell_order_id: u128,
    pub price: real,
    pub quantity: real,
}

/// The events of one command, each kind in the order of emission.
#[verifier::ext_equal]
pub ghost struct ExecutionView {
    pub balances: Seq<BalanceView>,
    pub trades: Seq<TradeView>,
    pub orders: Seq<OrderView>,
}

/// The state of the engine: the book and the balance of each user.
#[verifier::ext_equal]
pub ghost struct EngineView {
    pub book: BookView,
    pub ledger: Map<u128, BalanceView>,
}

/// The state of a walk: the balances, the taker as filled so far, the quote
/// that its trades have cost, and the events so far.
#[verifier::ext_equal]
pub ghost struct MatchState {
    pub ledger: Map<u128, BalanceView>,
    pub taker: OrderView,
    pub spent: real,
    pub events: ExecutionView,
}

/// The smaller of two numbers.
pub open spec fn min_real(a: real, b: real) -> real {
    if a <= b {
        a
    } else {
        b
    }
}

/// The identities of the buying and of the selling order of a trade between
/// a taker of the given side and a resting order.
pub open spec fn trade_order_ids(side: Side, taker_id: u128, maker_id: u128) -> (u128, u128) {
    match side {
        Side::Bid => (taker_id, maker_id),
        Side::Ask => (maker_id, taker_id),
    }
}

/// A limit order of the given side and limit crosses a resting price.
pub open spec fn crosses(side: Side, limit: real, price: real) -> bool {
    match side {
        Side::Bid => price <= limit,
        Side::Ask => price >= limit,
    }
}

/// Settling the trade leaves the balance without a negative quantity.
pub open spec fn can_settle(balance: BalanceView, side: Side, price: real, quantity: real) -> bool {
    match side {
        Side::Bid => balance.free_base + quantity >= 0real && balance.locked_quote - quantity
            * price >= 0real,
        Side::Ask => balance.free_quote + quantity * price >= 0real && balance.locked_base
            - quantity >= 0real,
    }
}

/// Locking the funds of the order leaves the balance without a negative
/// quantity.
pub open spec fn can_lock(balance: BalanceView, side: Side, base_qty: real, quote_qty: real) -> bool {
    match side {
        Side::Bid => balance.free_quote >= quote_qty && balance.locked_quote + quote_qty >= 0real,
        Side::Ask => balance.free_base >= base_qty && balance.locked_base + base_qty >= 0real,
    }
}

/// Releasing the funds of an unfilled quantity leaves the balance without a
/// negative quantity.
pub open spec fn can_release(balance: BalanceView, side: Side, price: real, quantity: real) -> bool {
    match side {
        Side::Bid => balance.free_quote + quantity * price >= 0real && balance.locked_quote
            - quantity * price >= 0real,
        Side::Ask => balance.free_base + quantity >= 0real && balance.locked_base - quantity
            >= 0real,
    }
}

/// The order that a command creates: open, nothing filled.
pub open spec fn new_order(args: CreateOrderArgsView, id: u128, created_at: i64) -> OrderView {
    OrderView {
        id,
        user_id: args.user_id,
        order_type: args.order_type,
        price: args.limit_price,
        quantity: args.base_qty,
        filled_quantity: 0real,
        side: args.side,
        status: Status::Open,
        created_at,
        updated_at: created_at,
        lot_scale: args.lot_scale,
    }
}

impl MatchState {
    /// The state before the first step.
    pub open spec fn start(ledger: Map<u128, BalanceView>, taker: OrderView) -> MatchState {
        MatchState {
            ledger,
            taker,
            spent: 0real,
            events: ExecutionView {
                balances: Seq::empty(),
                trades: Seq::empty(),
                orders: Seq::empty(),
            },
        }
    }

    /// The walk ends before the resting order `maker`: a limit order stops
    /// at a price that does not cross, a market bid at a price above what
    /// its user has locked in quote.
    pub open spec fn stops_at(self, maker: OrderView) -> bool {
        match self.taker.order_type {
            OrderType::Limit => !crosses(self.taker.side, self.taker.price, maker.price),
            OrderType::Market => self.taker.side == Side::Bid && self.ledger[self.taker.user_id].locked_quote
                < maker.price,
        }
    }

    /// The quantity that trades with `maker`: what both still need, and for
    /// a market bid no more than the locked quote buys at the maker's
    /// price, cut to the maker's lot scale.
    pub open spec fn trade_quantity(self, maker: OrderView) -> real {
        let wanted = min_real(maker.remaining(), self.taker.remaining());
        if self.taker.order_type == OrderType::Market && self.taker.side == Side::Bid {
            min_real(
                wanted,
                floor_to_scale(
                    self.ledger[self.taker.user_id].locked_quote / maker.price,
                    maker.lot_scale,
                ),
            )
        } else {
            wanted
        }
    }

    /// The state after `quantity` traded with `maker` at the maker's price:
    /// first the maker's balance is settled and emitted, then the taker's
    /// is settled, then the trade and the maker are emitted.
    pub open spec fn trade(self, maker: OrderView, quantity: real) -> Result<
        MatchState,
        EngineError,
    > {
        if !self.ledger.contains_key(maker.user_id) {
            Err(EngineError::InvariantViolation)
        } else if !can_settle(self.ledger[maker.user_id], maker.side, maker.price, quantity) {
            Err(EngineError::InsufficientFunds)
        } else {
            let maker_balance = self.ledger[maker.user_id].settle(
                maker.side,
                maker.price,
                quantity,
            );
            let ledger = self.ledger.insert(maker.user_id, maker_balance);
            if !ledger.contains_key(self.taker.user_id) {
                Err(EngineError::InvariantViolation)
            } else if !can_settle(
                ledger[self.taker.user_id],
                self.taker.side,
                maker.price,
                quantity,
            ) {
                Err(EngineError::InsufficientFunds)
            } else {
                let ids = trade_order_ids(self.taker.side, self.taker.id, maker.id);
                Ok(
                    MatchState {
                        ledger: ledger.insert(
                            self.taker.user_id,
                            ledger[self.taker.user_id].settle(
                                self.taker.side,
                                maker.price,
                                quantity,
                            ),
                        ),
                        taker: OrderView {
                            filled_quantity: self.taker.filled_quantity + quantity,
                            ..self.taker
                        },
                        spent: self.spent + quantity * maker.price,
                        events: ExecutionView {
                            balances: self.events.balances.push(maker_balance),
                            trades: self.events.trades.push(
                                TradeView {
                                    buy_order_id: ids.0,
                                    sell_order_id: ids.1,
                                    price: maker.price,
                                    quantity,
                                },
                            ),
                            orders: self.events.orders.push(maker.fill(quantity)),
                        },
                    },
                )
            }
        }
    }

    /// The walk from place `at` of the queue `makers` on: the state at its
    /// end and the number of resting orders it traded with, or the error
    /// that fails the command.
    pub open spec fn walk(self, makers: Seq<OrderView>, at: int) -> Result<
        (MatchState, int),
        EngineError,
    >
        decreases makers.len() - at,
    {
        if at < 0 || at >= makers.len() || self.taker.remaining() <= 0real || self.stops_at(
            makers[at],
        ) {
            Ok((self, at))
        } else {
            match self.trade(makers[at], self.trade_quantity(makers[at])) {
                Err(e) => Err(e),
                Ok(next) => if next.events.orders.last().status == Status::Closed {
                    next.walk(makers, at + 1)
                } else {
                    Ok((next, at + 1))
                },
            }
        }
    }

    /// What is left of the queue `makers` after a walk that traded with
    /// its first `count` orders: the last of them where it was left partly
    /// filled, then the orders that were not reached.
    pub open spec fn rest_of(self, makers: Seq<OrderView>, count: int) -> Seq<OrderView> {
        if count > 0 && self.events.orders.len() > 0 && self.events.orders.last().status
            != Status::Closed {
            seq![self.events.orders.last()] + makers.skip(count)
        } else {
            makers.skip(count)
        }
    }
}

impl MatchState {
    /// The end of a limit order after its walk: what remains of it rests
    /// in `book`, or it is closed where nothing remains; then the taker's
    /// balance and the taker are emitted.
    pub open spec fn close_limit(self, book: BookView) -> (EngineView, ExecutionView) {
        let taker = if self.taker.remaining() > 0real {
            self.taker
        } else {
            self.taker.with_status(Status::Closed)
        };
        (
            EngineView {
                book: if self.taker.remaining() > 0real {
                    book.insert(taker)
                } else {
                    book
                },
                ledger: self.ledger,
            },
            ExecutionView {
                balances: self.events.balances.push(self.ledger[self.taker.user_id]),
                trades: self.events.trades,
                orders: self.events.orders.push(taker),
            },
        )
    }

    /// What a market order gets back after its walk of what it locked: a
    /// bid the quote quantity less what its trades cost, where that is
    /// above zero; an ask the base quantity that did not trade.
    pub open spec fn refund(self, quote_qty: real) -> real {
        match self.taker.side {
            Side::Bid => if quote_qty - self.spent > 0real {
                quote_qty - self.spent
            } else {
                0real
            },
            Side::Ask => self.taker.remaining(),
        }
    }

    /// The end of a market order after its walk: the refund moves from
    /// locked to free, the order is closed whatever remains of it, and the
    /// taker's balance and the taker are emitted.
    pub open spec fn close_market(self, book: BookView, quote_qty: real) -> Result<
        (EngineView, ExecutionView),
        EngineError,
    > {
        let back = -self.refund(quote_qty);
        let balance = self.ledger[self.taker.user_id];
        if !can_lock(balance, self.taker.side, back, back) {
            Err(EngineError::InsufficientFunds)
        } else {
            let after = balance.lock(self.taker.side, back, back);
            Ok(
                (
                    EngineView { book, ledger: self.ledger.insert(self.taker.user_id, after) },
                    ExecutionView {
                        balances: self.events.balances.push(after),
                        trades: self.events.trades,
                        orders: self.events.orders.push(self.taker.with_status(Status::Closed)),
                    },
                ),
            )
        }
    }
}

impl EngineView {
    /// The state after the funds of a new order were locked and the order
    /// walked the opposite queue, with the number of resting orders it
    /// traded with; or the error that rejects the command.
    pub open spec fn lock_and_walk(self, args: CreateOrderArgsView, id: u128, created_at: i64) -> Result<
        (MatchState, int),
        EngineError,
    > {
        if !self.ledger.contains_key(args.user_id) {
            Err(EngineError::UnknownUser)
        } else if !can_lock(self.ledger[args.user_id], args.side, args.base_qty, args.quote_qty) {
            Err(EngineError::InsufficientFunds)
        } else {
            MatchState::start(
                self.ledger.insert(
                    args.user_id,
                    self.ledger[args.user_id].lock(args.side, args.base_qty, args.quote_qty),
                ),
                new_order(args, id, created_at),
            ).walk(self.book.side(args.side.opposite()), 0)
        }
    }

    /// What a limit order does to the engine: the state after it and the
    /// events it emits, or the error that rejects it.
    pub open spec fn limit_outcome(self, args: CreateOrderArgsView, id: u128, created_at: i64)
        -> Result<(EngineView, ExecutionView), EngineError> {
        match self.lock_and_walk(args, id, created_at) {
            Err(e) => Err(e),
            Ok((end, count)) => {
                let makers = self.book.side(args.side.opposite());
                Ok(
                    end.close_limit(
                        self.book.with_side(args.side.opposite(), end.rest_of(makers, count)),
                    ),
                )
            },
        }
    }

    /// What a market order does to the engine: the state after it and the
    /// events it emits, or the error that rejects it.
    pub open spec fn market_outcome(self, args: CreateOrderArgsView, id: u128, created_at: i64)
        -> Result<(EngineView, ExecutionView), EngineError> {
        match self.lock_and_walk(args, id, created_at) {
            Err(e) => Err(e),
            Ok((end, count)) => {
                let makers = self.book.side(args.side.opposite());
                end.close_market(
                    self.book.with_side(args.side.opposite(), end.rest_of(makers, count)),
                    args.quote_qty,
                )
            },
        }
    }

    /// What cancelling the order at place `at` of the queue of `side` does:
    /// the order leaves the book as cancelled, and what is locked for its
    /// unfilled quantity becomes free.
    pub open spec fn cancel_at(self, side: Side, at: int) -> Result<
        (EngineView, ExecutionView),
        EngineError,
    > {
        let queue = self.book.side(side);
        let order = queue[at];
        if !self.ledger.contains_key(order.user_id) {
            Err(EngineError::InvariantViolation)
        } else if !can_release(
            self.ledger[order.user_id],
            order.side,
            order.price,
            order.remaining(),
        ) {
            Err(EngineError::InsufficientFunds)
        } else {
            let balance = self.ledger[order.user_id].release(
                order.side,
                order.price,
                order.remaining(),
            );
            Ok(
                (
                    EngineView {
                        book: self.book.with_side(side, queue.remove(at)),
                        ledger: self.ledger.insert(order.user_id, balance),
                    },
                    ExecutionView {
                        balances: seq![balance],
                        trades: Seq::empty(),
                        orders: seq![order.with_status(Status::Cancelled)],
                    },
                ),
            )
        }
    }

    /// What cancelling the order of the given identity does: the first
    /// resting bid of that identity is cancelled, else the first resting
    /// ask; where there is none the command fails with `OrderNotFound`.
    pub open spec fn cancel_outcome(self, order_id: u128) -> Result<
        (EngineView, ExecutionView),
        EngineError,
    > {
        let bid = position_of_id(self.book.bids, order_id, 0);
        let ask = position_of_id(self.book.asks, order_id, 0);
        if bid < self.book.bids.len() {
            self.cancel_at(Side::Bid, bid)
        } else if ask < self.book.asks.len() {
            self.cancel_at(Side::Ask, ask)
        } else {
            Err(EngineError::OrderNotFound)
        }
    }
}

} // verus!
