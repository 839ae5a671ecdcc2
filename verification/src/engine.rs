//! The engine: the book, the ledger, and the commands that change them.
//!
//! A command is applied whole or not at all. While it runs it reads the
//! book and the ledger and keeps the balances it changes aside; only when
//! every step has succeeded are the book changed and those balances written
//! into the ledger. The events of a command are its result: whoever runs
//! the engine hands them to the writers.
use crate::balance::balance_of;
use crate::balance::balance_views;
use crate::balance::commit_writes;
use crate::balance::current_balance;
use crate::balance::written;
use crate::balance::ledger_view;
use crate::balance::ledger_wf;
use crate::balance::UserBalance;
use crate::decimal::Decimal;
use crate::events::EngineIx;
use crate::events::Execution;
use crate::events::InsertTradeArgs;
use crate::laws::all_non_negative;
use crate::laws::law_balances_stay_non_negative;
use crate::laws::law_totals_are_conserved;
use crate::laws::ledger_non_negative;
use crate::laws::lemma_walk_shape;
use crate::laws::walk_start;
use crate::ledger::total_base;
use crate::ledger::total_quote;
use crate::matching::trade_order_ids;
use crate::matching::EngineView;
use crate::matching::ExecutionView;
use crate::matching::MatchState;
use crate::order::CreateOrderArgs;
use crate::order::EngineError;
use crate::order::Order;
use crate::order::OrderType;
use crate::order::Side;
use crate::order::Status;
use crate::orderbook::side_wf;
use crate::orderbook::views;
use crate::orderbook::BookView;
use crate::orderbook::Orderbook;
use std::collections::HashMap;
use vstd::prelude::*;

verus! {

broadcast use vstd::std_specs::hash::group_hash_axioms;

/// A walk in progress: the balances written so far, the taker, what its
/// trades have cost, and the events so far. The ledger itself is not
/// touched: a balance is read from the last write for its user, else from
/// the ledger, and the writes are committed when the command has succeeded.
pub struct Matching {
    pub writes: Vec<UserBalance>,
    pub taker: Order,
    pub spent: Decimal,
    pub events: Execution,
}

impl Matching {
    /// The state of the walk over the ledger `base`.
    pub open spec fn state(&self, base: Map<u128, UserBalance>) -> MatchState {
        MatchState {
            ledger: written(ledger_view(base), balance_views(self.writes@)),
            taker: self.taker@,
            spent: self.spent@,
            events: self.events@,
        }
    }

    /// The ledger and the writes are well formed, the taker's user has a
    /// balance, and the scales of the taker and of the cost are within the
    /// library's limits.
    pub open spec fn wf(&self, base: Map<u128, UserBalance>) -> bool {
        &&& ledger_wf(base)
        &&& forall|i: int|
            0 <= i < self.writes@.len() ==> (#[trigger] self.writes@[i]).wf()
                && self.writes@[i]@.non_negative()
        &&& self.state(base).ledger.contains_key(self.taker.user_id)
        &&& self.taker.wf()
        &&& self.spent.fits(3)
    }

    /// Writes a balance.
    fn write(&mut self, balance: UserBalance, Ghost(base): Ghost<Map<u128, UserBalance>>)
        requires
            old(self).wf(base),
            balance.wf(),
            balance@.non_negative(),
        ensures
            final(self).wf(base),
            final(self).state(base) == (MatchState {
                ledger: old(self).state(base).ledger.insert(balance@.user_id, balance@),
                ..old(self).state(base)
            }),
    {
        let ghost before = balance_views(self.writes@);
        self.writes.push(balance);
        proof {
            let after = balance_views(self.writes@);
            assert(after =~= before.push(balance@));
            assert(after.drop_last() =~= before);
        }
    }

    /// Whether the walk ends before the resting order `maker`.
    pub fn stops_at(&self, base: &HashMap<u128, UserBalance>, maker: &Order) -> (r: bool)
        requires
            self.wf(base@),
            maker.wf(),
        ensures
            r == self.state(base@).stops_at(maker@),
    {
        match self.taker.order_type {
            OrderType::Limit => match self.taker.side {
                Side::Bid => self.taker.price.less_than(&maker.price),
                Side::Ask => maker.price.less_than(&self.taker.price),
            },
            OrderType::Market => match self.taker.side {
                Side::Bid => {
                    match current_balance(base, &self.writes, self.taker.user_id) {
                        Some(balance) => balance.locked_quote_qty.less_than(&maker.price),
                        None => false,
                    }
                },
                Side::Ask => false,
            },
        }
    }

    /// The quantity that trades with the resting order `maker`.
    pub fn trade_quantity(&self, base: &HashMap<u128, UserBalance>, maker: &Order) -> (r: Decimal)
        requires
            self.wf(base@),
            maker.wf(),
            maker@.resting(),
        ensures
            r@ == self.state(base@).trade_quantity(maker@),
            r.fits(2),
    {
        let maker_remaining = maker.quantity.minus(&maker.filled_quantity);
        let taker_remaining = self.taker.quantity.minus(&self.taker.filled_quantity);
        let wanted = maker_remaining.min(&taker_remaining);
        match (self.taker.order_type, self.taker.side) {
            (OrderType::Market, Side::Bid) => {
                match current_balance(base, &self.writes, self.taker.user_id) {
                    Some(balance) => {
                        let scale = maker.price.scale + maker.quantity.scale;
                        let affordable = balance.locked_quote_qty.floor_quotient(
                            &maker.price,
                            scale,
                        );
                        wanted.min(&affordable)
                    },
                    None => wanted,
                }
            },
            _ => wanted,
        }
    }

    /// Trades `quantity` with the resting order `maker` at the maker's
    /// price and gives the maker as the trade leaves it. The maker is
    /// emitted whether or not the trade has closed it, so that the writer
    /// of orders learns what is filled.
    pub fn trade(&mut self, base: &HashMap<u128, UserBalance>, maker: &Order, quantity: Decimal) -> (r:
        Result<Order, EngineError>)
        requires
            old(self).wf(base@),
            maker.wf(),
            quantity.fits(2),
        ensures
            match r {
                Ok(updated) => old(self).state(base@).trade(maker@, quantity@) == Ok::<
                    MatchState,
                    EngineError,
                >(final(self).state(base@)) && final(self).wf(base@) && updated.wf() && updated@
                    == maker@.fill(quantity@),
                Err(e) => old(self).state(base@).trade(maker@, quantity@) == Err::<
                    MatchState,
                    EngineError,
                >(e),
            },
    {
        let ghost before = self.state(base@);
        let mut maker_balance = match current_balance(base, &self.writes, maker.user_id) {
            Some(balance) => balance,
            None => {
                return Err(EngineError::InvariantViolation);
            },
        };
        match maker_balance.update_balance(maker.side, &maker.price, &quantity) {
            Ok(()) => {},
            Err(e) => {
                return Err(e);
            },
        }
        let maker_event = maker_balance.copy();
        self.write(maker_balance, Ghost(base@));
        let mut taker_balance = match current_balance(base, &self.writes, self.taker.user_id) {
            Some(balance) => balance,
            None => {
                return Err(EngineError::InvariantViolation);
            },
        };
        match taker_balance.update_balance(self.taker.side, &maker.price, &quantity) {
            Ok(()) => {},
            Err(e) => {
                return Err(e);
            },
        }
        self.write(taker_balance, Ghost(base@));
        let cost = quantity.times(&maker.price);
        self.spent = self.spent.plus(&cost);
        self.taker.filled_quantity = self.taker.filled_quantity.plus(&quantity);
        let mut updated = maker.copy();
        updated.filled_quantity = maker.filled_quantity.plus(&quantity);
        if updated.filled_quantity.equals(&updated.quantity) {
            updated.status = Status::Closed;
        }
        let ids = match Engine::determine_order_ids_for_trade_event(
            self.taker.side,
            self.taker.id,
            maker.id,
        ) {
            Ok(ids) => ids,
            Err(e) => {
                return Err(e);
            },
        };
        self.events.emit_balance(maker_event);
        self.events.emit_trade(
            InsertTradeArgs {
                buy_order_id: ids.0,
                sell_order_id: ids.1,
                price: maker.price.copy(),
                quantity,
            },
        );
        self.events.emit_order(updated.copy());
        proof {
            assert(updated@ =~= maker@.fill(quantity@));
            assert(self.state(base@) =~= before.trade(maker@, quantity@).unwrap());
        }
        Ok(updated)
    }

    /// Walks the queue `makers` from its front, trading as it goes, and
    /// gives the number of resting orders it traded with and, where the
    /// last of them was left partly filled, that order as the trade
    /// leaves it.
    pub fn walk(&mut self, base: &HashMap<u128, UserBalance>, makers: &Vec<Order>) -> (r: Result<
        (usize, Option<Order>),
        EngineError,
    >)
        requires
            old(self).wf(base@),
            forall|i: int| 0 <= i < makers@.len() ==> (#[trigger] makers@[i]).wf(),
            side_wf(old(self).taker.side.opposite(), views(makers@)),
        ensures
            match r {
                Ok((count, partial)) => {
                    &&& old(self).state(base@).walk(views(makers@), 0) == Ok::<
                        (MatchState, int),
                        EngineError,
                    >((final(self).state(base@), count as int))
                    &&& final(self).wf(base@)
                    &&& count <= makers@.len()
                    &&& match partial {
                        Some(order) => {
                            &&& count > 0
                            &&& order.wf()
                            &&& final(self).state(base@).rest_of(views(makers@), count as int)
                                == seq![order@] + views(makers@).skip(count as int)
                        },
                        None => final(self).state(base@).rest_of(views(makers@), count as int)
                            == views(makers@).skip(count as int),
                    }
                },
                Err(e) => old(self).state(base@).walk(views(makers@), 0) == Err::<
                    (MatchState, int),
                    EngineError,
                >(e),
            },
    {
        let ghost start = self.state(base@);
        let ghost queue = views(makers@);
        let mut i: usize = 0;
        while i < makers.len()
            invariant
                i <= makers@.len(),
                queue == views(makers@),
                start == old(self).state(base@),
                self.wf(base@),
                forall|k: int| 0 <= k < makers@.len() ==> (#[trigger] makers@[k]).wf(),
                side_wf(start.taker.side.opposite(), queue),
                start.walk(queue, 0) == self.state(base@).walk(queue, i as int),
                i > 0 ==> self.events@.orders.len() > 0 && self.events@.orders.last().status
                    == Status::Closed,
            decreases makers@.len() - i,
        {
            assert(queue[i as int] == makers@[i as int]@);
            let remaining = self.taker.quantity.minus(&self.taker.filled_quantity);
            if !remaining.is_positive() || self.stops_at(base, &makers[i]) {
                return Ok((i, None));
            }
            let quantity = self.trade_quantity(base, &makers[i]);
            match self.trade(base, &makers[i], quantity) {
                Err(e) => {
                    return Err(e);
                },
                Ok(updated) => {
                    assert(self.events@.orders.last() == updated@);
                    i += 1;
                    match updated.status {
                        Status::Closed => {},
                        _ => {
                            return Ok((i, Some(updated)));
                        },
                    }
                },
            }
        }
        Ok((i, None))
    }
}

/// The matching engine: the order book and the balance of each user.
pub struct Engine {
    orderbook: Orderbook,
    balances: HashMap<u128, UserBalance>,
}

impl View for Engine {
    type V = EngineView;

    closed spec fn view(&self) -> EngineView {
        EngineView { book: self.orderbook@, ledger: ledger_view(self.balances@) }
    }
}

impl Engine {
    /// The book and the ledger are well formed.
    pub closed spec fn wf(&self) -> bool {
        &&& self.orderbook.wf()
        &&& ledger_wf(self.balances@)
    }

    /// What a well-formed engine holds: a well-formed book, finitely many
    /// users, and no balance with a quantity below zero.
    pub proof fn law_state(&self)
        requires
            self.wf(),
        ensures
            self@.book.wf(),
            self@.ledger.dom().finite(),
            ledger_non_negative(self@.ledger),
    {
        assert(self@.ledger.dom() =~= self.balances@.dom());
    }

    /// An engine with an empty book and no user.
    pub fn default() -> (r: Engine)
        ensures
            r.wf(),
            r@.book == BookView::empty(),
            r@.ledger == Map::<u128, crate::balance::BalanceView>::empty(),
    {
        let r = Engine { orderbook: Orderbook::default(), balances: HashMap::new() };
        assert(r@.ledger =~= Map::<u128, crate::balance::BalanceView>::empty());
        r
    }

    /// The book.
    pub fn orderbook(&self) -> (r: &Orderbook)
        requires
            self.wf(),
        ensures
            r.wf(),
            r@ == self@.book,
    {
        &self.orderbook
    }

    /// The balance of a user, if the user has one.
    pub fn balance(&self, user_id: u128) -> (r: Option<UserBalance>)
        requires
            self.wf(),
        ensures
            match r {
                Some(balance) => self@.ledger.contains_key(user_id) && balance@
                    == self@.ledger[user_id] && balance.wf(),
                None => !self@.ledger.contains_key(user_id),
            },
    {
        balance_of(&self.balances, user_id)
    }

    /// The identities of the buying and of the selling order of a trade
    /// between the order of a user, of the given side, and the resting
    /// order it matched.
    pub fn determine_order_ids_for_trade_event(
        side: Side,
        user_order_id: u128,
        matching_order_id: u128,
    ) -> (r: Result<(u128, u128), EngineError>)
        ensures
            r == Ok::<(u128, u128), EngineError>(
                trade_order_ids(side, user_order_id, matching_order_id),
            ),
    {
        Ok(
            match side {
                Side::Bid => (user_order_id, matching_order_id),
                Side::Ask => (matching_order_id, user_order_id),
            },
        )
    }

    /// Whether `price` is above what the user has locked in quote.
    pub fn is_balance_exhausted(&self, user_id: &u128, price: &Decimal) -> (r: bool)
        requires
            self.wf(),
            self@.ledger.contains_key(*user_id),
            price.representable(),
        ensures
            r == (price@ > self@.ledger[*user_id].locked_quote),
    {
        match self.balances.get(user_id) {
            Some(balance) => balance.locked_quote_qty.less_than(price),
            None => false,
        }
    }

    /// Replaces the state of the engine by what a snapshot of the durable
    /// store holds: the open orders enter the book one by one, and each
    /// balance is kept under its user. The snapshot is refused, and the
    /// engine left as it was, where an open order cannot rest or a balance
    /// has a quantity below zero.
    pub fn init_engine(&mut self, orders: Vec<Order>, balances: Vec<UserBalance>) -> (r: Result<
        (),
        EngineError,
    >)
        requires
            forall|i: int| 0 <= i < orders@.len() ==> (#[trigger] orders@[i]).wf(),
            forall|i: int| 0 <= i < balances@.len() ==> (#[trigger] balances@[i]).wf(),
        ensures
            r is Ok <==> BookView::empty().load(views(orders@), 0) is Some && forall|i: int|
                0 <= i < balances@.len() ==> (#[trigger] balances@[i])@.non_negative(),
            match r {
                Ok(()) => {
                    &&& final(self).wf()
                    &&& Some(final(self)@.book) == BookView::empty().load(views(orders@), 0)
                    &&& final(self)@.ledger == crate::balance::ledger_of(
                        balance_views(balances@),
                        balances@.len() as int,
                    )
                },
                Err(e) => e == EngineError::InvariantViolation && *final(self) == *old(self),
            },
    {
        let book = match Orderbook::init_orderbook(orders) {
            Ok(book) => book,
            Err(e) => {
                return Err(e);
            },
        };
        let ledger = match UserBalance::init_user_balances(balances) {
            Ok(ledger) => ledger,
            Err(e) => {
                return Err(e);
            },
        };
        self.orderbook = book;
        self.balances = ledger;
        Ok(())
    }

    /// Locks the funds of a new order and walks the opposite queue with
    /// it, writing no balance into the ledger yet.
    fn lock_and_walk(&self, args: &CreateOrderArgs, order_id: u128, created_at: i64) -> (r: Result<
        (Matching, usize, Option<Order>),
        EngineError,
    >)
        requires
            self.wf(),
            args.wf(),
        ensures
            match r {
                Ok((run, count, partial)) => {
                    let makers = self@.book.side(args.side.opposite());
                    &&& self@.lock_and_walk(args@, order_id, created_at) == Ok::<
                        (MatchState, int),
                        EngineError,
                    >((run.state(self.balances@), count as int))
                    &&& run.wf(self.balances@)
                    &&& count <= makers.len()
                    &&& match partial {
                        Some(order) => {
                            &&& count > 0
                            &&& order.wf()
                            &&& run.state(self.balances@).rest_of(makers, count as int)
                                == seq![order@] + makers.skip(count as int)
                        },
                        None => run.state(self.balances@).rest_of(makers, count as int)
                            == makers.skip(count as int),
                    }
                },
                Err(e) => self@.lock_and_walk(args@, order_id, created_at) == Err::<
                    (MatchState, int),
                    EngineError,
                >(e),
            },
    {
        let mut balance = match balance_of(&self.balances, args.user_id) {
            Some(balance) => balance,
            None => {
                return Err(EngineError::UnknownUser);
            },
        };
        match balance.lock_funds(args) {
            Ok(_) => {},
            Err(e) => {
                return Err(e);
            },
        }
        let taker = Order {
            id: order_id,
            user_id: args.user_id,
            order_type: args.order_type,
            price: args.limit_price.copy(),
            quantity: args.base_qty.copy(),
            filled_quantity: Decimal::zero(),
            side: args.side,
            status: Status::Open,
            created_at,
            updated_at: created_at,
        };
        assert(taker@ =~= crate::matching::new_order(args@, order_id, created_at));
        let mut writes: Vec<UserBalance> = Vec::new();
        let ghost locked = balance@;
        writes.push(balance);
        let mut run = Matching { writes, taker, spent: Decimal::zero(), events: Execution::new() };
        proof {
            let all = balance_views(run.writes@);
            assert(all.drop_last() =~= Seq::<crate::balance::BalanceView>::empty());
            assert(all.last() == locked);
            assert(written(self@.ledger, all.drop_last()) == self@.ledger);
            assert(locked.user_id == args.user_id);
            assert(run.state(self.balances@).ledger =~= self@.ledger.insert(args.user_id, locked));
            assert(run.state(self.balances@).events =~= MatchState::start(
                run.state(self.balances@).ledger,
                run.taker@,
            ).events);
        }
        let makers = self.orderbook.determine_maker_taker_book(args.side).0;
        match run.walk(&self.balances, makers) {
            Ok((count, partial)) => Ok((run, count, partial)),
            Err(e) => Err(e),
        }
    }

    /// Executes a limit order, created by the durable store under
    /// `order_id` at `created_at`: its funds are locked, it trades with the
    /// opposite queue as far as prices cross, and what remains of it rests
    /// in the book. Where the command is rejected the engine is left as it
    /// was.
    pub fn execute_limit_order(&mut self, args: CreateOrderArgs, order_id: u128, created_at: i64)
        -> (r: Result<Execution, EngineError>)
        requires
            old(self).wf(),
            args.valid_for(OrderType::Limit),
        ensures
            final(self).wf(),
            final(self)@.book.wf(),
            ledger_non_negative(final(self)@.ledger),
            total_base(final(self)@.ledger) == total_base(old(self)@.ledger),
            total_quote(final(self)@.ledger) == total_quote(old(self)@.ledger),
            r matches Ok(execution) ==> all_non_negative(execution@.balances),
            match r {
                Ok(execution) => old(self)@.limit_outcome(args@, order_id, created_at) == Ok::<
                    (EngineView, ExecutionView),
                    EngineError,
                >((final(self)@, execution@)),
                Err(e) => old(self)@.limit_outcome(args@, order_id, created_at) == Err::<
                    (EngineView, ExecutionView),
                    EngineError,
                >(e) && final(self)@ == old(self)@,
            },
    {
        let ghost before = self@;
        let ghost ix = EngineIx::CreateLimitOrder(args);
        proof {
            self.law_state();
        }
        let (run, count, partial) = match self.lock_and_walk(&args, order_id, created_at) {
            Ok(walked) => walked,
            Err(e) => {
                return Err(e);
            },
        };
        let ghost end = run.state(self.balances@);
        proof {
            lemma_walk_shape(
                walk_start(before, args@, order_id, created_at),
                before.book.side(args.side.opposite()),
                0,
            );
        }
        let balance = match current_balance(&self.balances, &run.writes, run.taker.user_id) {
            Some(balance) => balance,
            None => {
                return Err(EngineError::InvariantViolation);
            },
        };
        let Matching { writes, taker, spent, events } = run;
        let mut taker = taker;
        let mut events = events;
        self.orderbook.consume(args.side.other(), count, partial);
        let remaining = taker.quantity.minus(&taker.filled_quantity);
        if remaining.is_positive() {
            match self.orderbook.add_order(taker.copy()) {
                Ok(()) => {},
                Err(e) => {
                    return Err(e);
                },
            }
        } else {
            taker.status = Status::Closed;
        }
        events.emit_balance(balance);
        events.emit_order(taker);
        commit_writes(&mut self.balances, writes);
        proof {
            let makers = before.book.side(args.side.opposite());
            let outcome = end.close_limit(
                before.book.with_side(args.side.opposite(), end.rest_of(makers, count as int)),
            );
            assert(self@.book =~= outcome.0.book);
            assert(self@ =~= outcome.0);
            assert(events@ =~= outcome.1);
            self.law_state();
            law_totals_are_conserved(before, ix, order_id, created_at);
            law_balances_stay_non_negative(before, ix, order_id, created_at);
        }
        Ok(events)
    }

    /// Executes a market order, created by the durable store under
    /// `order_id` at `created_at`: its funds are locked, it trades with the
    /// opposite queue at any price as far as its funds reach, and it is
    /// closed whatever remains of it; what it locked and did not spend
    /// becomes free again. Where the command is rejected the engine is left
    /// as it was.
    pub fn execute_market_order(&mut self, args: CreateOrderArgs, order_id: u128, created_at: i64)
        -> (r: Result<Execution, EngineError>)
        requires
            old(self).wf(),
            args.valid_for(OrderType::Market),
        ensures
            final(self).wf(),
            final(self)@.book.wf(),
            ledger_non_negative(final(self)@.ledger),
            total_base(final(self)@.ledger) == total_base(old(self)@.ledger),
            total_quote(final(self)@.ledger) == total_quote(old(self)@.ledger),
            r matches Ok(execution) ==> all_non_negative(execution@.balances),
            match r {
                Ok(execution) => old(self)@.market_outcome(args@, order_id, created_at) == Ok::<
                    (EngineView, ExecutionView),
                    EngineError,
                >((final(self)@, execution@)),
                Err(e) => old(self)@.market_outcome(args@, order_id, created_at) == Err::<
                    (EngineView, ExecutionView),
                    EngineError,
                >(e) && final(self)@ == old(self)@,
            },
    {
        let ghost before = self@;
        let ghost ix = EngineIx::CreateMarketOrder(args);
        proof {
            self.law_state();
        }
        let (run, count, partial) = match self.lock_and_walk(&args, order_id, created_at) {
            Ok(walked) => walked,
            Err(e) => {
                return Err(e);
            },
        };
        let ghost end = run.state(self.balances@);
        proof {
            lemma_walk_shape(
                walk_start(before, args@, order_id, created_at),
                before.book.side(args.side.opposite()),
                0,
            );
        }
        let mut balance = match current_balance(&self.balances, &run.writes, run.taker.user_id) {
            Some(balance) => balance,
            None => {
                return Err(EngineError::InvariantViolation);
            },
        };
        let Matching { writes, taker, spent, events } = run;
        let mut writes = writes;
        let mut taker = taker;
        let mut events = events;
        let refund = match taker.side {
            Side::Bid => {
                let left = args.quote_qty.minus(&spent);
                if left.is_positive() {
                    left
                } else {
                    Decimal::zero()
                }
            },
            Side::Ask => taker.quantity.minus(&taker.filled_quantity),
        };
        let back = Decimal::zero().minus(&refund);
        let moved = match taker.side {
            Side::Bid => balance.lock_free_quote_qty(&back),
            Side::Ask => balance.lock_free_base_qty(&back),
        };
        match moved {
            Ok(()) => {},
            Err(e) => {
                return Err(e);
            },
        }
        let ghost after = balance@;
        let ghost written_before = balance_views(writes@);
        events.emit_balance(balance.copy());
        writes.push(balance);
        proof {
            let all = balance_views(writes@);
            assert(all =~= written_before.push(after));
            assert(all.drop_last() =~= written_before);
        }
        taker.status = Status::Closed;
        events.emit_order(taker);
        self.orderbook.consume(args.side.other(), count, partial);
        commit_writes(&mut self.balances, writes);
        proof {
            let makers = before.book.side(args.side.opposite());
            let outcome = end.close_market(
                before.book.with_side(args.side.opposite(), end.rest_of(makers, count as int)),
                args@.quote_qty,
            ).unwrap();
            assert(self@.book =~= outcome.0.book);
            assert(self@ =~= outcome.0);
            assert(events@ =~= outcome.1);
            self.law_state();
            law_totals_are_conserved(before, ix, order_id, created_at);
            law_balances_stay_non_negative(before, ix, order_id, created_at);
        }
        Ok(events)
    }

    /// Cancels the order at place `at` of the queue of `side`.
    fn cancel_at(&mut self, side: Side, at: usize) -> (r: Result<Execution, EngineError>)
        requires
            old(self).wf(),
            at < old(self)@.book.side(side).len(),
        ensures
            final(self).wf(),
            match r {
                Ok(execution) => old(self)@.cancel_at(side, at as int) == Ok::<
                    (EngineView, ExecutionView),
                    EngineError,
                >((final(self)@, execution@)),
                Err(e) => old(self)@.cancel_at(side, at as int) == Err::<
                    (EngineView, ExecutionView),
                    EngineError,
                >(e) && final(self)@ == old(self)@,
            },
    {
        let ghost before = self@;
        let order = match side {
            Side::Bid => {
                assert(views(self.orderbook.bids@)[at as int] == self.orderbook.bids@[at as int]@);
                self.orderbook.bids[at].copy()
            },
            Side::Ask => {
                assert(views(self.orderbook.asks@)[at as int] == self.orderbook.asks@[at as int]@);
                self.orderbook.asks[at].copy()
            },
        };
        let mut balance = match balance_of(&self.balances, order.user_id) {
            Some(balance) => balance,
            None => {
                return Err(EngineError::InvariantViolation);
            },
        };
        let remaining = order.quantity.minus(&order.filled_quantity);
        match balance.release_funds(order.side, &order.price, &remaining) {
            Ok(()) => {},
            Err(e) => {
                return Err(e);
            },
        }
        let mut cancelled = self.orderbook.take(side, at);
        cancelled.status = Status::Cancelled;
        let mut events = Execution::new();
        events.emit_balance(balance.copy());
        events.emit_order(cancelled);
        let ghost ledger0 = self.balances@;
        let ghost after = balance@;
        self.balances.insert(order.user_id, balance);
        proof {
            assert(ledger_view(self.balances@) =~= ledger_view(ledger0).insert(
                order.user_id,
                after,
            ));
            let outcome = before.cancel_at(side, at as int).unwrap();
            assert(self@ =~= outcome.0);
            assert(events@ =~= outcome.1);
        }
        Ok(events)
    }

    /// Cancels the resting order of the given identity: it leaves the book
    /// as cancelled, and what is locked for its unfilled quantity becomes
    /// free. Where the command is rejected the engine is left as it was.
    pub fn cancel_order(&mut self, order_id: u128) -> (r: Result<Execution, EngineError>)
        requires
            old(self).wf(),
        ensures
            final(self).wf(),
            final(self)@.book.wf(),
            ledger_non_negative(final(self)@.ledger),
            total_base(final(self)@.ledger) == total_base(old(self)@.ledger),
            total_quote(final(self)@.ledger) == total_quote(old(self)@.ledger),
            r matches Ok(execution) ==> all_non_negative(execution@.balances),
            match r {
                Ok(execution) => old(self)@.cancel_outcome(order_id) == Ok::<
                    (EngineView, ExecutionView),
                    EngineError,
                >((final(self)@, execution@)),
                Err(e) => old(self)@.cancel_outcome(order_id) == Err::<
                    (EngineView, ExecutionView),
                    EngineError,
                >(e) && final(self)@ == old(self)@,
            },
    {
        let ghost before = self@;
        let ghost ix = EngineIx::CancelOrder { order_id };
        proof {
            self.law_state();
        }
        let bid = Orderbook::find_order_by_id(&self.orderbook.bids, order_id);
        let ask = Orderbook::find_order_by_id(&self.orderbook.asks, order_id);
        let r = if bid < self.orderbook.bids.len() {
            self.cancel_at(Side::Bid, bid)
        } else if ask < self.orderbook.asks.len() {
            self.cancel_at(Side::Ask, ask)
        } else {
            Err(EngineError::OrderNotFound)
        };
        proof {
            self.law_state();
            if r is Ok {
                law_totals_are_conserved(before, ix, order_id, 0);
                law_balances_stay_non_negative(before, ix, order_id, 0);
            }
        }
        r
    }

    /// Applies one command. `order_id` and `created_at` are what the durable
    /// store gave the order that a create command asks for; a cancel
    /// command does not read them.
    pub fn apply(&mut self, ix: EngineIx, order_id: u128, created_at: i64) -> (r: Result<
        Execution,
        EngineError,
    >)
        requires
            old(self).wf(),
            command_is_valid(ix),
        ensures
            final(self).wf(),
            final(self)@.book.wf(),
            ledger_non_negative(final(self)@.ledger),
            total_base(final(self)@.ledger) == total_base(old(self)@.ledger),
            total_quote(final(self)@.ledger) == total_quote(old(self)@.ledger),
            r matches Ok(execution) ==> all_non_negative(execution@.balances),
            match r {
                Ok(execution) => command_outcome(old(self)@, ix, order_id, created_at) == Ok::<
                    (EngineView, ExecutionView),
                    EngineError,
                >((final(self)@, execution@)),
                Err(e) => command_outcome(old(self)@, ix, order_id, created_at) == Err::<
                    (EngineView, ExecutionView),
                    EngineError,
                >(e) && final(self)@ == old(self)@,
            },
    {
        match ix {
            EngineIx::CreateLimitOrder(args) => self.execute_limit_order(args, order_id, created_at),
            EngineIx::CreateMarketOrder(args) => self.execute_market_order(
                args,
                order_id,
                created_at,
            ),
            EngineIx::CancelOrder { order_id: target } => self.cancel_order(target),
        }
    }
}

/// The arguments of a create command are those of an order of its type.
pub open spec fn command_is_valid(ix: EngineIx) -> bool {
    match ix {
        EngineIx::CreateLimitOrder(args) => args.valid_for(OrderType::Limit),
        EngineIx::CreateMarketOrder(args) => args.valid_for(OrderType::Market),
        EngineIx::CancelOrder { order_id } => true,
    }
}

/// What a command does to the engine.
pub open spec fn command_outcome(state: EngineView, ix: EngineIx, order_id: u128, created_at: i64)
    -> Result<(EngineView, ExecutionView), EngineError> {
    match ix {
        EngineIx::CreateLimitOrder(args) => state.limit_outcome(args@, order_id, created_at),
        EngineIx::CreateMarketOrder(args) => state.market_outcome(args@, order_id, created_at),
        EngineIx::CancelOrder { order_id: target } => state.cancel_outcome(target),
    }
}

} // verus!
