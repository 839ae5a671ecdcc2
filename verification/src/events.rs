//! The commands that the engine takes and the events that it emits.
use crate::balance::BalanceView;
use crate::balance::UserBalance;
use crate::decimal::Decimal;
use crate::matching::ExecutionView;
use crate::matching::TradeView;
use crate::order::CreateOrderArgs;
use crate::order::Order;
use crate::order::OrderView;
use vstd::prelude::*;

verus! {

/// A command to the engine.
#[derive(Debug, Clone)]
pub enum EngineIx {
    CreateLimitOrder(CreateOrderArgs),
    CreateMarketOrder(CreateOrderArgs),
    CancelOrder { order_id: u128 },
}

/// A trade to be recorded.
#[derive(Debug, Clone)]
pub struct InsertTradeArgs {
    pub buy_order_id: u128,
    pub sell_order_id: u128,
    pub price: Decimal,
    pub quantity: Decimal,
}

impl View for InsertTradeArgs {
    type V = TradeView;

    open spec fn view(&self) -> TradeView {
        TradeView {
            buy_order_id: self.buy_order_id,
            sell_order_id: self.sell_order_id,
            price: self.price@,
            quantity: self.quantity@,
        }
    }
}

/// For the writer of balances.
#[derive(Debug, Clone)]
pub enum BalanceEvent {
    UpdateBalance(UserBalance),
}

impl View for BalanceEvent {
    type V = BalanceView;

    open spec fn view(&self) -> BalanceView {
        match self {
            BalanceEvent::UpdateBalance(balance) => balance@,
        }
    }
}

/// For the writer of orders.
#[derive(Debug, Clone)]
pub enum OrderEvent {
    UpdateOrder(Order),
}

impl View for OrderEvent {
    type V = OrderView;

    open spec fn view(&self) -> OrderView {
        match self {
            OrderEvent::UpdateOrder(order) => order@,
        }
    }
}

/// For the writer of trades.
#[derive(Debug, Clone)]
pub enum TradeEvent {
    InsertTrade(InsertTradeArgs),
}

impl View for TradeEvent {
    type V = TradeView;

    open spec fn view(&self) -> TradeView {
        match self {
            TradeEvent::InsertTrade(trade) => trade@,
        }
    }
}

/// The events of one command, one queue for each writer, each in the order
/// of emission.
#[derive(Debug, Clone)]
pub struct Execution {
    pub balance_events: Vec<BalanceEvent>,
    pub trade_events: Vec<TradeEvent>,
    pub order_events: Vec<OrderEvent>,
}

impl View for Execution {
    type V = ExecutionView;

    open spec fn view(&self) -> ExecutionView {
        ExecutionView {
            balances: self.balance_events@.map_values(|e: BalanceEvent| e@),
            trades: self.trade_events@.map_values(|e: TradeEvent| e@),
            orders: self.order_events@.map_values(|e: OrderEvent| e@),
        }
    }
}

impl Execution {
    /// No event yet.
    pub fn new() -> (r: Execution)
        ensures
            r@.balances.len() == 0,
            r@.trades.len() == 0,
            r@.orders.len() == 0,
    {
        Execution {
            balance_events: Vec::new(),
            trade_events: Vec::new(),
            order_events: Vec::new(),
        }
    }

    /// Adds a balance to the events for the writer of balances.
    pub fn emit_balance(&mut self, balance: UserBalance)
        ensures
            final(self)@.balances == old(self)@.balances.push(balance@),
            final(self)@.trades == old(self)@.trades,
            final(self)@.orders == old(self)@.orders,
    {
        self.balance_events.push(BalanceEvent::UpdateBalance(balance));
        assert(self@.balances =~= old(self)@.balances.push(balance@));
    }

    /// Adds a trade to the events for the writer of trades.
    pub fn emit_trade(&mut self, trade: InsertTradeArgs)
        ensures
            final(self)@.balances == old(self)@.balances,
            final(self)@.trades == old(self)@.trades.push(trade@),
            final(self)@.orders == old(self)@.orders,
    {
        self.trade_events.push(TradeEvent::InsertTrade(trade));
        assert(self@.trades =~= old(self)@.trades.push(trade@));
    }

    /// Adds an order to the events for the writer of orders.
    pub fn emit_order(&mut self, order: Order)
        ensures
            final(self)@.balances == old(self)@.balances,
            final(self)@.trades == old(self)@.trades,
            final(self)@.orders == old(self)@.orders.push(order@),
    {
        self.order_events.push(OrderEvent::UpdateOrder(order));
        assert(self@.orders =~= old(self)@.orders.push(order@));
    }
}

} // verus!
