//! Orders, the arguments that create them, and the errors of the engine.
use crate::decimal::Decimal;
use vstd::prelude::*;

verus! {

/// The side of the book an order belongs to.
#[derive(Debug, Clone, Copy, PartialEq, Eq, Structural)]
pub enum Side {
    Bid,
    Ask,
}

/// The life of an order: it is open until it is filled or cancelled.
#[derive(Debug, Clone, Copy, PartialEq, Eq, Structural)]
pub enum Status {
    Open,
    Closed,
    Cancelled,
}

#[derive(Debug, Clone, Copy, PartialEq, Eq, Structural)]
pub enum OrderType {
    Limit,
    Market,
}

/// Why the engine rejected a command or refused a snapshot.
#[derive(Debug, Clone, Copy, PartialEq, Eq, Structural)]
pub enum EngineError {
    /// The command names a user who has no balance.
    UnknownUser,
    /// A balance would have become negative.
    InsufficientFunds,
    /// The order is not resting in the book.
    OrderNotFound,
    /// The data breaks an invariant of the balances or of the book.
    InvariantViolation,
}

impl Side {
    /// The side that an order of this side trades against.
    pub open spec fn opposite(self) -> Side {
        match self {
            Side::Bid => Side::Ask,
            Side::Ask => Side::Bid,
        }
    }

    pub fn other(self) -> (r: Side)
        ensures
            r == self.opposite(),
    {
        match self {
            Side::Bid => Side::Ask,
            Side::Ask => Side::Bid,
        }
    }
}

/// An order as the engine holds it.
#[derive(Debug, Clone)]
pub struct Order {
    pub id: u128,
    pub user_id: u128,
    pub order_type: OrderType,
    pub price: Decimal,
    pub quantity: Decimal,
    pub filled_quantity: Decimal,
    pub side: Side,
    pub status: Status,
    pub created_at: i64,
    pub updated_at: i64,
}

/// What an order stands for: its decimals as numbers.
///
/// `lot_scale` is the number of decimal places to which a market order's
/// quantity is cut when it is sized against this order: the scale of the
/// price plus the scale of the quantity, as they were given.
#[verifier::ext_equal]
pub ghost struct OrderView {
    pub id: u128,
    pub user_id: u128,
    pub order_type: OrderType,
    pub price: real,
    pub quantity: real,
    pub filled_quantity: real,
    pub side: Side,
    pub status: Status,
    pub created_at: i64,
    pub updated_at: i64,
    pub lot_scale: nat,
}

impl OrderView {
    /// The quantity still to be filled.
    pub open spec fn remaining(self) -> real {
        self.quantity - self.filled_quantity
    }

    /// The order may rest in the book: it is open, not yet filled, and its
    /// price is above zero.
    pub open spec fn resting(self) -> bool {
        &&& self.status == Status::Open
        &&& 0real <= self.filled_quantity < self.quantity
        &&& self.price > 0real
    }

    /// The order after `quantity` more of it has traded: it is closed when
    /// nothing remains.
    pub open spec fn fill(self, quantity: real) -> OrderView {
        let filled = self.filled_quantity + quantity;
        OrderView {
            filled_quantity: filled,
            status: if filled == self.quantity {
                Status::Closed
            } else {
                self.status
            },
            ..self
        }
    }

    pub open spec fn with_status(self, status: Status) -> OrderView {
        OrderView { status, ..self }
    }
}

impl View for Order {
    type V = OrderView;

    open spec fn view(&self) -> OrderView {
        OrderView {
            id: self.id,
            user_id: self.user_id,
            order_type: self.order_type,
            price: self.price@,
            quantity: self.quantity@,
            filled_quantity: self.filled_quantity@,
            side: self.side,
            status: self.status,
            created_at: self.created_at,
            updated_at: self.updated_at,
            lot_scale: (self.price.scale + self.quantity.scale) as nat,
        }
    }
}

impl Order {
    /// The scales of the decimals are within the library's limits.
    pub open spec fn wf(&self) -> bool {
        &&& self.price.fits(1)
        &&& self.quantity.fits(1)
        &&& self.filled_quantity.fits(2)
    }

    /// Whether the scales of the decimals are within the library's limits.
    pub fn is_wf(&self) -> (r: bool)
        ensures
            r == self.wf(),
    {
        self.price.is_within(1) && self.quantity.is_within(1) && self.filled_quantity.is_within(2)
    }

    /// An independent value that stands for the same order.
    pub fn copy(&self) -> (r: Order)
        ensures
            r@ == self@,
            r.wf() == self.wf(),
            r.price.same(&self.price),
            r.quantity.same(&self.quantity),
            r.filled_quantity.same(&self.filled_quantity),
    {
        Order {
            id: self.id,
            user_id: self.user_id,
            order_type: self.order_type,
            price: self.price.copy(),
            quantity: self.quantity.copy(),
            filled_quantity: self.filled_quantity.copy(),
            side: self.side,
            status: self.status,
            created_at: self.created_at,
            updated_at: self.updated_at,
        }
    }

    /// Whether the order may rest in the book.
    pub fn is_resting(&self) -> (r: bool)
        requires
            self.wf(),
        ensures
            r == self@.resting(),
    {
        match self.status {
            Status::Open => !self.filled_quantity.is_negative() && self.filled_quantity.less_than(
                &self.quantity,
            ) && self.price.is_positive(),
            _ => false,
        }
    }
}

/// What a client sends to have an order created.
#[derive(Debug, Clone)]
pub struct CreateOrderArgs {
    pub order_type: OrderType,
    pub side: Side,
    pub user_id: u128,
    pub limit_price: Decimal,
    pub base_qty: Decimal,
    pub quote_qty: Decimal,
}

pub ghost struct CreateOrderArgsView {
    pub order_type: OrderType,
    pub side: Side,
    pub user_id: u128,
    pub limit_price: real,
    pub base_qty: real,
    pub quote_qty: real,
    pub lot_scale: nat,
}

impl View for CreateOrderArgs {
    type V = CreateOrderArgsView;

    open spec fn view(&self) -> CreateOrderArgsView {
        CreateOrderArgsView {
            order_type: self.order_type,
            side: self.side,
            user_id: self.user_id,
            limit_price: self.limit_price@,
            base_qty: self.base_qty@,
            quote_qty: self.quote_qty@,
            lot_scale: (self.limit_price.scale + self.base_qty.scale) as nat,
        }
    }
}

impl CreateOrderArgs {
    /// The scales of the decimals are within the limit for inputs.
    pub open spec fn wf(&self) -> bool {
        &&& self.limit_price.fits(1)
        &&& self.base_qty.fits(1)
        &&& self.quote_qty.fits(1)
    }

    /// The arguments are those of an order of the given type: the scales
    /// are within the limit for inputs, the base quantity is above zero,
    /// and so is the limit price of a limit order.
    pub open spec fn valid_for(&self, order_type: OrderType) -> bool {
        &&& self.wf()
        &&& self.order_type == order_type
        &&& self.base_qty@ > 0real
        &&& order_type == OrderType::Limit ==> self.limit_price@ > 0real
    }

    /// Whether the scales of the decimals are within the limit for inputs.
    pub fn is_wf(&self) -> (r: bool)
        ensures
            r == self.wf(),
    {
        self.limit_price.is_input() && self.base_qty.is_input() && self.quote_qty.is_input()
    }

    /// Whether the arguments are those of an order of the given type.
    pub fn is_valid_for(&self, order_type: OrderType) -> (r: bool)
        ensures
            r == self.valid_for(order_type),
    {
        if !self.is_wf() || self.order_type != order_type || !self.base_qty.is_positive() {
            return false;
        }
        match order_type {
            OrderType::Limit => self.limit_price.is_positive(),
            OrderType::Market => true,
        }
    }
}

/// An order as the durable store gives it, its times in milliseconds.
#[derive(Debug, Clone)]
pub struct DbOrder {
    pub id: u128,
    pub user_id: u128,
    pub order_type: OrderType,
    pub price: Decimal,
    pub quantity: Decimal,
    pub filled_quantity: Decimal,
    pub side: Side,
    pub status: Status,
    pub created_at: i64,
    pub updated_at: i64,
}

/// A trade as the durable store records it.
#[derive(Debug, Clone)]
pub struct Trade {
    pub id: u128,
    pub buy_order_id: u128,
    pub sell_order_id: u128,
    pub price: Decimal,
    pub quantity: Decimal,
    pub created_at: i64,
}

} // verus!
