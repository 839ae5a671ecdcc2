//! The order book: the resting bids and the resting asks.
//!
//! Each side is one queue in match priority: best price first (the highest
//! bid, the lowest ask), and among orders of one price the earliest first,
//! ties in time by arrival. A price level is the run of the orders of one
//! price in that queue, so a level is never empty; `levels` gives a queue
//! as a map from price to level.
use crate::decimal::Decimal;
use crate::order::DbOrder;
use crate::order::EngineError;
use crate::order::Order;
use crate::order::OrderView;
use crate::order::Side;
use crate::order::Status;
use vstd::prelude::*;

verus! {

/// The views of the orders of a queue.
pub open spec fn views(orders: Seq<Order>) -> Seq<OrderView> {
    orders.map_values(|o: Order| o@)
}

/// On the given side, `a` is matched no later than `b`: its price is better,
/// or the prices are equal and it is no younger.
pub open spec fn precedes(side: Side, a: OrderView, b: OrderView) -> bool {
    match side {
        Side::Bid => a.price > b.price || (a.price == b.price && a.created_at <= b.created_at),
        Side::Ask => a.price < b.price || (a.price == b.price && a.created_at <= b.created_at),
    }
}

/// The queue is in match priority.
pub open spec fn ordered(side: Side, queue: Seq<OrderView>) -> bool {
    forall|i: int, j: int| 0 <= i < j < queue.len() ==> precedes(side, queue[i], queue[j])
}

/// The queue is a side of a book: every order is of that side and resting,
/// and the queue is in match priority.
pub open spec fn side_wf(side: Side, queue: Seq<OrderView>) -> bool {
    &&& forall|i: int| 0 <= i < queue.len() ==> (#[trigger] queue[i]).side == side
    &&& forall|i: int| 0 <= i < queue.len() ==> (#[trigger] queue[i]).resting()
    &&& ordered(side, queue)
}

/// Where a new order enters the queue: behind the last order that is
/// matched no later than it.
pub open spec fn insert_position(side: Side, queue: Seq<OrderView>, order: OrderView) -> int
    decreases queue.len(),
{
    if queue.len() == 0 {
        0
    } else if precedes(side, queue.last(), order) {
        queue.len() as int
    } else {
        insert_position(side, queue.drop_last(), order)
    }
}

/// The first place at or after `from` of an order with the given identity
/// and price, or the length of the queue where there is none.
pub open spec fn position_of(queue: Seq<OrderView>, id: u128, price: real, from: int) -> int
    decreases queue.len() - from,
{
    if from < 0 || from >= queue.len() {
        queue.len() as int
    } else if queue[from].id == id && queue[from].price == price {
        from
    } else {
        position_of(queue, id, price, from + 1)
    }
}

/// The first place at or after `from` of an order with the given identity,
/// or the length of the queue where there is none.
pub open spec fn position_of_id(queue: Seq<OrderView>, id: u128, from: int) -> int
    decreases queue.len() - from,
{
    if from < 0 || from >= queue.len() {
        queue.len() as int
    } else if queue[from].id == id {
        from
    } else {
        position_of_id(queue, id, from + 1)
    }
}

/// The test for an order of the given price.
pub open spec fn priced(price: real) -> spec_fn(OrderView) -> bool {
    |order: OrderView| order.price == price
}

/// The price levels of a queue: under each price at which an order rests,
/// the orders of that price in their order in the queue.
pub open spec fn levels(queue: Seq<OrderView>) -> Map<real, Seq<OrderView>> {
    Map::new(
        |price: real| exists|i: int| 0 <= i < queue.len() && (#[trigger] queue[i]).price == price,
        |price: real| queue.filter(priced(price)),
    )
}

/// A book with its orders as views.
#[verifier::ext_equal]
pub ghost struct BookView {
    pub bids: Seq<OrderView>,
    pub asks: Seq<OrderView>,
}

impl BookView {
    pub open spec fn empty() -> BookView {
        BookView { bids: Seq::empty(), asks: Seq::empty() }
    }

    /// The queue of the given side.
    pub open spec fn side(self, side: Side) -> Seq<OrderView> {
        match side {
            Side::Bid => self.bids,
            Side::Ask => self.asks,
        }
    }

    /// The book with the queue of the given side replaced.
    pub open spec fn with_side(self, side: Side, queue: Seq<OrderView>) -> BookView {
        match side {
            Side::Bid => BookView { bids: queue, ..self },
            Side::Ask => BookView { asks: queue, ..self },
        }
    }

    /// Both sides are sides of a book.
    pub open spec fn wf(self) -> bool {
        &&& side_wf(Side::Bid, self.bids)
        &&& side_wf(Side::Ask, self.asks)
    }

    /// The book after `order` entered the queue of its side.
    pub open spec fn insert(self, order: OrderView) -> BookView {
        let queue = self.side(order.side);
        self.with_side(
            order.side,
            queue.insert(insert_position(order.side, queue, order), order),
        )
    }

    /// The book after the orders of a snapshot from place `from` on entered
    /// it one by one, those that are not open left out; `None` where an open
    /// order of the snapshot cannot rest.
    pub open spec fn load(self, orders: Seq<OrderView>, from: int) -> Option<BookView>
        decreases orders.len() - from,
    {
        if from < 0 || from >= orders.len() {
            Some(self)
        } else if orders[from].status != Status::Open {
            self.load(orders, from + 1)
        } else if !orders[from].resting() {
            None
        } else {
            self.insert(orders[from]).load(orders, from + 1)
        }
    }
}

/// In a queue in match priority, the orders before the insert position are
/// matched no later than the new order, and it is matched strictly before
/// those from that position on.
pub proof fn lemma_insert_position(side: Side, queue: Seq<OrderView>, order: OrderView)
    requires
        ordered(side, queue),
    ensures
        0 <= insert_position(side, queue, order) <= queue.len(),
        forall|i: int|
            0 <= i < insert_position(side, queue, order) ==> precedes(side, #[trigger] queue[i], order),
        forall|i: int|
            insert_position(side, queue, order) <= i < queue.len() ==> !precedes(
                side,
                #[trigger] queue[i],
                order,
            ),
    decreases queue.len(),
{
    if queue.len() == 0 {
    } else if precedes(side, queue.last(), order) {
        assert forall|i: int| 0 <= i < queue.len() implies precedes(
            side,
            #[trigger] queue[i],
            order,
        ) by {
            if i < queue.len() - 1 {
                assert(precedes(side, queue[i], queue[queue.len() - 1]));
            }
        }
    } else {
        let front = queue.drop_last();
        assert forall|i: int, j: int| 0 <= i < j < front.len() implies precedes(
            side,
            front[i],
            front[j],
        ) by {
            assert(front[i] == queue[i] && front[j] == queue[j]);
        }
        lemma_insert_position(side, front, order);
        assert forall|i: int| 0 <= i < insert_position(side, queue, order) implies precedes(
            side,
            #[trigger] queue[i],
            order,
        ) by {
            assert(queue[i] == front[i]);
        }
        assert forall|i: int|
            insert_position(side, queue, order) <= i < queue.len() implies !precedes(
            side,
            #[trigger] queue[i],
            order,
        ) by {
            if i < front.len() {
                assert(queue[i] == front[i]);
            }
        }
    }
}

/// A side of a book stays one when a resting order of that side enters it
/// at its insert position.
pub proof fn lemma_insert_keeps_side(side: Side, queue: Seq<OrderView>, order: OrderView)
    requires
        side_wf(side, queue),
        order.side == side,
        order.resting(),
    ensures
        side_wf(side, queue.insert(insert_position(side, queue, order), order)),
{
    lemma_insert_position(side, queue, order);
    let p = insert_position(side, queue, order);
    let after = queue.insert(p, order);
    assert forall|i: int, j: int| 0 <= i < j < after.len() implies precedes(
        side,
        after[i],
        after[j],
    ) by {
        if j < p {
            assert(after[i] == queue[i] && after[j] == queue[j]);
        } else if j == p {
            assert(after[i] == queue[i]);
        } else if i < p {
            assert(after[i] == queue[i] && after[j] == queue[j - 1]);
        } else if i == p {
            assert(after[j] == queue[j - 1]);
            assert(!precedes(side, queue[j - 1], order));
        } else {
            assert(after[i] == queue[i - 1] && after[j] == queue[j - 1]);
        }
    }
    assert forall|i: int| 0 <= i < after.len() implies (#[trigger] after[i]).side == side && after[i].resting() by {
        if i < p {
            assert(after[i] == queue[i]);
        } else if i > p {
            assert(after[i] == queue[i - 1]);
        }
    }
}

/// A side of a book stays one when an order leaves it.
pub proof fn lemma_remove_keeps_side(side: Side, queue: Seq<OrderView>, at: int)
    requires
        side_wf(side, queue),
        0 <= at < queue.len(),
    ensures
        side_wf(side, queue.remove(at)),
{
    let after = queue.remove(at);
    assert forall|i: int, j: int| 0 <= i < j < after.len() implies precedes(
        side,
        after[i],
        after[j],
    ) by {
        let i0 = if i < at { i } else { i + 1 };
        let j0 = if j < at { j } else { j + 1 };
        assert(after[i] == queue[i0] && after[j] == queue[j0]);
    }
    assert forall|i: int| 0 <= i < after.len() implies (#[trigger] after[i]).side == side && after[i].resting() by {
        let i0 = if i < at { i } else { i + 1 };
        assert(after[i] == queue[i0]);
    }
}

/// A well-formed book stays well formed when a resting order enters it.
pub proof fn lemma_insert_keeps_book(book: BookView, order: OrderView)
    requires
        book.wf(),
        order.resting(),
    ensures
        book.insert(order).wf(),
{
    lemma_insert_keeps_side(order.side, book.side(order.side), order);
}

/// The place of an order with a given identity, where there is one, is
/// within the queue and holds such an order, and no earlier place from
/// `from` on does.
pub proof fn lemma_position_of_id(queue: Seq<OrderView>, id: u128, from: int)
    requires
        0 <= from <= queue.len(),
    ensures
        from <= position_of_id(queue, id, from) <= queue.len(),
        position_of_id(queue, id, from) < queue.len() ==> queue[position_of_id(
            queue,
            id,
            from,
        )].id == id,
        forall|i: int|
            from <= i < position_of_id(queue, id, from) ==> (#[trigger] queue[i]).id != id,
    decreases queue.len() - from,
{
    if from < queue.len() && queue[from].id != id {
        lemma_position_of_id(queue, id, from + 1);
    }
}

/// The resting orders of both sides.
#[derive(Debug, Clone)]
pub struct Orderbook {
    pub bids: Vec<Order>,
    pub asks: Vec<Order>,
}

impl View for Orderbook {
    type V = BookView;

    open spec fn view(&self) -> BookView {
        BookView { bids: views(self.bids@), asks: views(self.asks@) }
    }
}

/// Whether, on the given side, `a` is matched no later than `b`.
pub fn has_priority(side: Side, a: &Order, b: &Order) -> (r: bool)
    requires
        a.wf(),
        b.wf(),
    ensures
        r == precedes(side, a@, b@),
{
    let better = match side {
        Side::Bid => b.price.less_than(&a.price),
        Side::Ask => a.price.less_than(&b.price),
    };
    better || (a.price.equals(&b.price) && a.created_at <= b.created_at)
}

impl Orderbook {
    /// Every order has its scales within the library's limits, and both
    /// sides hold resting orders of their side in match priority.
    pub open spec fn wf(&self) -> bool {
        &&& forall|i: int| 0 <= i < self.bids@.len() ==> (#[trigger] self.bids@[i]).wf()
        &&& forall|i: int| 0 <= i < self.asks@.len() ==> (#[trigger] self.asks@[i]).wf()
        &&& self@.wf()
    }

    /// The empty book.
    pub fn default() -> (r: Orderbook)
        ensures
            r.wf(),
            r@ == BookView::empty(),
    {
        let r = Orderbook { bids: Vec::new(), asks: Vec::new() };
        assert(r@.bids =~= Seq::empty());
        assert(r@.asks =~= Seq::empty());
        r
    }

    /// Builds the book from a snapshot of orders: those that are open enter
    /// it one by one, the others are left out. An open order that cannot rest
    /// (it is already filled, or has no price above zero) is an invariant
    /// violation.
    pub fn init_orderbook(orders: Vec<Order>) -> (r: Result<Orderbook, EngineError>)
        requires
            forall|i: int| 0 <= i < orders@.len() ==> (#[trigger] orders@[i]).wf(),
        ensures
            match r {
                Ok(book) => book.wf() && BookView::empty().load(views(orders@), 0) == Some(book@),
                Err(e) => e == EngineError::InvariantViolation && BookView::empty().load(
                    views(orders@),
                    0,
                ) is None,
            },
    {
        let mut book = Orderbook::default();
        let mut i: usize = 0;
        while i < orders.len()
            invariant
                0 <= i <= orders@.len(),
                book.wf(),
                forall|k: int| 0 <= k < orders@.len() ==> (#[trigger] orders@[k]).wf(),
                BookView::empty().load(views(orders@), 0) == book@.load(views(orders@), i as int),
            decreases orders@.len() - i,
        {
            assert(views(orders@)[i as int] == orders@[i as int]@);
            match orders[i].status {
                Status::Open => {
                    let order = orders[i].copy();
                    match book.add_order(order) {
                        Ok(()) => {},
                        Err(e) => {
                            return Err(EngineError::InvariantViolation);
                        },
                    }
                },
                _ => {},
            }
            i += 1;
        }
        Ok(book)
    }

    /// Lets a resting order enter the queue of its side, behind the orders
    /// that are matched no later than it: at the tail of the level of its
    /// price, where no order of that level is younger. An order that cannot
    /// rest (it is not open, is already filled, or has no price above
    /// zero) is refused as an invariant violation.
    pub fn add_order(&mut self, order: Order) -> (r: Result<(), EngineError>)
        requires
            old(self).wf(),
            order.wf(),
        ensures
            final(self).wf(),
            match r {
                Ok(()) => order@.resting() && final(self)@ == old(self)@.insert(order@),
                Err(e) => e == EngineError::InvariantViolation && !order@.resting() && final(self)@ == old(self)@,
            },
    {
        if !order.is_resting() {
            return Err(EngineError::InvariantViolation);
        }
        let ghost before = self@;
        proof {
            lemma_insert_keeps_book(before, order@);
            lemma_insert_position(order.side, before.side(order.side), order@);
        }
        match order.side {
            Side::Bid => {
                let at = Orderbook::find_insert_position(Side::Bid, &self.bids, &order);
                self.bids.insert(at, order);
                assert(views(self.bids@) =~= before.bids.insert(at as int, order@));
            },
            Side::Ask => {
                let at = Orderbook::find_insert_position(Side::Ask, &self.asks, &order);
                self.asks.insert(at, order);
                assert(views(self.asks@) =~= before.asks.insert(at as int, order@));
            },
        }
        Ok(())
    }

    /// The place at which `order` enters `queue`.
    pub fn find_insert_position(side: Side, queue: &Vec<Order>, order: &Order) -> (at: usize)
        requires
            forall|i: int| 0 <= i < queue@.len() ==> (#[trigger] queue@[i]).wf(),
            order.wf(),
        ensures
            at == insert_position(side, views(queue@), order@),
            at <= queue@.len(),
    {
        let ghost all = views(queue@);
        let mut at: usize = queue.len();
        assert(all.take(at as int) =~= all);
        while at > 0 && !has_priority(side, &queue[at - 1], order)
            invariant
                0 <= at <= queue@.len(),
                all == views(queue@),
                forall|i: int| 0 <= i < queue@.len() ==> (#[trigger] queue@[i]).wf(),
                order.wf(),
                insert_position(side, all, order@) == insert_position(
                    side,
                    all.take(at as int),
                    order@,
                ),
            decreases at,
        {
            proof {
                let front = all.take(at as int);
                assert(front.last() == queue@[at - 1]@);
                assert(front.drop_last() =~= all.take(at - 1));
            }
            at -= 1;
        }
        proof {
            let front = all.take(at as int);
            if at > 0 {
                assert(front.last() == queue@[at - 1]@);
            }
        }
        at
    }

    /// Builds the order that a row of the durable store stands for.
    pub fn convert_db_order(db_order: &DbOrder) -> (r: Result<Order, EngineError>)
        ensures
            r is Ok,
            r.unwrap().id == db_order.id,
            r.unwrap().user_id == db_order.user_id,
            r.unwrap().order_type == db_order.order_type,
            r.unwrap().price.same(&db_order.price),
            r.unwrap().quantity.same(&db_order.quantity),
            r.unwrap().filled_quantity.same(&db_order.filled_quantity),
            r.unwrap().side == db_order.side,
            r.unwrap().status == db_order.status,
            r.unwrap().created_at == db_order.created_at,
            r.unwrap().updated_at == db_order.updated_at,
    {
        Ok(
            Order {
                id: db_order.id,
                user_id: db_order.user_id,
                order_type: db_order.order_type,
                price: db_order.price.copy(),
                quantity: db_order.quantity.copy(),
                filled_quantity: db_order.filled_quantity.copy(),
                side: db_order.side,
                status: db_order.status,
                created_at: db_order.created_at,
                updated_at: db_order.updated_at,
            },
        )
    }

    /// Takes the first order with the given identity and price out of the
    /// queue of the given side.
    pub fn remove_order(&mut self, order_id: u128, side: Side, price: &Decimal) -> (r: Result<
        (),
        EngineError,
    >)
        requires
            old(self).wf(),
            price.representable(),
        ensures
            final(self).wf(),
            match r {
                Ok(()) => {
                    let queue = old(self)@.side(side);
                    let at = position_of(queue, order_id, price@, 0);
                    at < queue.len() && final(self)@ == old(self)@.with_side(side, queue.remove(at))
                },
                Err(e) => {
                    let queue = old(self)@.side(side);
                    e == EngineError::OrderNotFound && position_of(queue, order_id, price@, 0)
                        == queue.len() && final(self)@ == old(self)@
                },
            },
    {
        let ghost before = self@;
        match side {
            Side::Bid => {
                let at = Orderbook::find_order(&self.bids, order_id, price);
                if at == self.bids.len() {
                    return Err(EngineError::OrderNotFound);
                }
                self.bids.remove(at);
                proof {
                    assert(views(self.bids@) =~= before.bids.remove(at as int));
                    lemma_remove_keeps_side(Side::Bid, before.bids, at as int);
                }
            },
            Side::Ask => {
                let at = Orderbook::find_order(&self.asks, order_id, price);
                if at == self.asks.len() {
                    return Err(EngineError::OrderNotFound);
                }
                self.asks.remove(at);
                proof {
                    assert(views(self.asks@) =~= before.asks.remove(at as int));
                    lemma_remove_keeps_side(Side::Ask, before.asks, at as int);
                }
            },
        }
        Ok(())
    }

    /// The first place in `queue` of an order with the given identity and
    /// price, or the length of the queue where there is none.
    pub fn find_order(queue: &Vec<Order>, order_id: u128, price: &Decimal) -> (at: usize)
        requires
            forall|i: int| 0 <= i < queue@.len() ==> (#[trigger] queue@[i]).wf(),
            price.representable(),
        ensures
            at == position_of(views(queue@), order_id, price@, 0),
            at <= queue@.len(),
    {
        let ghost all = views(queue@);
        let mut at: usize = 0;
        while at < queue.len()
            invariant
                0 <= at <= queue@.len(),
                all == views(queue@),
                forall|i: int| 0 <= i < queue@.len() ==> (#[trigger] queue@[i]).wf(),
                price.representable(),
                position_of(all, order_id, price@, 0) == position_of(
                    all,
                    order_id,
                    price@,
                    at as int,
                ),
            decreases queue@.len() - at,
        {
            assert(all[at as int] == queue@[at as int]@);
            if queue[at].id == order_id && queue[at].price.equals(price) {
                return at;
            }
            at += 1;
        }
        at
    }

    /// The first place in `queue` of an order with the given identity, or
    /// the length of the queue where there is none.
    pub fn find_order_by_id(queue: &Vec<Order>, order_id: u128) -> (at: usize)
        ensures
            at == position_of_id(views(queue@), order_id, 0),
            at <= queue@.len(),
    {
        let ghost all = views(queue@);
        let mut at: usize = 0;
        while at < queue.len()
            invariant
                0 <= at <= queue@.len(),
                all == views(queue@),
                position_of_id(all, order_id, 0) == position_of_id(all, order_id, at as int),
            decreases queue@.len() - at,
        {
            assert(all[at as int] == queue@[at as int]@);
            if queue[at].id == order_id {
                return at;
            }
            at += 1;
        }
        at
    }

    /// Takes the first `count` orders out of the queue of `side`; where
    /// `partial` is given, it takes their place at the front of what is
    /// left.
    pub fn consume(&mut self, side: Side, count: usize, partial: Option<Order>)
        requires
            old(self).wf(),
            count <= old(self)@.side(side).len(),
            match partial {
                Some(order) => order.wf() && side_wf(
                    side,
                    seq![order@] + old(self)@.side(side).skip(count as int),
                ),
                None => side_wf(side, old(self)@.side(side).skip(count as int)),
            },
        ensures
            final(self).wf(),
            final(self)@ == old(self)@.with_side(
                side,
                match partial {
                    Some(order) => seq![order@] + old(self)@.side(side).skip(count as int),
                    None => old(self)@.side(side).skip(count as int),
                },
            ),
    {
        let ghost rest = self@.side(side).skip(count as int);
        match side {
            Side::Bid => {
                let mut left = self.bids.split_off(count);
                assert(views(left@) =~= rest);
                match partial {
                    Some(order) => {
                        left.insert(0, order);
                        assert(views(left@) =~= seq![order@] + rest);
                    },
                    None => {},
                }
                self.bids = left;
            },
            Side::Ask => {
                let mut left = self.asks.split_off(count);
                assert(views(left@) =~= rest);
                match partial {
                    Some(order) => {
                        left.insert(0, order);
                        assert(views(left@) =~= seq![order@] + rest);
                    },
                    None => {},
                }
                self.asks = left;
            },
        }
    }

    /// Takes the order at place `at` out of the queue of `side`.
    pub fn take(&mut self, side: Side, at: usize) -> (r: Order)
        requires
            old(self).wf(),
            at < old(self)@.side(side).len(),
        ensures
            final(self).wf(),
            r.wf(),
            r@ == old(self)@.side(side)[at as int],
            final(self)@ == old(self)@.with_side(side, old(self)@.side(side).remove(at as int)),
    {
        let ghost before = self@;
        proof {
            lemma_remove_keeps_side(side, before.side(side), at as int);
        }
        match side {
            Side::Bid => {
                let order = self.bids.remove(at);
                assert(views(self.bids@) =~= before.bids.remove(at as int));
                assert(before.bids[at as int] == order@);
                order
            },
            Side::Ask => {
                let order = self.asks.remove(at);
                assert(views(self.asks@) =~= before.asks.remove(at as int));
                assert(before.asks[at as int] == order@);
                order
            },
        }
    }

    /// The queue that an order of the given side trades against, and the
    /// queue that it rests in.
    pub fn determine_maker_taker_book(&self, side: Side) -> (r: (&Vec<Order>, &Vec<Order>))
        ensures
            r.0@ == (match side {
                Side::Bid => self.asks@,
                Side::Ask => self.bids@,
            }),
            r.1@ == (match side {
                Side::Bid => self.bids@,
                Side::Ask => self.asks@,
            }),
            views(r.0@) == self@.side(side.opposite()),
            views(r.1@) == self@.side(side),
    {
        match side {
            Side::Bid => (&self.asks, &self.bids),
            Side::Ask => (&self.bids, &self.asks),
        }
    }
}

} // verus!
