//! The balances of one user, and the operations that lock and settle funds.
//!
//! Every operation keeps the four quantities at or above zero: one that
//! would not fails with `InsufficientFunds` and changes nothing.
use crate::decimal::Decimal;
use crate::order::CreateOrderArgs;
use crate::order::EngineError;
use crate::order::Side;
use std::collections::HashMap;
use vstd::prelude::*;

verus! {

broadcast use vstd::std_specs::hash::group_hash_axioms;

/// The balances of a ledger as views.
pub open spec fn ledger_view(ledger: Map<u128, UserBalance>) -> Map<u128, BalanceView> {
    ledger.map_values(|b: UserBalance| b@)
}

/// Every balance of the ledger is kept under its user, has its scales
/// within the library's limits, and has no quantity below zero.
pub open spec fn ledger_wf(ledger: Map<u128, UserBalance>) -> bool {
    forall|user: u128| #[trigger]
        ledger.contains_key(user) ==> ledger[user].wf() && ledger[user]@.non_negative()
            && ledger[user].user_id == user
}

/// The ledger made of the first `count` balances of a snapshot, each kept
/// under its user; of two balances of one user the later stays.
pub open spec fn ledger_of(balances: Seq<BalanceView>, count: int) -> Map<u128, BalanceView>
    decreases count,
{
    if count <= 0 {
        Map::empty()
    } else {
        ledger_of(balances, count - 1).insert(balances[count - 1].user_id, balances[count - 1])
    }
}

/// The views of the balances of a snapshot.
pub open spec fn balance_views(balances: Seq<UserBalance>) -> Seq<BalanceView> {
    balances.map_values(|b: UserBalance| b@)
}

/// The ledger after the balances of `writes` were written over it in turn,
/// each under its user.
pub open spec fn written(ledger: Map<u128, BalanceView>, writes: Seq<BalanceView>) -> Map<
    u128,
    BalanceView,
>
    decreases writes.len(),
{
    if writes.len() == 0 {
        ledger
    } else {
        written(ledger, writes.drop_last()).insert(writes.last().user_id, writes.last())
    }
}

/// The balance of a user in the ledger as `writes` leave it, if the user
/// has one: the last balance written for the user, else the one that the
/// ledger holds.
pub fn current_balance(
    ledger: &HashMap<u128, UserBalance>,
    writes: &Vec<UserBalance>,
    user_id: u128,
) -> (r: Option<UserBalance>)
    requires
        ledger_wf(ledger@),
        forall|i: int|
            0 <= i < writes@.len() ==> (#[trigger] writes@[i]).wf() && writes@[i]@.non_negative(),
    ensures
        match r {
            Some(balance) => {
                let now = written(ledger_view(ledger@), balance_views(writes@));
                &&& now.contains_key(user_id)
                &&& balance@ == now[user_id]
                &&& balance@.user_id == user_id
                &&& balance@.non_negative()
                &&& balance.wf()
            },
            None => !written(ledger_view(ledger@), balance_views(writes@)).contains_key(user_id),
        },
{
    let ghost base = ledger_view(ledger@);
    let ghost all = balance_views(writes@);
    let mut i: usize = writes.len();
    assert(all.take(i as int) =~= all);
    while i > 0
        invariant
            0 <= i <= writes@.len(),
            base == ledger_view(ledger@),
            all == balance_views(writes@),
            forall|k: int|
                0 <= k < writes@.len() ==> (#[trigger] writes@[k]).wf()
                    && writes@[k]@.non_negative(),
            written(base, all).contains_key(user_id) == written(
                base,
                all.take(i as int),
            ).contains_key(user_id),
            written(base, all)[user_id] == written(base, all.take(i as int))[user_id],
        decreases i,
    {
        proof {
            let front = all.take(i as int);
            assert(front.last() == writes@[i - 1]@);
            assert(front.drop_last() =~= all.take(i - 1));
        }
        if writes[i - 1].user_id == user_id {
            return Some(writes[i - 1].copy());
        }
        i -= 1;
    }
    balance_of(ledger, user_id)
}

/// Writes the balances of `writes` into the ledger in turn, each under its
/// user.
pub fn commit_writes(ledger: &mut HashMap<u128, UserBalance>, writes: Vec<UserBalance>)
    requires
        ledger_wf(old(ledger)@),
        forall|i: int|
            0 <= i < writes@.len() ==> (#[trigger] writes@[i]).wf() && writes@[i]@.non_negative(),
    ensures
        ledger_wf(final(ledger)@),
        ledger_view(final(ledger)@) == written(ledger_view(old(ledger)@), balance_views(writes@)),
{
    let ghost base = ledger_view(ledger@);
    let ghost all = balance_views(writes@);
    let mut i: usize = 0;
    while i < writes.len()
        invariant
            0 <= i <= writes@.len(),
            all == balance_views(writes@),
            ledger_wf(ledger@),
            forall|k: int|
                0 <= k < writes@.len() ==> (#[trigger] writes@[k]).wf()
                    && writes@[k]@.non_negative(),
            ledger_view(ledger@) == written(base, all.take(i as int)),
        decreases writes@.len() - i,
    {
        let balance = writes[i].copy();
        let ghost before = ledger@;
        ledger.insert(balance.user_id, balance);
        proof {
            let front = all.take(i + 1);
            assert(front.last() == writes@[i as int]@);
            assert(front.drop_last() =~= all.take(i as int));
            assert(ledger_view(ledger@) =~= ledger_view(before).insert(
                writes@[i as int]@.user_id,
                writes@[i as int]@,
            ));
        }
        i += 1;
    }
    assert(all.take(i as int) =~= all);
}

/// The balance of a user in the ledger, if the user has one.
pub fn balance_of(ledger: &HashMap<u128, UserBalance>, user_id: u128) -> (r: Option<UserBalance>)
    ensures
        match r {
            Some(balance) => ledger@.contains_key(user_id) && balance@ == ledger@[user_id]@
                && balance.wf() == ledger@[user_id].wf(),
            None => !ledger@.contains_key(user_id),
        },
{
    match ledger.get(&user_id) {
        Some(balance) => Some(balance.copy()),
        None => None,
    }
}

/// What one user holds of the base and of the quote asset, free and locked.
#[derive(Debug, Clone)]
pub struct UserBalance {
    pub id: u128,
    pub user_id: u128,
    pub free_base_qty: Decimal,
    pub free_quote_qty: Decimal,
    pub locked_base_qty: Decimal,
    pub locked_quote_qty: Decimal,
}

/// A balance with its decimals as numbers.
#[verifier::ext_equal]
pub ghost struct BalanceView {
    pub id: u128,
    pub user_id: u128,
    pub free_base: real,
    pub free_quote: real,
    pub locked_base: real,
    pub locked_quote: real,
}

impl BalanceView {
    /// No quantity is below zero.
    pub open spec fn non_negative(self) -> bool {
        &&& self.free_base >= 0real
        &&& self.free_quote >= 0real
        &&& self.locked_base >= 0real
        &&& self.locked_quote >= 0real
    }

    /// All that the user holds of the base asset.
    pub open spec fn base_total(self) -> real {
        self.free_base + self.locked_base
    }

    /// All that the user holds of the quote asset.
    pub open spec fn quote_total(self) -> real {
        self.free_quote + self.locked_quote
    }

    /// The balance after `amount` was added to the locked quote.
    pub open spec fn credit_locked_quote(self, amount: real) -> BalanceView {
        BalanceView { locked_quote: self.locked_quote + amount, ..self }
    }

    /// The balance after `amount` was added to the locked base.
    pub open spec fn credit_locked_base(self, amount: real) -> BalanceView {
        BalanceView { locked_base: self.locked_base + amount, ..self }
    }

    /// The balance after `amount` of quote moved from free to locked.
    pub open spec fn lock_quote(self, amount: real) -> BalanceView {
        BalanceView {
            free_quote: self.free_quote - amount,
            locked_quote: self.locked_quote + amount,
            ..self
        }
    }

    /// The balance after `amount` of base moved from free to locked.
    pub open spec fn lock_base(self, amount: real) -> BalanceView {
        BalanceView {
            free_base: self.free_base - amount,
            locked_base: self.locked_base + amount,
            ..self
        }
    }

    /// The balance after the funds of an order were locked: the quote
    /// quantity of a bid, the base quantity of an ask.
    pub open spec fn lock(self, side: Side, base_qty: real, quote_qty: real) -> BalanceView {
        match side {
            Side::Bid => self.lock_quote(quote_qty),
            Side::Ask => self.lock_base(base_qty),
        }
    }

    /// The balance after a trade of `quantity` at `price` was settled for an
    /// order of the given side: a bid receives base and pays locked quote, an
    /// ask receives quote and pays locked base.
    pub open spec fn settle(self, side: Side, price: real, quantity: real) -> BalanceView {
        match side {
            Side::Bid => BalanceView {
                free_base: self.free_base + quantity,
                locked_quote: self.locked_quote - quantity * price,
                ..self
            },
            Side::Ask => BalanceView {
                free_quote: self.free_quote + quantity * price,
                locked_base: self.locked_base - quantity,
                ..self
            },
        }
    }

    /// The balance after the funds still locked for an unfilled quantity at
    /// `price` were released: quote for a bid, base for an ask.
    pub open spec fn release(self, side: Side, price: real, quantity: real) -> BalanceView {
        match side {
            Side::Bid => self.lock_quote(-(quantity * price)),
            Side::Ask => self.lock_base(-quantity),
        }
    }
}

impl View for UserBalance {
    type V = BalanceView;

    open spec fn view(&self) -> BalanceView {
        BalanceView {
            id: self.id,
            user_id: self.user_id,
            free_base: self.free_base_qty@,
            free_quote: self.free_quote_qty@,
            locked_base: self.locked_base_qty@,
            locked_quote: self.locked_quote_qty@,
        }
    }
}

impl UserBalance {
    /// The scales of the decimals are within the library's limits.
    pub open spec fn wf(&self) -> bool {
        &&& self.free_base_qty.fits(3)
        &&& self.free_quote_qty.fits(3)
        &&& self.locked_base_qty.fits(3)
        &&& self.locked_quote_qty.fits(3)
    }

    /// Whether the scales of the decimals are within the library's limits.
    pub fn is_wf(&self) -> (r: bool)
        ensures
            r == self.wf(),
    {
        self.free_base_qty.is_within(3) && self.free_quote_qty.is_within(3)
            && self.locked_base_qty.is_within(3) && self.locked_quote_qty.is_within(3)
    }

    /// An independent value that stands for the same balance.
    pub fn copy(&self) -> (r: UserBalance)
        ensures
            r@ == self@,
            r.wf() == self.wf(),
    {
        UserBalance {
            id: self.id,
            user_id: self.user_id,
            free_base_qty: self.free_base_qty.copy(),
            free_quote_qty: self.free_quote_qty.copy(),
            locked_base_qty: self.locked_base_qty.copy(),
            locked_quote_qty: self.locked_quote_qty.copy(),
        }
    }

    /// Builds the ledger from a snapshot of balances, each kept under its
    /// user. A balance with a quantity below zero is an invariant
    /// violation.
    pub fn init_user_balances(balances: Vec<UserBalance>) -> (r: Result<
        HashMap<u128, UserBalance>,
        EngineError,
    >)
        requires
            forall|i: int| 0 <= i < balances@.len() ==> (#[trigger] balances@[i]).wf(),
        ensures
            r is Ok <==> forall|i: int|
                0 <= i < balances@.len() ==> (#[trigger] balances@[i])@.non_negative(),
            match r {
                Ok(ledger) => ledger_wf(ledger@) && ledger_view(ledger@) == ledger_of(
                    balance_views(balances@),
                    balances@.len() as int,
                ),
                Err(e) => e == EngineError::InvariantViolation,
            },
    {
        let mut ledger: HashMap<u128, UserBalance> = HashMap::new();
        let mut i: usize = 0;
        assert(ledger_view(ledger@) =~= ledger_of(balance_views(balances@), 0));
        while i < balances.len()
            invariant
                0 <= i <= balances@.len(),
                forall|k: int| 0 <= k < balances@.len() ==> (#[trigger] balances@[k]).wf(),
                forall|k: int| 0 <= k < i ==> (#[trigger] balances@[k])@.non_negative(),
                ledger_wf(ledger@),
                ledger_view(ledger@) == ledger_of(balance_views(balances@), i as int),
            decreases balances@.len() - i,
        {
            if !balances[i].is_non_negative() {
                return Err(EngineError::InvariantViolation);
            }
            let balance = balances[i].copy();
            let ghost before = ledger@;
            ledger.insert(balance.user_id, balance);
            proof {
                assert(balance_views(balances@)[i as int] == balances@[i as int]@);
                assert(ledger_view(ledger@) =~= ledger_view(before).insert(
                    balances@[i as int]@.user_id,
                    balances@[i as int]@,
                ));
            }
            i += 1;
        }
        Ok(ledger)
    }

    /// Whether no quantity is below zero.
    pub fn is_non_negative(&self) -> (r: bool)
        requires
            self.wf(),
        ensures
            r == self@.non_negative(),
    {
        !self.free_base_qty.is_negative() && !self.free_quote_qty.is_negative()
            && !self.locked_base_qty.is_negative() && !self.locked_quote_qty.is_negative()
    }

    /// Adds `amount` to the locked quote.
    pub fn credit_locked_quote_qty(&mut self, amount: &Decimal) -> (r: Result<(), EngineError>)
        requires
            old(self).wf(),
            amount.fits(3),
        ensures
            final(self).wf(),
            r is Ok <==> old(self)@.locked_quote + amount@ >= 0real,
            r is Ok ==> final(self)@ == old(self)@.credit_locked_quote(amount@),
            r is Err ==> r == Err::<(), EngineError>(EngineError::InsufficientFunds) && final(self)@ == old(self)@,
    {
        let locked = self.locked_quote_qty.plus(amount);
        if locked.is_negative() {
            return Err(EngineError::InsufficientFunds);
        }
        self.locked_quote_qty = locked;
        Ok(())
    }

    /// Adds `amount` to the locked base.
    pub fn credit_locked_base_qty(&mut self, amount: &Decimal) -> (r: Result<(), EngineError>)
        requires
            old(self).wf(),
            amount.fits(3),
        ensures
            final(self).wf(),
            r is Ok <==> old(self)@.locked_base + amount@ >= 0real,
            r is Ok ==> final(self)@ == old(self)@.credit_locked_base(amount@),
            r is Err ==> r == Err::<(), EngineError>(EngineError::InsufficientFunds) && final(self)@ == old(self)@,
    {
        let locked = self.locked_base_qty.plus(amount);
        if locked.is_negative() {
            return Err(EngineError::InsufficientFunds);
        }
        self.locked_base_qty = locked;
        Ok(())
    }

    /// Moves `amount` of quote from free to locked.
    pub fn lock_free_quote_qty(&mut self, amount: &Decimal) -> (r: Result<(), EngineError>)
        requires
            old(self).wf(),
            amount.fits(3),
        ensures
            final(self).wf(),
            r is Ok <==> old(self)@.free_quote >= amount@ && old(self)@.locked_quote + amount@
                >= 0real,
            r is Ok ==> final(self)@ == old(self)@.lock_quote(amount@),
            r is Err ==> r == Err::<(), EngineError>(EngineError::InsufficientFunds) && final(self)@ == old(self)@,
    {
        if self.free_quote_qty.less_than(amount) {
            return Err(EngineError::InsufficientFunds);
        }
        let locked = self.locked_quote_qty.plus(amount);
        if locked.is_negative() {
            return Err(EngineError::InsufficientFunds);
        }
        self.free_quote_qty = self.free_quote_qty.minus(amount);
        self.locked_quote_qty = locked;
        Ok(())
    }

    /// Moves `amount` of base from free to locked.
    pub fn lock_free_base_qty(&mut self, amount: &Decimal) -> (r: Result<(), EngineError>)
        requires
            old(self).wf(),
            amount.fits(3),
        ensures
            final(self).wf(),
            r is Ok <==> old(self)@.free_base >= amount@ && old(self)@.locked_base + amount@
                >= 0real,
            r is Ok ==> final(self)@ == old(self)@.lock_base(amount@),
            r is Err ==> r == Err::<(), EngineError>(EngineError::InsufficientFunds) && final(self)@ == old(self)@,
    {
        if self.free_base_qty.less_than(amount) {
            return Err(EngineError::InsufficientFunds);
        }
        let locked = self.locked_base_qty.plus(amount);
        if locked.is_negative() {
            return Err(EngineError::InsufficientFunds);
        }
        self.free_base_qty = self.free_base_qty.minus(amount);
        self.locked_base_qty = locked;
        Ok(())
    }

    /// Locks the funds of a new order: the quote quantity of a bid, the base
    /// quantity of an ask. Funds that the user does not hold free are never
    /// credited: where the free funds fall short, the order is refused. The
    /// result is the top-up that the order still needs, which is zero.
    pub fn lock_funds(&mut self, args: &CreateOrderArgs) -> (r: Result<Decimal, EngineError>)
        requires
            old(self).wf(),
            args.wf(),
        ensures
            final(self).wf(),
            r is Ok <==> match args.side {
                Side::Bid => old(self)@.free_quote >= args.quote_qty@ && old(self)@.locked_quote
                    + args.quote_qty@ >= 0real,
                Side::Ask => old(self)@.free_base >= args.base_qty@ && old(self)@.locked_base
                    + args.base_qty@ >= 0real,
            },
            r matches Ok(deposit) ==> deposit@ == 0real && final(self)@ == old(self)@.lock(
                args.side,
                args.base_qty@,
                args.quote_qty@,
            ),
            r is Err ==> r == Err::<Decimal, EngineError>(EngineError::InsufficientFunds) && final(self)@ == old(self)@,
    {
        let locked = match args.side {
            Side::Bid => self.lock_free_quote_qty(&args.quote_qty),
            Side::Ask => self.lock_free_base_qty(&args.base_qty),
        };
        match locked {
            Ok(()) => Ok(Decimal::zero()),
            Err(e) => Err(e),
        }
    }

    /// Settles a trade of `trade_qty` at `price` for an order of the given
    /// side.
    pub fn update_balance(&mut self, side: Side, price: &Decimal, trade_qty: &Decimal) -> (r:
        Result<(), EngineError>)
        requires
            old(self).wf(),
            price.fits(1),
            trade_qty.fits(2),
        ensures
            final(self).wf(),
            r is Ok <==> match side {
                Side::Bid => old(self)@.free_base + trade_qty@ >= 0real && old(self)@.locked_quote
                    - trade_qty@ * price@ >= 0real,
                Side::Ask => old(self)@.free_quote + trade_qty@ * price@ >= 0real && old(self)@.locked_base - trade_qty@ >= 0real,
            },
            r is Ok ==> final(self)@ == old(self)@.settle(side, price@, trade_qty@),
            r is Err ==> r == Err::<(), EngineError>(EngineError::InsufficientFunds) && final(self)@ == old(self)@,
    {
        let cost = trade_qty.times(price);
        match side {
            Side::Bid => {
                let free = self.free_base_qty.plus(trade_qty);
                let locked = self.locked_quote_qty.minus(&cost);
                if free.is_negative() || locked.is_negative() {
                    return Err(EngineError::InsufficientFunds);
                }
                self.free_base_qty = free;
                self.locked_quote_qty = locked;
            },
            Side::Ask => {
                let free = self.free_quote_qty.plus(&cost);
                let locked = self.locked_base_qty.minus(trade_qty);
                if free.is_negative() || locked.is_negative() {
                    return Err(EngineError::InsufficientFunds);
                }
                self.free_quote_qty = free;
                self.locked_base_qty = locked;
            },
        }
        Ok(())
    }

    /// Releases the funds still locked for `quantity` unfilled at `price`:
    /// quote for a bid, base for an ask.
    pub fn release_funds(&mut self, side: Side, price: &Decimal, quantity: &Decimal) -> (r: Result<
        (),
        EngineError,
    >)
        requires
            old(self).wf(),
            price.fits(1),
            quantity.fits(2),
        ensures
            final(self).wf(),
            r is Ok <==> match side {
                Side::Bid => old(self)@.free_quote + quantity@ * price@ >= 0real && old(self)@.locked_quote - quantity@ * price@ >= 0real,
                Side::Ask => old(self)@.free_base + quantity@ >= 0real && old(self)@.locked_base
                    - quantity@ >= 0real,
            },
            r is Ok ==> final(self)@ == old(self)@.release(side, price@, quantity@),
            r is Err ==> r == Err::<(), EngineError>(EngineError::InsufficientFunds) && final(self)@ == old(self)@,
    {
        match side {
            Side::Bid => {
                let amount = quantity.times(price);
                let free = self.free_quote_qty.plus(&amount);
                let locked = self.locked_quote_qty.minus(&amount);
                if free.is_negative() || locked.is_negative() {
                    return Err(EngineError::InsufficientFunds);
                }
                self.free_quote_qty = free;
                self.locked_quote_qty = locked;
            },
            Side::Ask => {
                let free = self.free_base_qty.plus(quantity);
                let locked = self.locked_base_qty.minus(quantity);
                if free.is_negative() || locked.is_negative() {
                    return Err(EngineError::InsufficientFunds);
                }
                self.free_base_qty = free;
                self.locked_base_qty = locked;
            },
        }
        Ok(())
    }
}

} // verus!
