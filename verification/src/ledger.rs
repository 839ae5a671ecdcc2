//! What a ledger holds in all: the sum of an asset over its users.
use crate::balance::BalanceView;
use vstd::prelude::*;

verus! {

broadcast use vstd::set::group_set_axioms;

/// The sum of `f` over the balances that `ledger` holds for `users`.
pub open spec fn sum_over(
    ledger: Map<u128, BalanceView>,
    users: Set<u128>,
    f: spec_fn(BalanceView) -> real,
) -> real
    decreases users.len(),
    when users.finite()
{
    if users.is_empty() {
        0real
    } else {
        let user = users.choose();
        f(ledger[user]) + sum_over(ledger, users.remove(user), f)
    }
}

/// All of the base asset that the users of the ledger hold, free and
/// locked.
pub open spec fn total_base(ledger: Map<u128, BalanceView>) -> real {
    sum_over(ledger, ledger.dom(), |b: BalanceView| b.base_total())
}

/// All of the quote asset that the users of the ledger hold, free and
/// locked.
pub open spec fn total_quote(ledger: Map<u128, BalanceView>) -> real {
    sum_over(ledger, ledger.dom(), |b: BalanceView| b.quote_total())
}

/// The sum over a finite set of users is the term of any one of them plus
/// the sum over the others.
pub proof fn lemma_sum_over_split(
    ledger: Map<u128, BalanceView>,
    users: Set<u128>,
    f: spec_fn(BalanceView) -> real,
    user: u128,
)
    requires
        users.finite(),
        users.contains(user),
    ensures
        sum_over(ledger, users, f) == f(ledger[user]) + sum_over(ledger, users.remove(user), f),
    decreases users.len(),
{
    let chosen = users.choose();
    if chosen != user {
        let rest = users.remove(chosen);
        lemma_sum_over_split(ledger, rest, f, user);
        let others = users.remove(user);
        lemma_sum_over_split(ledger, others, f, chosen);
        assert(rest.remove(user) =~= others.remove(chosen));
    }
}

/// Two ledgers that hold the same balances for the users of a finite set
/// have the same sum over it.
pub proof fn lemma_sum_over_same(
    a: Map<u128, BalanceView>,
    b: Map<u128, BalanceView>,
    users: Set<u128>,
    f: spec_fn(BalanceView) -> real,
)
    requires
        users.finite(),
        forall|user: u128| users.contains(user) ==> a[user] == b[user],
    ensures
        sum_over(a, users, f) == sum_over(b, users, f),
    decreases users.len(),
{
    if !users.is_empty() {
        lemma_sum_over_same(a, b, users.remove(users.choose()), f);
    }
}

/// Replacing the balance of one user changes the sum by the difference of
/// the two terms.
pub proof fn lemma_sum_over_update(
    ledger: Map<u128, BalanceView>,
    f: spec_fn(BalanceView) -> real,
    user: u128,
    balance: BalanceView,
)
    requires
        ledger.dom().finite(),
        ledger.contains_key(user),
    ensures
        ledger.insert(user, balance).dom() == ledger.dom(),
        sum_over(ledger.insert(user, balance), ledger.dom(), f) == sum_over(
            ledger,
            ledger.dom(),
            f,
        ) - f(ledger[user]) + f(balance),
{
    let after = ledger.insert(user, balance);
    assert(after.dom() =~= ledger.dom());
    lemma_sum_over_split(ledger, ledger.dom(), f, user);
    lemma_sum_over_split(after, ledger.dom(), f, user);
    lemma_sum_over_same(ledger, after, ledger.dom().remove(user), f);
}

/// Replacing the balance of one user changes each total of the ledger by
/// the difference of that total of the two balances.
pub proof fn lemma_totals_update(ledger: Map<u128, BalanceView>, user: u128, balance: BalanceView)
    requires
        ledger.dom().finite(),
        ledger.contains_key(user),
    ensures
        ledger.insert(user, balance).dom() == ledger.dom(),
        total_base(ledger.insert(user, balance)) == total_base(ledger) - ledger[user].base_total()
            + balance.base_total(),
        total_quote(ledger.insert(user, balance)) == total_quote(ledger)
            - ledger[user].quote_total() + balance.quote_total(),
{
    lemma_sum_over_update(ledger, |b: BalanceView| b.base_total(), user, balance);
    lemma_sum_over_update(ledger, |b: BalanceView| b.quote_total(), user, balance);
}

} // verus!
