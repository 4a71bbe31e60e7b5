use vstd::prelude::*;
use crate::agents::Worker;
use crate::ledger::{lemma_total_update, total, Books, Ledger};
use crate::money::Money;

verus! {

/// The employer's balance after the first `i` workers of `roster` were
/// paid in order, each one only where the balance still covers the salary.
pub open spec fn balance_after(start: int, roster: Seq<Worker>, i: int) -> int
    decreases i,
{
    if i <= 0 {
        start
    } else {
        let before = balance_after(start, roster, i - 1);
        let salary = roster[i - 1].salary.units as int;
        if salary <= before {
            before - salary
        } else {
            before
        }
    }
}

/// Whether worker `i` of `roster` is paid.
pub open spec fn is_paid(start: int, roster: Seq<Worker>, i: int) -> bool {
    roster[i].salary.units <= balance_after(start, roster, i)
}

pub proof fn lemma_balance_after_bounds(start: int, roster: Seq<Worker>, i: int)
    requires
        0 <= start,
    ensures
        0 <= balance_after(start, roster, i) <= start,
    decreases i,
{
    if i > 0 {
        lemma_balance_after_bounds(start, roster, i - 1);
    }
}

/// The workers are agents of the ledger other than the employer, each on
/// the roster once.
pub open spec fn roster_ok(ledger: &Ledger, employer: int, roster: Seq<Worker>) -> bool {
    &&& 0 <= employer < ledger.n_agents()
    &&& forall|i: int| 0 <= i < roster.len() ==> #[trigger] roster[i].agent < ledger.n_agents()
    &&& forall|i: int| 0 <= i < roster.len() ==> #[trigger] roster[i].agent != employer
    &&& forall|i: int, j: int|
        0 <= i < j < roster.len() ==> #[trigger] roster[i].agent != #[trigger] roster[j].agent
}

/// `b2` is `b1` after `employer` paid `roster` (see [`payroll`]).
pub open spec fn payroll_rel(b1: Books, b2: Books, employer: int, roster: Seq<Worker>) -> bool {
    let start = b1.balance(employer) as int;
    &&& b2.n_items == b1.n_items
    &&& b2.items == b1.items
    &&& b2.items_to_sell == b1.items_to_sell
    &&& b2.wallets.len() == b1.wallets.len()
    &&& b2.balance(employer) == balance_after(start, roster, roster.len() as int)
    &&& forall|i: int| 0 <= i < roster.len() ==>
        b2.balance(#[trigger] roster[i].agent as int)
            == b1.balance(roster[i].agent as int) + if is_paid(start, roster, i) { roster[i].salary.units as int } else { 0 }
    &&& forall|a: int| 0 <= a < b1.wallets.len() && a != employer
        && (forall|i: int| 0 <= i < roster.len() ==> #[trigger] roster[i].agent != a)
        ==> #[trigger] b2.balance(a) == b1.balance(a)
}

/// Pays each worker of `roster`, in roster order, its salary out of the
/// employer's wallet. A payment that the employer's balance does not cover
/// at its turn fails and leaves both wallets as they were; payroll goes on
/// with the next worker. Returns, for each worker, whether it was paid.
pub fn payroll(ledger: &mut Ledger, employer: usize, roster: &Vec<Worker>) -> (paid: Vec<bool>)
    requires
        old(ledger).wf(),
        roster_ok(&*old(ledger), employer as int, roster@),
        forall|i: int| 0 <= i < roster@.len() ==>
            old(ledger).balance(#[trigger] roster@[i].agent as int) + old(ledger).balance(employer as int) <= u64::MAX,
    ensures
        final(ledger).wf(),
        final(ledger).n_items == old(ledger).n_items,
        final(ledger).n_agents() == old(ledger).n_agents(),
        final(ledger).items@ == old(ledger).items@,
        final(ledger).items_to_sell@ == old(ledger).items_to_sell@,
        total(final(ledger).wallets@) == total(old(ledger).wallets@),
        final(ledger).balance(employer as int)
            == balance_after(old(ledger).balance(employer as int) as int, roster@, roster@.len() as int),
        paid@.len() == roster@.len(),
        payroll_rel(old(ledger).books(), final(ledger).books(), employer as int, roster@),
        forall|i: int| 0 <= i < roster@.len() ==>
            #[trigger] paid@[i] == is_paid(old(ledger).balance(employer as int) as int, roster@, i),
        forall|i: int| 0 <= i < roster@.len() ==>
            final(ledger).balance(#[trigger] roster@[i].agent as int)
                == old(ledger).balance(roster@[i].agent as int) + if paid@[i] { roster@[i].salary.units as int } else { 0 },
        forall|a: int| 0 <= a < old(ledger).n_agents() && a != employer
            && (forall|i: int| 0 <= i < roster@.len() ==> #[trigger] roster@[i].agent != a)
            ==> #[trigger] final(ledger).balance(a) == old(ledger).balance(a),
{
    let ghost start = old(ledger).balance(employer as int) as int;
    let ghost w0 = old(ledger).wallets@;
    let mut paid: Vec<bool> = Vec::new();
    let mut i: usize = 0;
    while i < roster.len()
        invariant
            ledger.wf(),
            ledger.n_items == old(ledger).n_items,
            ledger.wallets@.len() == w0.len(),
            ledger.items@ == old(ledger).items@,
            ledger.items_to_sell@ == old(ledger).items_to_sell@,
            roster_ok(&*old(ledger), employer as int, roster@),
            forall|j: int| 0 <= j < roster@.len() ==>
                w0[#[trigger] roster@[j].agent as int].units + start <= u64::MAX,
            w0 == old(ledger).wallets@,
            start == w0[employer as int].units,
            i <= roster@.len(),
            paid@.len() == i,
            total(ledger.wallets@) == total(w0),
            ledger.balance(employer as int) == balance_after(start, roster@, i as int),
            forall|j: int| 0 <= j < i ==> #[trigger] paid@[j] == is_paid(start, roster@, j),
            forall|j: int| 0 <= j < i ==>
                ledger.balance(#[trigger] roster@[j].agent as int)
                    == w0[roster@[j].agent as int].units + if paid@[j] { roster@[j].salary.units as int } else { 0 },
            forall|a: int| 0 <= a < w0.len() && a != employer
                && (forall|j: int| 0 <= j < i ==> #[trigger] roster@[j].agent != a)
                ==> #[trigger] ledger.balance(a) == w0[a].units,
        decreases roster@.len() - i,
    {
        let w = roster[i];
        let ghost prev = *ledger;
        let boss = ledger.wallets[employer];
        proof {
            lemma_balance_after_bounds(start, roster@, i as int);
            assert(forall|j: int| 0 <= j < i ==> #[trigger] roster@[j].agent != w.agent);
            assert(w.agent != employer);
            assert(ledger.balance(w.agent as int) == w0[w.agent as int].units);
            assert(w0[roster@[i as int].agent as int].units + start <= u64::MAX);
        }
        match boss.checked_sub(w.salary) {
            Some(rest) => {
                let cur = ledger.wallets[w.agent];
                let credited = Money::new(cur.units + w.salary.units);
                proof {
                    lemma_total_update(ledger.wallets@, employer as int, rest);
                    lemma_total_update(ledger.wallets@.update(employer as int, rest), w.agent as int, credited);
                }
                ledger.wallets.set(employer, rest);
                ledger.wallets.set(w.agent, credited);
                paid.push(true);
                assert(forall|j: int| 0 <= j < i ==>
                    #[trigger] roster@[j].agent != w.agent && roster@[j].agent != employer);
            },
            None => {
                paid.push(false);
            },
        }
        assert forall|a: int| 0 <= a < w0.len() && a != employer
            && (forall|j: int| 0 <= j < i + 1 ==> #[trigger] roster@[j].agent != a)
            implies #[trigger] ledger.balance(a) == w0[a].units by {
            assert(roster@[i as int].agent != a);
            assert(forall|j: int| 0 <= j < i ==> #[trigger] roster@[j].agent != a);
            assert(prev.balance(a) == w0[a].units);
        }
        i = i + 1;
    }
    proof {
        let b1 = old(ledger).books();
        let b2 = ledger.books();
        assert forall|j: int| 0 <= j < roster@.len() implies
            b2.balance(#[trigger] roster@[j].agent as int) == b1.balance(roster@[j].agent as int)
                + if is_paid(start, roster@, j) { roster@[j].salary.units as int } else { 0 } by {
            assert(paid@[j] == is_paid(start, roster@, j));
            assert(ledger.balance(roster@[j].agent as int) == b2.balance(roster@[j].agent as int));
        }
        assert forall|a: int| 0 <= a < b1.wallets.len() && a != employer
            && (forall|j: int| 0 <= j < roster@.len() ==> #[trigger] roster@[j].agent != a)
            implies #[trigger] b2.balance(a) == b1.balance(a) by {
            assert(ledger.balance(a) == w0[a].units);
        }
    }
    paid
}

} // verus!
