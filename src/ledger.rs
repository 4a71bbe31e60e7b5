use vstd::prelude::*;
use crate::money::Money;

verus! {

/// One kind of tradeable good, by its place in the item catalog.
#[derive(PartialEq, Eq, Structural, Clone, Copy, Debug, Hash)]
pub struct ItemType {
    pub id: usize,
}

/// The books of every agent: a wallet each, and for each agent and item type
/// the units held in general inventory and those marked for sale.
/// Agent `a`'s count of item type `t` sits at `a * n_items + t`.
pub struct Ledger {
    pub n_items: usize,
    pub wallets: Vec<Money>,
    pub items: Vec<u64>,
    pub items_to_sell: Vec<u64>,
}

/// Sum of the balances in `s`.
pub open spec fn total(s: Seq<Money>) -> int
    decreases s.len(),
{
    if s.len() == 0 {
        0
    } else {
        total(s.drop_last()) + s.last().units
    }
}

pub proof fn lemma_total_update(s: Seq<Money>, i: int, v: Money)
    requires
        0 <= i < s.len(),
    ensures
        total(s.update(i, v)) == total(s) - s[i].units + v.units,
    decreases s.len(),
{
    let u = s.update(i, v);
    if i < s.len() - 1 {
        lemma_total_update(s.drop_last(), i, v);
        assert(u.drop_last() =~= s.drop_last().update(i, v));
    } else {
        assert(u.drop_last() =~= s.drop_last());
    }
}

pub proof fn lemma_total_nonneg(s: Seq<Money>)
    ensures
        total(s) >= 0,
    decreases s.len(),
{
    if s.len() > 0 {
        lemma_total_nonneg(s.drop_last());
    }
}

/// Distinct (agent, item) pairs occupy distinct slots.
pub proof fn lemma_slot_distinct(n: int, a: int, t: int, b: int, u: int)
    requires
        0 <= t < n,
        0 <= u < n,
        0 <= a,
        0 <= b,
        a * n + t == b * n + u,
    ensures
        a == b,
        t == u,
{
    if a < b {
        assert(a * n + t < b * n + u) by (nonlinear_arith)
            requires a < b, 0 <= t < n, 0 <= u, 0 <= a;
    } else if b < a {
        assert(b * n + u < a * n + t) by (nonlinear_arith)
            requires b < a, 0 <= u < n, 0 <= t, 0 <= b;
    }
}

impl Ledger {
    pub open spec fn n_agents(&self) -> int {
        self.wallets@.len() as int
    }

    pub open spec fn wf(&self) -> bool {
        &&& self.items@.len() == self.wallets@.len() * self.n_items
        &&& self.items_to_sell@.len() == self.wallets@.len() * self.n_items
    }

    pub open spec fn slot_of(&self, a: int, t: int) -> int {
        a * self.n_items + t
    }

    /// Units of item type `t` in agent `a`'s general inventory.
    pub open spec fn count(&self, a: int, t: int) -> u64 {
        self.items@[self.slot_of(a, t)]
    }

    /// Units of item type `t` that agent `a` has marked for sale.
    pub open spec fn count_to_sell(&self, a: int, t: int) -> u64 {
        self.items_to_sell@[self.slot_of(a, t)]
    }

    pub open spec fn balance(&self, a: int) -> u64 {
        self.wallets@[a].units
    }

    /// A ledger of `n_agents` agents with empty wallets and inventories.
    pub fn new(n_agents: usize, n_items: usize) -> (r: Ledger)
        requires
            n_agents * n_items <= usize::MAX,
        ensures
            r.wf(),
            r.n_items == n_items,
            r.n_agents() == n_agents,
            forall|a: int| 0 <= a < n_agents ==> #[trigger] r.balance(a) == 0,
            forall|p: int| 0 <= p < r.items@.len() ==> #[trigger] r.items@[p] == 0,
            forall|p: int| 0 <= p < r.items_to_sell@.len() ==> #[trigger] r.items_to_sell@[p] == 0,
    {
        let mut wallets: Vec<Money> = Vec::new();
        let mut i: usize = 0;
        while i < n_agents
            invariant
                i <= n_agents,
                wallets@.len() == i,
                forall|a: int| 0 <= a < i ==> #[trigger] wallets@[a].units == 0,
            decreases n_agents - i,
        {
            wallets.push(Money::zero());
            i = i + 1;
        }
        let len: usize = n_agents * n_items;
        let mut items: Vec<u64> = Vec::new();
        let mut items_to_sell: Vec<u64> = Vec::new();
        let mut j: usize = 0;
        while j < len
            invariant
                j <= len,
                items@.len() == j,
                items_to_sell@.len() == j,
                forall|p: int| 0 <= p < j ==> #[trigger] items@[p] == 0,
                forall|p: int| 0 <= p < j ==> #[trigger] items_to_sell@[p] == 0,
            decreases len - j,
        {
            items.push(0);
            items_to_sell.push(0);
            j = j + 1;
        }
        Ledger { n_items, wallets, items, items_to_sell }
    }

    /// Where agent `a`'s count of item type `t` is kept.
    pub fn slot(&self, a: usize, t: usize) -> (r: usize)
        requires
            self.wf(),
            a < self.n_agents(),
            t < self.n_items,
        ensures
            r == self.slot_of(a as int, t as int),
            r < self.items@.len(),
    {
        // the vector's length bounds the slot by usize::MAX
        let _len = self.items.len();
        proof {
            let n = self.n_items as int;
            let m = self.n_agents();
            assert(a * n + t < m * n) by (nonlinear_arith)
                requires 0 <= a < m, 0 <= t < n;
            assert(0 <= a * n) by (nonlinear_arith)
                requires 0 <= a, 0 <= n;
        }
        a * self.n_items + t
    }
}

} // verus!

verus! {

/// Two distinct wallets together hold no more than all wallets.
pub proof fn lemma_two_wallets_bounded(s: Seq<Money>, a: int, b: int)
    requires
        0 <= a < s.len(),
        0 <= b < s.len(),
        a != b,
    ensures
        s[a].units + s[b].units <= total(s),
    decreases s.len(),
{
    let d = s.drop_last();
    let l = s.len() - 1;
    if a == l {
        lemma_one_wallet_bounded(d, b);
    } else if b == l {
        lemma_one_wallet_bounded(d, a);
    } else {
        lemma_two_wallets_bounded(d, a, b);
    }
}

/// One wallet holds no more than all wallets.
pub proof fn lemma_one_wallet_bounded(s: Seq<Money>, a: int)
    requires
        0 <= a < s.len(),
    ensures
        s[a].units <= total(s),
    decreases s.len(),
{
    lemma_total_nonneg(s.drop_last());
    if a < s.len() - 1 {
        lemma_one_wallet_bounded(s.drop_last(), a);
    }
}

/// No wallet ever holds a negative balance.
pub proof fn lemma_balances_nonnegative(ledger: &Ledger)
    ensures
        forall|a: int| 0 <= a < ledger.n_agents() ==> #[trigger] ledger.balance(a) >= 0,
        total(ledger.wallets@) >= 0,
{
    lemma_total_nonneg(ledger.wallets@);
}

} // verus!

verus! {

impl Ledger {
    /// Units of item type `t` held by agents `0..a`, in general inventory
    /// and marked for sale together.
    pub open spec fn stock_upto(&self, t: int, a: int) -> int
        decreases a,
    {
        if a <= 0 {
            0
        } else {
            self.stock_upto(t, a - 1) + self.count(a - 1, t) + self.count_to_sell(a - 1, t)
        }
    }

    /// Units of item type `t` across all agents.
    pub open spec fn stock(&self, t: int) -> int {
        self.stock_upto(t, self.n_agents())
    }
}

/// `l2` is `l1` with `d` units of item type `t` added to agent `b`'s
/// inventory and `d` taken from agent `s`'s units marked for sale.
pub open spec fn moved_units(l1: &Ledger, l2: &Ledger, b: int, s: int, t: int, d: int) -> bool {
    let n = l1.n_items as int;
    &&& l2.n_items == l1.n_items
    &&& l2.wallets@.len() == l1.wallets@.len()
    &&& l2.items@ == l1.items@.update(b * n + t, (l1.count(b, t) + d) as u64)
    &&& l2.items_to_sell@ == l1.items_to_sell@.update(s * n + t, (l1.count_to_sell(s, t) - d) as u64)
    &&& 0 <= l1.count(b, t) + d <= u64::MAX
    &&& 0 <= l1.count_to_sell(s, t) - d <= u64::MAX
}

proof fn lemma_stock_upto_moved(l1: &Ledger, l2: &Ledger, b: int, s: int, t: int, d: int, u: int, a: int)
    requires
        l1.wf(),
        0 <= b < l1.n_agents(),
        0 <= s < l1.n_agents(),
        0 <= t < l1.n_items,
        0 <= u < l1.n_items,
        0 <= a <= l1.n_agents(),
        moved_units(l1, l2, b, s, t, d),
    ensures
        l2.stock_upto(u, a) == l1.stock_upto(u, a) + (if u == t && b < a { d } else { 0 }) - (if u == t && s < a {
            d
        } else {
            0
        }),
    decreases a,
{
    if a > 0 {
        lemma_stock_upto_moved(l1, l2, b, s, t, d, u, a - 1);
        let n = l1.n_items as int;
        let x = a - 1;
        assert(0 <= x * n + u < l1.n_agents() * n) by (nonlinear_arith)
            requires 0 <= x < l1.n_agents(), 0 <= u < n;
        assert(0 <= b * n + t < l1.n_agents() * n) by (nonlinear_arith)
            requires 0 <= b < l1.n_agents(), 0 <= t < n;
        assert(0 <= s * n + t < l1.n_agents() * n) by (nonlinear_arith)
            requires 0 <= s < l1.n_agents(), 0 <= t < n;
        if x * n + u == b * n + t {
            lemma_slot_distinct(n, x, u, b, t);
        }
        if x * n + u == s * n + t {
            lemma_slot_distinct(n, x, u, s, t);
        }
    }
}

/// Moving units from one agent's goods marked for sale to another's
/// inventory (a settled trade), or from an agent's inventory to its own
/// goods marked for sale (opening a sell order), neither creates nor
/// destroys any unit of any item type.
pub proof fn lemma_moves_conserve_stock(l1: &Ledger, l2: &Ledger, b: int, s: int, t: int, d: int)
    requires
        l1.wf(),
        0 <= b < l1.n_agents(),
        0 <= s < l1.n_agents(),
        0 <= t < l1.n_items,
        moved_units(l1, l2, b, s, t, d),
    ensures
        forall|u: int| 0 <= u < l1.n_items ==> #[trigger] l2.stock(u) == l1.stock(u),
{
    assert forall|u: int| 0 <= u < l1.n_items implies #[trigger] l2.stock(u) == l1.stock(u) by {
        lemma_stock_upto_moved(l1, l2, b, s, t, d, u, l1.n_agents());
    }
}

} // verus!

verus! {

/// The contents of a [`Ledger`] as mathematical sequences.
pub struct Books {
    pub n_items: usize,
    pub wallets: Seq<Money>,
    pub items: Seq<u64>,
    pub items_to_sell: Seq<u64>,
}

impl Books {
    pub open spec fn balance(self, a: int) -> u64 {
        self.wallets[a].units
    }

    pub open spec fn count(self, a: int, t: int) -> u64 {
        self.items[a * self.n_items + t]
    }

    pub open spec fn count_to_sell(self, a: int, t: int) -> u64 {
        self.items_to_sell[a * self.n_items + t]
    }
}

impl Ledger {
    pub open spec fn books(&self) -> Books {
        Books { n_items: self.n_items, wallets: self.wallets@, items: self.items@, items_to_sell: self.items_to_sell@ }
    }
}

} // verus!

verus! {

/// [`Ledger::stock_upto`] on the books `bk`.
pub open spec fn books_stock(bk: Books, t: int, a: int) -> int
    decreases a,
{
    if a <= 0 {
        0
    } else {
        books_stock(bk, t, a - 1) + bk.count(a - 1, t) + bk.count_to_sell(a - 1, t)
    }
}

pub proof fn lemma_books_stock(l: &Ledger, t: int, a: int)
    ensures
        l.stock_upto(t, a) == books_stock(l.books(), t, a),
    decreases a,
{
    if a > 0 {
        lemma_books_stock(l, t, a - 1);
    }
}

} // verus!
