use vstd::prelude::*;
use crate::agents::{ProductionCycle, Worker};
use crate::economy::{manufacturers_ok, Economy};
use crate::ledger::{total, Ledger};
use crate::market::{book_ok, buy_ok, sell_backed, BuyOrder, SellOrder};
use crate::money::Money;
use crate::payroll::roster_ok;

verus! {

fn recipe_ok(recipe: &ProductionCycle, n_items: usize) -> (r: bool)
    ensures
        r == recipe.wf(n_items as nat),
{
    if recipe.output.item.id >= n_items {
        return false;
    }
    let n = recipe.inputs.len();
    let mut k: usize = 0;
    while k < n
        invariant
            n == recipe.inputs@.len(),
            k <= n,
            recipe.output.item.id < n_items,
            forall|j: int| 0 <= j < k ==> #[trigger] recipe.inputs@[j].item.id < n_items,
            forall|j: int| 0 <= j < k ==> #[trigger] recipe.inputs@[j].item != recipe.output.item,
            forall|j: int, l: int| 0 <= j < l < k ==> #[trigger] recipe.inputs@[j].item != #[trigger] recipe.inputs@[l].item,
        decreases n - k,
    {
        let it = recipe.inputs[k].item;
        if it.id >= n_items || it == recipe.output.item {
            return false;
        }
        let mut j: usize = 0;
        while j < k
            invariant
                n == recipe.inputs@.len(),
                j <= k < n,
                it == recipe.inputs@[k as int].item,
                forall|x: int| 0 <= x < j ==> #[trigger] recipe.inputs@[x].item != it,
            decreases k - j,
        {
            if recipe.inputs[j].item == it {
                return false;
            }
            j = j + 1;
        }
        k = k + 1;
    }
    true
}

fn roster_valid(ledger: &Ledger, employer: usize, roster: &Vec<Worker>) -> (r: bool)
    ensures
        r == roster_ok(ledger, employer as int, roster@),
{
    let agents = ledger.wallets.len();
    if employer >= agents {
        return false;
    }
    let n = roster.len();
    let mut k: usize = 0;
    while k < n
        invariant
            n == roster@.len(),
            agents == ledger.n_agents(),
            employer < agents,
            k <= n,
            forall|i: int| 0 <= i < k ==> #[trigger] roster@[i].agent < agents,
            forall|i: int| 0 <= i < k ==> #[trigger] roster@[i].agent != employer,
            forall|i: int, j: int| 0 <= i < j < k ==> #[trigger] roster@[i].agent != #[trigger] roster@[j].agent,
        decreases n - k,
    {
        let a = roster[k].agent;
        if a >= agents || a == employer {
            return false;
        }
        let mut j: usize = 0;
        while j < k
            invariant
                n == roster@.len(),
                j <= k < n,
                a == roster@[k as int].agent,
                forall|x: int| 0 <= x < j ==> #[trigger] roster@[x].agent != a,
            decreases k - j,
        {
            if roster[j].agent == a {
                return false;
            }
            j = j + 1;
        }
        k = k + 1;
    }
    true
}

fn sells_valid(ledger: &Ledger, sells: &Vec<SellOrder>) -> (r: bool)
    requires
        ledger.wf(),
    ensures
        r == ((forall|j: int| 0 <= j < sells@.len() ==> sell_backed(ledger, #[trigger] sells@[j]))
            && (forall|j: int, k: int| 0 <= j < sells@.len() && 0 <= k < sells@.len() && j != k
                ==> (#[trigger] sells@[j]).seller != (#[trigger] sells@[k]).seller || sells@[j].item != sells@[k].item)),
{
    let n = sells.len();
    let mut k: usize = 0;
    while k < n
        invariant
            ledger.wf(),
            n == sells@.len(),
            k <= n,
            forall|j: int| 0 <= j < k ==> sell_backed(ledger, #[trigger] sells@[j]),
            forall|i: int, j: int| 0 <= i < k && 0 <= j < k && i != j
                ==> (#[trigger] sells@[i]).seller != (#[trigger] sells@[j]).seller || sells@[i].item != sells@[j].item,
        decreases n - k,
    {
        let o = sells[k];
        if o.seller >= ledger.wallets.len() || o.item.id >= ledger.n_items {
            assert(!sell_backed(ledger, sells@[k as int]));
            return false;
        }
        let p = ledger.slot(o.seller, o.item.id);
        if ledger.items_to_sell[p] < o.quantity {
            assert(!sell_backed(ledger, sells@[k as int]));
            return false;
        }
        let mut j: usize = 0;
        while j < k
            invariant
                n == sells@.len(),
                j <= k < n,
                o == sells@[k as int],
                forall|x: int| 0 <= x < j ==> (#[trigger] sells@[x]).seller != o.seller || sells@[x].item != o.item,
            decreases k - j,
        {
            if sells[j].seller == o.seller && sells[j].item == o.item {
                assert(!(sells@[j as int].seller != sells@[k as int].seller
                    || sells@[j as int].item != sells@[k as int].item));
                return false;
            }
            j = j + 1;
        }
        k = k + 1;
    }
    true
}

fn buys_valid(ledger: &Ledger, buys: &Vec<BuyOrder>) -> (r: bool)
    ensures
        r == forall|j: int| 0 <= j < buys@.len() ==> buy_ok(ledger, #[trigger] buys@[j]),
{
    let mut k: usize = 0;
    while k < buys.len()
        invariant
            k <= buys@.len(),
            forall|j: int| 0 <= j < k ==> buy_ok(ledger, #[trigger] buys@[j]),
        decreases buys@.len() - k,
    {
        if buys[k].buyer >= ledger.wallets.len() || buys[k].item.id >= ledger.n_items {
            return false;
        }
        k = k + 1;
    }
    true
}

fn money_fits(ledger: &Ledger) -> (r: bool)
    ensures
        r == (total(ledger.wallets@) <= u64::MAX),
{
    let mut sum: u64 = 0;
    let mut k: usize = 0;
    while k < ledger.wallets.len()
        invariant
            k <= ledger.wallets@.len(),
            sum == total(ledger.wallets@.take(k as int)),
        decreases ledger.wallets@.len() - k,
    {
        assert(ledger.wallets@.take(k + 1).drop_last() =~= ledger.wallets@.take(k as int));
        match sum.checked_add(ledger.wallets[k].units) {
            Some(s) => {
                sum = s;
            },
            None => {
                proof {
                    lemma_total_prefix_grows(ledger.wallets@, k + 1);
                }
                return false;
            },
        }
        k = k + 1;
    }
    assert(ledger.wallets@.take(k as int) =~= ledger.wallets@);
    true
}

proof fn lemma_total_prefix_grows(s: Seq<Money>, k: int)
    requires
        0 <= k <= s.len(),
    ensures
        total(s.take(k)) <= total(s),
    decreases s.len() - k,
{
    if k < s.len() {
        lemma_total_prefix_grows(s, k + 1);
        assert(s.take(k + 1).drop_last() =~= s.take(k));
        assert(s.take(k + 1).last() == s[k]);
    } else {
        assert(s.take(k) =~= s);
    }
}

impl Economy {
    /// Whether the economy is well formed (see [`Economy::wf`]); the day
    /// pipeline may run only on one that is.
    pub fn is_well_formed(&self) -> (r: bool)
        ensures
            r == self.wf(),
    {
        let l = &self.ledger;
        // the vector's length bounds the product by usize::MAX
        let _len = l.items.len();
        let cells = match l.wallets.len().checked_mul(l.n_items) {
            Some(c) => c,
            None => {
                return false;
            },
        };
        if l.items.len() != cells || l.items_to_sell.len() != cells {
            return false;
        }
        let mut i: usize = 0;
        while i < self.manufacturers.len()
            invariant
                l == &self.ledger,
                i <= self.manufacturers@.len(),
                forall|x: int| 0 <= x < i ==> {
                    &&& (#[trigger] self.manufacturers@[x]).agent < l.n_agents()
                    &&& self.manufacturers@[x].production_cycle.wf(l.n_items as nat)
                    &&& roster_ok(l, self.manufacturers@[x].agent as int, self.manufacturers@[x].hired_workers@)
                },
            decreases self.manufacturers@.len() - i,
        {
            let m = &self.manufacturers[i];
            if !recipe_ok(&m.production_cycle, l.n_items) || !roster_valid(l, m.agent, &m.hired_workers) {
                return false;
            }
            i = i + 1;
        }
        if !buys_valid(l, &self.buys) || !sells_valid(l, &self.sells) {
            return false;
        }
        money_fits(l)
    }
}

} // verus!
