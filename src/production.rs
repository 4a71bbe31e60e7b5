use vstd::prelude::*;
use crate::agents::{Manufacturer, ProductionCycle};
use crate::ledger::{lemma_slot_distinct, Books, Ledger};

verus! {

/// Whether agent `a` of `ledger` can run one cycle of `recipe` with
/// `workers` hired: enough workers, enough of every input, and room for the
/// output.
pub open spec fn can_produce(ledger: &Ledger, a: int, recipe: &ProductionCycle, workers: int) -> bool {
    can_produce_in(ledger.books(), a, recipe, workers)
}

/// [`can_produce`] on the books `bk`.
pub open spec fn can_produce_in(bk: Books, a: int, recipe: &ProductionCycle, workers: int) -> bool {
    &&& workers >= recipe.workers_needed
    &&& forall|k: int| 0 <= k < recipe.inputs@.len() ==>
        bk.count(a, #[trigger] recipe.inputs@[k].item.id as int) >= recipe.inputs@[k].quantity
    &&& bk.count(a, recipe.output.item.id as int) + recipe.output.quantity <= u64::MAX
}

/// `b2` is `b1` after one production cycle of `m` (see [`produce`]).
pub open spec fn produced_rel(b1: Books, b2: Books, n_agents: int, m: Manufacturer) -> bool {
    let ok = can_produce_in(b1, m.agent as int, &m.production_cycle, m.hired_workers@.len() as int);
    &&& b2.n_items == b1.n_items
    &&& b2.wallets == b1.wallets
    &&& b2.items_to_sell == b1.items_to_sell
    &&& b2.items.len() == b1.items.len()
    &&& !ok ==> b2.items == b1.items
    &&& ok ==> forall|a: int, t: int| 0 <= a < n_agents && 0 <= t < b1.n_items ==>
        #[trigger] b2.count(a, t) == if a == m.agent {
            b1.count(a, t) - m.production_cycle.consumed(t) + m.production_cycle.produced(t)
        } else {
            b1.count(a, t) as int
        }
}

/// Runs one production cycle for `m`. Where `m` has the workforce and the
/// inputs, the inputs are taken out of its inventory and the output put in;
/// otherwise nothing changes and `false` is returned.
pub fn produce(ledger: &mut Ledger, m: &Manufacturer) -> (r: bool)
    requires
        old(ledger).wf(),
        m.agent < old(ledger).n_agents(),
        m.production_cycle.wf(old(ledger).n_items as nat),
    ensures
        final(ledger).wf(),
        final(ledger).n_items == old(ledger).n_items,
        final(ledger).wallets@ == old(ledger).wallets@,
        final(ledger).items_to_sell@ == old(ledger).items_to_sell@,
        r == can_produce(&*old(ledger), m.agent as int, &m.production_cycle, m.hired_workers@.len() as int),
        produced_rel(old(ledger).books(), final(ledger).books(), old(ledger).n_agents(), *m),
        !r ==> final(ledger).items@ == old(ledger).items@,
        r ==> forall|a: int, t: int| 0 <= a < old(ledger).n_agents() && 0 <= t < old(ledger).n_items ==>
            #[trigger] final(ledger).count(a, t) == if a == m.agent {
                old(ledger).count(a, t) - m.production_cycle.consumed(t) + m.production_cycle.produced(t)
            } else {
                old(ledger).count(a, t) as int
            },
{
    let recipe = &m.production_cycle;
    let ghost n = ledger.n_items as int;
    let ghost a0 = m.agent as int;
    if m.hired_workers.len() < recipe.workers_needed {
        return false;
    }
    let mut k: usize = 0;
    while k < recipe.inputs.len()
        invariant
            ledger.wf(),
            a0 == m.agent as int,
            recipe == &m.production_cycle,
            ledger.items@ == old(ledger).items@,
            ledger.n_items == old(ledger).n_items,
            ledger.wallets@ == old(ledger).wallets@,
            ledger.items_to_sell@ == old(ledger).items_to_sell@,
            m.agent < ledger.n_agents(),
            recipe.wf(ledger.n_items as nat),
            k <= recipe.inputs@.len(),
            forall|j: int| 0 <= j < k ==>
                ledger.count(a0, #[trigger] recipe.inputs@[j].item.id as int) >= recipe.inputs@[j].quantity,
        decreases recipe.inputs@.len() - k,
    {
        let input = recipe.inputs[k];
        let s = ledger.slot(m.agent, input.item.id);
        if ledger.items[s] < input.quantity {
            assert(!can_produce(&*old(ledger), m.agent as int, &m.production_cycle, m.hired_workers@.len() as int));
            return false;
        }
        k = k + 1;
    }
    let out = recipe.output;
    let so = ledger.slot(m.agent, out.item.id);
    if ledger.items[so] > u64::MAX - out.quantity {
        return false;
    }
    let ghost before = *ledger;
    let mut k: usize = 0;
    while k < recipe.inputs.len()
        invariant
            ledger.wf(),
            ledger.n_items == before.n_items,
            ledger.wallets@ == before.wallets@,
            ledger.items_to_sell@ == before.items_to_sell@,
            ledger.items@.len() == before.items@.len(),
            a0 == m.agent as int,
            recipe == &m.production_cycle,
            n == ledger.n_items as int,
            before.wf(),
            m.agent < ledger.n_agents(),
            recipe.wf(ledger.n_items as nat),
            k <= recipe.inputs@.len(),
            forall|j: int| 0 <= j < recipe.inputs@.len() ==>
                before.count(a0, #[trigger] recipe.inputs@[j].item.id as int) >= recipe.inputs@[j].quantity,
            forall|j: int| 0 <= j < k ==>
                ledger.count(a0, #[trigger] recipe.inputs@[j].item.id as int)
                    == before.count(a0, recipe.inputs@[j].item.id as int) - recipe.inputs@[j].quantity,
            forall|p: int| 0 <= p < ledger.items@.len()
                && (forall|j: int| 0 <= j < k ==> p != #[trigger] before.slot_of(a0, recipe.inputs@[j].item.id as int))
                ==> #[trigger] ledger.items@[p] == before.items@[p],
        decreases recipe.inputs@.len() - k,
    {
        let input = recipe.inputs[k];
        let s = ledger.slot(m.agent, input.item.id);
        let ghost prev = *ledger;
        proof {
            assert forall|j: int| 0 <= j < k implies
                #[trigger] before.slot_of(a0, recipe.inputs@[j].item.id as int) != s by {
                assert(recipe.inputs@[j].item != recipe.inputs@[k as int].item);
            }
            assert(prev.items@[s as int] == before.items@[s as int]);
        }
        let c = ledger.items[s];
        ledger.items.set(s, c - input.quantity);
        proof {
            assert forall|j: int| 0 <= j < k + 1 implies
                ledger.count(a0, #[trigger] recipe.inputs@[j].item.id as int)
                    == before.count(a0, recipe.inputs@[j].item.id as int) - recipe.inputs@[j].quantity by {
                if j == k {
                    assert(s == before.slot_of(a0, recipe.inputs@[j].item.id as int));
                } else {
                    assert(recipe.inputs@[j].item != recipe.inputs@[k as int].item);
                    assert(ledger.slot_of(a0, recipe.inputs@[j].item.id as int) != s);
                    let t = recipe.inputs@[j].item.id as int;
                    assert(0 <= a0 * n + t < ledger.n_agents() * n) by (nonlinear_arith)
                        requires 0 <= a0 < ledger.n_agents(), 0 <= t < n;
                    assert(ledger.count(a0, recipe.inputs@[j].item.id as int) == prev.count(a0, recipe.inputs@[j].item.id as int));
                    assert(prev.count(a0, recipe.inputs@[j].item.id as int)
                        == before.count(a0, recipe.inputs@[j].item.id as int) - recipe.inputs@[j].quantity);
                }
            }
            assert forall|p: int| 0 <= p < ledger.items@.len()
                && (forall|j: int| 0 <= j < k + 1 ==> p != #[trigger] before.slot_of(a0, recipe.inputs@[j].item.id as int))
                implies #[trigger] ledger.items@[p] == before.items@[p] by {
                assert(p != before.slot_of(a0, recipe.inputs@[k as int].item.id as int));
                assert(forall|j: int| 0 <= j < k ==> p != #[trigger] before.slot_of(a0, recipe.inputs@[j].item.id as int));
                assert(prev.items@[p] == before.items@[p]);
            }
        }
        k = k + 1;
    }
    proof {
        assert forall|j: int| 0 <= j < recipe.inputs@.len() implies
            #[trigger] before.slot_of(a0, recipe.inputs@[j].item.id as int) != so by {
            assert(recipe.inputs@[j].item != recipe.output.item);
        }
        assert(ledger.items@[so as int] == before.items@[so as int]);
    }
    let ghost mid = *ledger;
    let c = ledger.items[so];
    ledger.items.set(so, c + out.quantity);
    proof {
        assert forall|a: int, t: int| 0 <= a < before.n_agents() && 0 <= t < n implies
            #[trigger] ledger.count(a, t) == if a == a0 {
                before.count(a, t) - recipe.consumed(t) + recipe.produced(t)
            } else {
                before.count(a, t) as int
            } by {
            let p = before.slot_of(a, t);
            assert(0 <= a * n) by (nonlinear_arith) requires 0 <= a, 0 <= n;
            assert(a * n + t < before.n_agents() * n) by (nonlinear_arith)
                requires 0 <= a < before.n_agents(), 0 <= t < n;
            if exists|j: int| 0 <= j < recipe.inputs@.len() && #[trigger] recipe.inputs@[j].item.id == t {
                let j = choose|j: int| 0 <= j < recipe.inputs@.len() && #[trigger] recipe.inputs@[j].item.id == t;
                if a == a0 {
                    assert(recipe.consumed(t) == recipe.inputs@[j].quantity) by {
                        let j2 = choose|j: int| 0 <= j < recipe.inputs@.len() && #[trigger] recipe.inputs@[j].item.id == t;
                        if j2 != j {
                            assert(recipe.inputs@[j].item == recipe.inputs@[j2].item);
                        }
                    }
                    assert(mid.count(a, t) == before.count(a0, recipe.inputs@[j].item.id as int) - recipe.inputs@[j].quantity);
                    assert(t != out.item.id);
                } else {
                    assert(forall|i: int| 0 <= i < recipe.inputs@.len() ==>
                        p != #[trigger] before.slot_of(a0, recipe.inputs@[i].item.id as int)) by {
                        assert forall|i: int| 0 <= i < recipe.inputs@.len() implies
                            p != #[trigger] before.slot_of(a0, recipe.inputs@[i].item.id as int) by {
                            if p == before.slot_of(a0, recipe.inputs@[i].item.id as int) {
                                lemma_slot_distinct(n, a, t, a0, recipe.inputs@[i].item.id as int);
                            }
                        }
                    }
                    if p == so {
                        lemma_slot_distinct(n, a, t, a0, out.item.id as int);
                    }
                }
            } else {
                assert(forall|i: int| 0 <= i < recipe.inputs@.len() ==>
                    p != #[trigger] before.slot_of(a0, recipe.inputs@[i].item.id as int)) by {
                    assert forall|i: int| 0 <= i < recipe.inputs@.len() implies
                        p != #[trigger] before.slot_of(a0, recipe.inputs@[i].item.id as int) by {
                        if p == before.slot_of(a0, recipe.inputs@[i].item.id as int) {
                            lemma_slot_distinct(n, a, t, a0, recipe.inputs@[i].item.id as int);
                        }
                    }
                }
                if p == so && a != a0 {
                    lemma_slot_distinct(n, a, t, a0, out.item.id as int);
                }
                if a == a0 && t != out.item.id {
                    assert(p != so);
                }
            }
        }
    }
    proof {
        let b1 = before.books();
        let b2 = ledger.books();
        assert forall|a: int, t: int| 0 <= a < before.n_agents() && 0 <= t < n implies
            #[trigger] b2.count(a, t) == if a == a0 {
                b1.count(a, t) - recipe.consumed(t) + recipe.produced(t)
            } else {
                b1.count(a, t) as int
            } by {
            assert(ledger.count(a, t) == b2.count(a, t));
            assert(before.count(a, t) == b1.count(a, t));
        }
    }
    true
}

} // verus!
