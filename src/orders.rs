use vstd::prelude::*;
use crate::ledger::{lemma_moves_conserve_stock, lemma_slot_distinct, ItemType, Ledger};
use crate::market::{book_ok, buy_ok, sell_backed, BuyOrder, SellOrder};
use crate::money::Money;
use crate::agents::{ProductionCycle, Stack};
use crate::stats::{PriceHistory, PriceStats};

verus! {

/// The mean unit price of a record (the largest amount where the record's
/// sum is out of range for its count).
pub open spec fn mean_of(s: PriceStats) -> u64 {
    if s.count == 0 {
        0
    } else if (s.total as int) / (s.count as int) > u64::MAX {
        u64::MAX
    } else {
        ((s.total as int) / (s.count as int)) as u64
    }
}

/// The price to start from for `item`: the mean of its latest record, or
/// `fallback` where it has none.
pub open spec fn reference_price(history: Seq<PriceStats>, item: ItemType, fallback: u64) -> u64 {
    let h = history.filter(|s: PriceStats| s.item == item);
    if h.len() > 0 {
        mean_of(h.last())
    } else {
        fallback
    }
}

/// See [`reference_price`].
pub fn starting_price(history: &PriceHistory, item: ItemType, fallback: Money) -> (r: Money)
    ensures
        r.units == reference_price(history.prices@, item, fallback.units),
{
    let h = history.history_of(item);
    let n = h.len();
    if n == 0 {
        return fallback;
    }
    let last = h[n - 1];
    if last.count == 0 {
        return Money::zero();
    }
    let mean = last.total / (last.count as u128);
    if mean > u64::MAX as u128 {
        Money::new(u64::MAX)
    } else {
        Money::new(mean as u64)
    }
}

/// The first sell order of `seller` for `item`, if any.
pub fn find_sell_order(sells: &Vec<SellOrder>, seller: usize, item: ItemType) -> (r: Option<usize>)
    ensures
        r.is_none() <==> forall|j: int| 0 <= j < sells@.len() ==>
            !((#[trigger] sells@[j]).seller == seller && sells@[j].item == item),
        r.is_some() ==> r.unwrap() < sells@.len() && sells@[r.unwrap() as int].seller == seller
            && sells@[r.unwrap() as int].item == item,
{
    let mut j: usize = 0;
    while j < sells.len()
        invariant
            j <= sells@.len(),
            forall|k: int| 0 <= k < j ==> !((#[trigger] sells@[k]).seller == seller && sells@[k].item == item),
        decreases sells@.len() - j,
    {
        if sells[j].seller == seller && sells[j].item == item {
            return Some(j);
        }
        j = j + 1;
    }
    None
}

/// The first buy order of `buyer` for `item`, if any.
pub fn find_buy_order(buys: &Vec<BuyOrder>, buyer: usize, item: ItemType) -> (r: Option<usize>)
    ensures
        r.is_none() <==> forall|j: int| 0 <= j < buys@.len() ==>
            !((#[trigger] buys@[j]).buyer == buyer && buys@[j].item == item),
        r.is_some() ==> r.unwrap() < buys@.len() && buys@[r.unwrap() as int].buyer == buyer
            && buys@[r.unwrap() as int].item == item,
{
    let mut j: usize = 0;
    while j < buys.len()
        invariant
            j <= buys@.len(),
            forall|k: int| 0 <= k < j ==> !((#[trigger] buys@[k]).buyer == buyer && buys@[k].item == item),
        decreases buys@.len() - j,
    {
        if buys[j].buyer == buyer && buys[j].item == item {
            return Some(j);
        }
        j = j + 1;
    }
    None
}

/// Puts every unit of `item` that agent `seller` holds up for sale: the
/// units move from its inventory to those marked for sale, and its sell
/// order for `item` grows by as many, or a new one opens at `price` with
/// age `created`. Returns the number of units moved; nothing changes where
/// there are none, or where the marked count cannot hold them.
pub fn create_sell_order(
    ledger: &mut Ledger,
    sells: &mut Vec<SellOrder>,
    seller: usize,
    item: ItemType,
    price: Money,
    created: u64,
) -> (moved: u64)
    requires
        old(ledger).wf(),
        seller < old(ledger).n_agents(),
        item.id < old(ledger).n_items,
        forall|j: int| 0 <= j < old(sells)@.len() ==> sell_backed(&*old(ledger), #[trigger] old(sells)@[j]),
        forall|j: int, k: int| 0 <= j < old(sells)@.len() && 0 <= k < old(sells)@.len() && j != k
            ==> (#[trigger] old(sells)@[j]).seller != (#[trigger] old(sells)@[k]).seller
                || old(sells)@[j].item != old(sells)@[k].item,
    ensures
        final(ledger).wf(),
        final(ledger).n_items == old(ledger).n_items,
        final(ledger).wallets@ == old(ledger).wallets@,
        forall|u: int| 0 <= u < old(ledger).n_items ==> #[trigger] final(ledger).stock(u) == old(ledger).stock(u),
        forall|j: int| 0 <= j < final(sells)@.len() ==> sell_backed(&*final(ledger), #[trigger] final(sells)@[j]),
        forall|j: int, k: int| 0 <= j < final(sells)@.len() && 0 <= k < final(sells)@.len() && j != k
            ==> (#[trigger] final(sells)@[j]).seller != (#[trigger] final(sells)@[k]).seller
                || final(sells)@[j].item != final(sells)@[k].item,
        moved == 0 ==> *final(ledger) == *old(ledger) && final(sells)@ == old(sells)@,
        moved > 0 ==> {
            let n = old(ledger).n_items as int;
            let p = seller * n + item.id;
            &&& moved == old(ledger).count(seller as int, item.id as int)
            &&& old(ledger).count_to_sell(seller as int, item.id as int) + moved <= u64::MAX
            &&& final(ledger).items@ == old(ledger).items@.update(p, 0)
            &&& final(ledger).items_to_sell@
                == old(ledger).items_to_sell@.update(p, (old(ledger).count_to_sell(seller as int, item.id as int) + moved) as u64)
            &&& {
                ||| exists|j: int| 0 <= j < old(sells)@.len() && #[trigger] old(sells)@[j].seller == seller
                    && old(sells)@[j].item == item
                    && final(sells)@ == old(sells)@.update(j, SellOrder { quantity: (old(sells)@[j].quantity + moved) as u64, ..old(sells)@[j] })
                ||| (forall|j: int| 0 <= j < old(sells)@.len() ==>
                        !((#[trigger] old(sells)@[j]).seller == seller && old(sells)@[j].item == item))
                    && final(sells)@ == old(sells)@.push(SellOrder { seller, item, quantity: moved, price, created })
            }
        },
        moved == 0 ==> old(ledger).count(seller as int, item.id as int) == 0
            || old(ledger).count(seller as int, item.id as int) + old(ledger).count_to_sell(seller as int, item.id as int) > u64::MAX,
{
    let p = ledger.slot(seller, item.id);
    let units = ledger.items[p];
    let marked = ledger.items_to_sell[p];
    if units == 0 || marked > u64::MAX - units {
        return 0;
    }
    let ghost l0 = *ledger;
    let ghost n = l0.n_items as int;
    ledger.items.set(p, 0);
    ledger.items_to_sell.set(p, marked + units);
    proof {
        lemma_moves_conserve_stock(&l0, &*ledger, seller as int, seller as int, item.id as int, -(units as int));
        assert forall|j: int| 0 <= j < sells@.len() implies sell_backed(&*ledger, #[trigger] sells@[j]) by {
            let o = sells@[j];
            assert(sell_backed(&l0, o));
            let q = o.seller * n + o.item.id;
            assert(0 <= o.seller * n + o.item.id < l0.n_agents() * n) by (nonlinear_arith)
                requires 0 <= o.seller < l0.n_agents(), 0 <= o.item.id < n;
            if q == p {
                lemma_slot_distinct(n, o.seller as int, o.item.id as int, seller as int, item.id as int);
            }
        }
    }
    match find_sell_order(sells, seller, item) {
        Some(j) => {
            let o = sells[j];
            sells.set(j, SellOrder { quantity: o.quantity + units, ..o });
        },
        None => {
            sells.push(SellOrder { seller, item, quantity: units, price, created });
        },
    }
    units
}

/// Opens or updates the buy order of agent `buyer` for `item`, for
/// `shortfall` units at most `max_price` each. Nothing changes where the
/// shortfall is zero.
pub fn place_buy_order(buys: &mut Vec<BuyOrder>, buyer: usize, item: ItemType, shortfall: u64, max_price: Money)
    ensures
        shortfall == 0 ==> final(buys)@ == old(buys)@,
        shortfall > 0 ==> {
            ||| exists|j: int| 0 <= j < old(buys)@.len() && #[trigger] old(buys)@[j].buyer == buyer
                && old(buys)@[j].item == item
                && final(buys)@ == old(buys)@.update(j, BuyOrder { buyer, item, quantity: shortfall, max_price })
            ||| (forall|j: int| 0 <= j < old(buys)@.len() ==>
                    !((#[trigger] old(buys)@[j]).buyer == buyer && old(buys)@[j].item == item))
                && final(buys)@ == old(buys)@.push(BuyOrder { buyer, item, quantity: shortfall, max_price })
        },
{
    if shortfall == 0 {
        return;
    }
    let order = BuyOrder { buyer, item, quantity: shortfall, max_price };
    match find_buy_order(buys, buyer, item) {
        Some(j) => {
            buys.set(j, order);
        },
        None => {
            buys.push(order);
        },
    }
}

/// The most a buyer with `balance` pays per unit for `shortfall` units:
/// what it can afford for all of them, and no more than `reference`.
pub fn bid_price(balance: Money, shortfall: u64, reference: Money) -> (r: Money)
    requires
        shortfall > 0,
    ensures
        r.units * shortfall <= balance.units,
        r.units <= reference.units,
        r.units == if balance.units / shortfall < reference.units { balance.units / shortfall } else { reference.units },
{
    let afford = balance.units / shortfall;
    proof {
        assert(afford * shortfall <= balance.units) by (nonlinear_arith)
            requires afford == balance.units / shortfall, shortfall > 0;
    }
    if afford < reference.units {
        Money::new(afford)
    } else {
        proof {
            assert(reference.units * shortfall <= afford * shortfall) by (nonlinear_arith)
                requires reference.units <= afford, shortfall > 0;
        }
        reference
    }
}

} // verus!

verus! {

/// The cost of the first `k` inputs of `recipe` at their reference prices
/// (see [`reference_price`]), capped at the largest amount.
pub open spec fn inputs_cost(history: Seq<PriceStats>, inputs: Seq<Stack>, k: int, fallback: u64) -> int
    decreases k,
{
    if k <= 0 {
        0
    } else {
        let c = inputs_cost(history, inputs, k - 1, fallback) + reference_price(history, inputs[k - 1].item, fallback)
            * inputs[k - 1].quantity;
        if c > u64::MAX {
            u64::MAX as int
        } else {
            c
        }
    }
}

/// The price for a unit of `recipe`'s output with no price record of its
/// own: what its inputs cost at their reference prices, per unit of output,
/// plus `margin` (capped at the largest amount).
pub open spec fn cost_plus_margin_of(history: Seq<PriceStats>, recipe: &ProductionCycle, fallback: u64, margin: u64) -> int {
    let per_unit = if recipe.output.quantity == 0 {
        inputs_cost(history, recipe.inputs@, recipe.inputs@.len() as int, fallback)
    } else {
        inputs_cost(history, recipe.inputs@, recipe.inputs@.len() as int, fallback) / (recipe.output.quantity as int)
    };
    if per_unit + margin > u64::MAX {
        u64::MAX as int
    } else {
        per_unit + margin
    }
}

pub proof fn lemma_inputs_cost_bounds(history: Seq<PriceStats>, inputs: Seq<Stack>, k: int, fallback: u64)
    ensures
        0 <= inputs_cost(history, inputs, k, fallback) <= u64::MAX,
    decreases k,
{
    if k > 0 {
        lemma_inputs_cost_bounds(history, inputs, k - 1, fallback);
        let p = reference_price(history, inputs[k - 1].item, fallback);
        let q = inputs[k - 1].quantity;
        assert(0 <= p * q) by (nonlinear_arith)
            requires 0 <= p, 0 <= q;
    }
}

/// See [`cost_plus_margin_of`].
pub fn cost_plus_margin(history: &PriceHistory, recipe: &ProductionCycle, fallback: Money, margin: u64) -> (r: Money)
    ensures
        r.units == cost_plus_margin_of(history.prices@, recipe, fallback.units, margin),
{
    let mut cost: u64 = 0;
    let mut k: usize = 0;
    while k < recipe.inputs.len()
        invariant
            k <= recipe.inputs@.len(),
            cost == inputs_cost(history.prices@, recipe.inputs@, k as int, fallback.units),
        decreases recipe.inputs@.len() - k,
    {
        let input = recipe.inputs[k];
        let p = starting_price(history, input.item, fallback);
        proof {
            let pi = p.units as int;
            let qi = input.quantity as int;
            assert(pi * qi >= 0) by (nonlinear_arith)
                requires pi >= 0, qi >= 0;
        }
        cost = match p.units.checked_mul(input.quantity) {
            Some(part) => cost.saturating_add(part),
            None => u64::MAX,
        };
        k = k + 1;
    }
    let per_unit = if recipe.output.quantity == 0 { cost } else { cost / recipe.output.quantity };
    Money::new(per_unit.saturating_add(margin))
}

} // verus!
