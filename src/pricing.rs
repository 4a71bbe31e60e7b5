use vstd::prelude::*;
use crate::market::{BuyOrder, SellOrder};
use crate::money::Money;

verus! {

/// The asking price after one day unsold. Where open demand for the item
/// exceeds the supply on offer, the price rises by `step` (not past the
/// largest amount); otherwise it falls by `step`, but not below `floor`,
/// and a price already at or below `floor` stays.
pub open spec fn next_price(price: int, demand: int, supply: int, step: int, floor: int) -> int {
    if demand > supply {
        if price + step <= u64::MAX {
            price + step
        } else {
            u64::MAX as int
        }
    } else if price <= floor {
        price
    } else if price - step >= floor {
        price - step
    } else {
        floor
    }
}

/// The new asking price of an order unsold today, from the count of open
/// buy orders (`demand`) and open sell orders (`supply`) for its item.
pub fn adjusted_price(price: Money, demand: u64, supply: u64, step: u64, floor: u64) -> (r: Money)
    ensures
        r.units == next_price(price.units as int, demand as int, supply as int, step as int, floor as int),
{
    if demand > supply {
        Money::new(price.units.saturating_add(step))
    } else if price.units <= floor {
        price
    } else if price.units - floor >= step {
        Money::new(price.units - step)
    } else {
        Money::new(floor)
    }
}

/// A price never moves by more than `step` in one day.
pub proof fn lemma_price_step_bounded(price: u64, demand: u64, supply: u64, step: u64, floor: u64)
    ensures
        0 <= next_price(price as int, demand as int, supply as int, step as int, floor as int) <= u64::MAX,
        -(step as int) <= next_price(price as int, demand as int, supply as int, step as int, floor as int) - price
            <= step,
{
}

/// With no excess demand, an unsold order's price falls each day until
/// it reaches the floor, and never rises.
pub proof fn lemma_unsold_price_falls(price: u64, demand: u64, supply: u64, step: u64, floor: u64)
    requires
        demand <= supply,
        step > 0,
    ensures
        next_price(price as int, demand as int, supply as int, step as int, floor as int) <= price,
        price > floor ==> next_price(price as int, demand as int, supply as int, step as int, floor as int) < price,
        price > floor ==> next_price(price as int, demand as int, supply as int, step as int, floor as int) >= floor,
{
}

/// Open buy orders (quantity left) for `item`.
pub open spec fn open_buys(s: Seq<BuyOrder>, item: usize) -> int
    decreases s.len(),
{
    if s.len() == 0 {
        0
    } else {
        open_buys(s.drop_last(), item) + if s.last().item.id == item && s.last().quantity > 0 { 1int } else { 0 }
    }
}

/// Open sell orders (quantity left) for `item`.
pub open spec fn open_sells(s: Seq<SellOrder>, item: usize) -> int
    decreases s.len(),
{
    if s.len() == 0 {
        0
    } else {
        open_sells(s.drop_last(), item) + if s.last().item.id == item && s.last().quantity > 0 { 1int } else { 0 }
    }
}

pub proof fn lemma_open_sells_same(a: Seq<SellOrder>, b: Seq<SellOrder>, item: usize)
    requires
        a.len() == b.len(),
        forall|j: int| 0 <= j < a.len() ==> (#[trigger] a[j]).item == b[j].item && a[j].quantity == b[j].quantity,
    ensures
        open_sells(a, item) == open_sells(b, item),
    decreases a.len(),
{
    if a.len() > 0 {
        lemma_open_sells_same(a.drop_last(), b.drop_last(), item);
    }
}

fn count_open_buys(buys: &Vec<BuyOrder>, item: usize) -> (r: u64)
    ensures
        r == open_buys(buys@, item),
{
    let mut c: u64 = 0;
    let mut i: usize = 0;
    while i < buys.len()
        invariant
            i <= buys@.len(),
            c <= i,
            c == open_buys(buys@.take(i as int), item),
        decreases buys@.len() - i,
    {
        assert(buys@.take(i + 1).drop_last() =~= buys@.take(i as int));
        if buys[i].item.id == item && buys[i].quantity > 0 {
            c = c + 1;
        }
        i = i + 1;
    }
    assert(buys@.take(i as int) =~= buys@);
    c
}

fn count_open_sells(sells: &Vec<SellOrder>, item: usize) -> (r: u64)
    ensures
        r == open_sells(sells@, item),
{
    let mut c: u64 = 0;
    let mut i: usize = 0;
    while i < sells.len()
        invariant
            i <= sells@.len(),
            c <= i,
            c == open_sells(sells@.take(i as int), item),
        decreases sells@.len() - i,
    {
        assert(sells@.take(i + 1).drop_last() =~= sells@.take(i as int));
        if sells[i].item.id == item && sells[i].quantity > 0 {
            c = c + 1;
        }
        i = i + 1;
    }
    assert(sells@.take(i as int) =~= sells@);
    c
}

/// Reprices every sell order by [`adjusted_price`], from the open buy and
/// sell orders of its item type.
pub fn update_sell_order_prices(sells: &mut Vec<SellOrder>, buys: &Vec<BuyOrder>, step: u64, floor: u64)
    ensures
        final(sells)@.len() == old(sells)@.len(),
        forall|j: int| 0 <= j < final(sells)@.len() ==> {
            let o = old(sells)@[j];
            &&& (#[trigger] final(sells)@[j]).price.units == next_price(
                o.price.units as int,
                open_buys(buys@, o.item.id),
                open_sells(old(sells)@, o.item.id),
                step as int,
                floor as int,
            )
            &&& final(sells)@[j] == SellOrder { price: final(sells)@[j].price, ..o }
            &&& o.price.units - step <= final(sells)@[j].price.units <= o.price.units + step
        },
{
    let ghost os = sells@;
    let mut j: usize = 0;
    while j < sells.len()
        invariant
            os == old(sells)@,
            sells@.len() == os.len(),
            j <= sells@.len(),
            forall|k: int| 0 <= k < sells@.len() ==>
                (#[trigger] sells@[k]).item == os[k].item && sells@[k].quantity == os[k].quantity,
            forall|k: int| j <= k < sells@.len() ==> #[trigger] sells@[k] == os[k],
            forall|k: int| 0 <= k < j ==> {
                let o = os[k];
                &&& (#[trigger] sells@[k]).price.units == next_price(
                    o.price.units as int,
                    open_buys(buys@, o.item.id),
                    open_sells(os, o.item.id),
                    step as int,
                    floor as int,
                )
                &&& sells@[k] == SellOrder { price: sells@[k].price, ..o }
                &&& o.price.units - step <= sells@[k].price.units <= o.price.units + step
            },
        decreases sells@.len() - j,
    {
        let o = sells[j];
        let demand = count_open_buys(buys, o.item.id);
        let supply = count_open_sells(sells, o.item.id);
        proof {
            lemma_open_sells_same(sells@, os, o.item.id);
        }
        let p = adjusted_price(o.price, demand, supply, step, floor);
        proof {
            lemma_price_step_bounded(o.price.units, demand, supply, step, floor);
        }
        sells.set(j, SellOrder { price: p, ..o });
        j = j + 1;
    }
}

} // verus!

verus! {

pub proof fn lemma_open_counts_fit(buys: Seq<BuyOrder>, sells: Seq<SellOrder>, item: usize)
    ensures
        0 <= open_buys(buys, item) <= buys.len(),
        0 <= open_sells(sells, item) <= sells.len(),
    decreases buys.len() + sells.len(),
{
    if buys.len() > 0 {
        lemma_open_counts_fit(buys.drop_last(), sells, item);
    }
    if sells.len() > 0 {
        lemma_open_counts_fit(buys, sells.drop_last(), item);
    }
}

} // verus!
