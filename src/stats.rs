use vstd::prelude::*;
use crate::ledger::ItemType;
use crate::market::Trade;
use crate::money::Money;

verus! {

/// The cleared unit prices of one item type on one day: how many trades,
/// the lowest and highest unit price, and their sum.
#[derive(PartialEq, Eq, Structural, Clone, Copy, Debug)]
pub struct PriceStats {
    pub item: ItemType,
    pub day: u64,
    pub count: u64,
    pub min: Money,
    pub max: Money,
    pub total: u128,
}

/// Every day's price record, oldest first.
pub struct PriceHistory {
    pub prices: Vec<PriceStats>,
}

/// The unit prices of the trades in `s` of item type `item`, in order.
pub open spec fn unit_prices(s: Seq<Trade>, item: usize) -> Seq<u64>
    decreases s.len(),
{
    if s.len() == 0 {
        Seq::empty()
    } else if s.last().item.id == item {
        unit_prices(s.drop_last(), item).push(s.last().price.units)
    } else {
        unit_prices(s.drop_last(), item)
    }
}

pub open spec fn sum_of(s: Seq<u64>) -> int
    decreases s.len(),
{
    if s.len() == 0 {
        0
    } else {
        sum_of(s.drop_last()) + s.last()
    }
}

pub open spec fn min_of(s: Seq<u64>) -> u64
    decreases s.len(),
{
    if s.len() <= 1 {
        s[0]
    } else if s.last() < min_of(s.drop_last()) {
        s.last()
    } else {
        min_of(s.drop_last())
    }
}

pub open spec fn max_of(s: Seq<u64>) -> u64
    decreases s.len(),
{
    if s.len() <= 1 {
        s[0]
    } else if s.last() > max_of(s.drop_last()) {
        s.last()
    } else {
        max_of(s.drop_last())
    }
}

/// The record of day `day` for `item`, from that day's trades.
pub open spec fn stats_of(trades: Seq<Trade>, item: usize, day: u64) -> PriceStats {
    let p = unit_prices(trades, item);
    PriceStats {
        item: ItemType { id: item },
        day,
        count: p.len() as u64,
        min: Money { units: min_of(p) },
        max: Money { units: max_of(p) },
        total: sum_of(p) as u128,
    }
}

/// The records that day `day` adds for item types `0..k`: one for each
/// item type that traded, in catalog order.
pub open spec fn day_records(trades: Seq<Trade>, day: u64, k: int) -> Seq<PriceStats>
    decreases k,
{
    if k <= 0 {
        Seq::empty()
    } else if unit_prices(trades, (k - 1) as usize).len() > 0 {
        day_records(trades, day, k - 1).push(stats_of(trades, (k - 1) as usize, day))
    } else {
        day_records(trades, day, k - 1)
    }
}

pub proof fn lemma_unit_prices_len(s: Seq<Trade>, item: usize)
    ensures
        unit_prices(s, item).len() <= s.len(),
    decreases s.len(),
{
    if s.len() > 0 {
        lemma_unit_prices_len(s.drop_last(), item);
    }
}

pub proof fn lemma_sum_bound(s: Seq<u64>)
    ensures
        0 <= sum_of(s) <= s.len() * (u64::MAX as int),
    decreases s.len(),
{
    if s.len() > 0 {
        lemma_sum_bound(s.drop_last());
    }
}

pub proof fn lemma_min_max_bounds(s: Seq<u64>)
    requires
        s.len() > 0,
    ensures
        forall|k: int| 0 <= k < s.len() ==> min_of(s) <= #[trigger] s[k] && s[k] <= max_of(s),
        s.contains(min_of(s)),
        s.contains(max_of(s)),
    decreases s.len(),
{
    if s.len() > 1 {
        lemma_min_max_bounds(s.drop_last());
        assert forall|k: int| 0 <= k < s.len() implies min_of(s) <= #[trigger] s[k] && s[k] <= max_of(s) by {
            if k < s.len() - 1 {
                assert(s[k] == s.drop_last()[k]);
            }
        }
        let m = min_of(s.drop_last());
        let x = max_of(s.drop_last());
        if s.last() >= m {
            let k = choose|k: int| 0 <= k < s.drop_last().len() && s.drop_last()[k] == m;
            assert(s[k] == m);
        }
        if s.last() <= x {
            let k = choose|k: int| 0 <= k < s.drop_last().len() && s.drop_last()[k] == x;
            assert(s[k] == x);
        }
        assert(s[s.len() - 1] == s.last());
    } else {
        assert(s[0] == s[0]);
    }
}

/// The record for `item` on day `day`, or `None` where no trade of it
/// cleared.
pub fn aggregate(trades: &Vec<Trade>, item: usize, day: u64) -> (r: Option<PriceStats>)
    ensures
        r.is_none() <==> unit_prices(trades@, item).len() == 0,
        r.is_some() ==> r.unwrap() == stats_of(trades@, item, day),
{
    let mut count: u64 = 0;
    let mut min: u64 = 0;
    let mut max: u64 = 0;
    let mut total: u128 = 0;
    let mut i: usize = 0;
    while i < trades.len()
        invariant
            i <= trades@.len(),
            count == unit_prices(trades@.take(i as int), item).len(),
            count <= i,
            total == sum_of(unit_prices(trades@.take(i as int), item)),
            count > 0 ==> min == min_of(unit_prices(trades@.take(i as int), item)),
            count > 0 ==> max == max_of(unit_prices(trades@.take(i as int), item)),
        decreases trades@.len() - i,
    {
        let ghost pre = trades@.take(i as int);
        assert(trades@.take(i + 1).drop_last() =~= pre);
        let t = trades[i];
        assert(trades@.take(i + 1).last() == t);
        let ghost up = unit_prices(pre, item);
        if t.item.id == item {
            assert(unit_prices(trades@.take(i + 1), item) == up.push(t.price.units));
            assert(up.push(t.price.units).drop_last() =~= up);
            proof {
                lemma_unit_prices_len(pre, item);
                lemma_sum_bound(unit_prices(pre, item));
                assert(count * (u64::MAX as int) <= i * (u64::MAX as int)) by (nonlinear_arith)
                    requires count <= i;
            }
            let p = t.price.units;
            if count == 0 || p < min {
                min = p;
            }
            if count == 0 || p > max {
                max = p;
            }
            total = total + p as u128;
            count = count + 1;
        }
        i = i + 1;
    }
    assert(trades@.take(i as int) =~= trades@);
    if count == 0 {
        None
    } else {
        Some(PriceStats { item: ItemType { id: item }, day, count, min: Money::new(min), max: Money::new(max), total })
    }
}

impl PriceHistory {
    pub fn new() -> (r: PriceHistory)
        ensures
            r.prices@.len() == 0,
    {
        PriceHistory { prices: Vec::new() }
    }

    /// The records of `item`, oldest first.
    pub fn history_of(&self, item: ItemType) -> (r: Vec<PriceStats>)
        ensures
            r@ == self.prices@.filter(|s: PriceStats| s.item == item),
    {
        let mut r: Vec<PriceStats> = Vec::new();
        let mut i: usize = 0;
        while i < self.prices.len()
            invariant
                i <= self.prices@.len(),
                r@ == self.prices@.take(i as int).filter(|s: PriceStats| s.item == item),
            decreases self.prices@.len() - i,
        {
            proof {
                assert(self.prices@.take(i + 1) =~= self.prices@.take(i as int).push(self.prices@[i as int]));
                self.prices@.take(i as int).lemma_filter_push(self.prices@[i as int], |s: PriceStats| s.item == item);
            }
            let s = self.prices[i];
            if s.item == item {
                r.push(s);
            }
            i = i + 1;
        }
        assert(self.prices@.take(i as int) =~= self.prices@);
        r
    }
}

/// Appends day `day`'s records: for each item type of the catalog of
/// `n_items`, in order, the aggregate of its cleared trades, where any
/// cleared.
pub fn add_sell_orders_to_history(history: &mut PriceHistory, trades: &Vec<Trade>, day: u64, n_items: usize)
    ensures
        final(history).prices@ == old(history).prices@ + day_records(trades@, day, n_items as int),
{
    let mut k: usize = 0;
    while k < n_items
        invariant
            k <= n_items,
            history.prices@ == old(history).prices@ + day_records(trades@, day, k as int),
        decreases n_items - k,
    {
        match aggregate(trades, k, day) {
            Some(s) => {
                history.prices.push(s);
                assert(history.prices@ =~= old(history).prices@ + day_records(trades@, day, k + 1));
            },
            None => {
                assert(history.prices@ =~= old(history).prices@ + day_records(trades@, day, k + 1));
            },
        }
        k = k + 1;
    }
}

} // verus!
