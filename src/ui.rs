use vstd::prelude::*;
use crate::ledger::ItemType;
use crate::market::{BuyOrder, SellOrder};
use crate::money::Money;

verus! {

/// The column by which the manufacturers' table is ordered.
#[derive(PartialEq, Eq, Structural, Clone, Copy, Debug)]
pub enum ManufacturerSort {
    Name,
    Money,
    Workers,
    Items,
    ItemsToSell,
    OnMarket,
    BuyOrders,
    Production,
}

/// The figures of one manufacturer shown in the table.
#[derive(PartialEq, Eq, Structural, Clone, Copy, Debug)]
pub struct ManufacturerFigures {
    pub money: Money,
    pub workers: u64,
    pub items: u64,
    pub items_to_sell: u64,
    pub on_market: u64,
    pub buy_orders: u64,
}

/// The figure that a numeric column orders by (largest first), or `None`
/// for the columns ordered by text.
pub open spec fn figure(sort: ManufacturerSort, f: ManufacturerFigures) -> Option<u64> {
    match sort {
        ManufacturerSort::Name => None,
        ManufacturerSort::Production => None,
        ManufacturerSort::Money => Some(f.money.units),
        ManufacturerSort::Workers => Some(f.workers),
        ManufacturerSort::Items => Some(f.items),
        ManufacturerSort::ItemsToSell => Some(f.items_to_sell),
        ManufacturerSort::OnMarket => Some(f.on_market),
        ManufacturerSort::BuyOrders => Some(f.buy_orders),
    }
}

/// See [`figure`].
pub fn sort_figure(sort: ManufacturerSort, f: &ManufacturerFigures) -> (r: Option<u64>)
    ensures
        r == figure(sort, *f),
{
    match sort {
        ManufacturerSort::Name => None,
        ManufacturerSort::Production => None,
        ManufacturerSort::Money => Some(f.money.units),
        ManufacturerSort::Workers => Some(f.workers),
        ManufacturerSort::Items => Some(f.items),
        ManufacturerSort::ItemsToSell => Some(f.items_to_sell),
        ManufacturerSort::OnMarket => Some(f.on_market),
        ManufacturerSort::BuyOrders => Some(f.buy_orders),
    }
}

pub open spec fn sells_of(s: Seq<SellOrder>, seller: usize) -> int
    decreases s.len(),
{
    if s.len() == 0 {
        0
    } else {
        sells_of(s.drop_last(), seller) + if s.last().seller == seller { 1int } else { 0 }
    }
}

pub open spec fn buys_for(s: Seq<BuyOrder>, item: ItemType) -> int
    decreases s.len(),
{
    if s.len() == 0 {
        0
    } else {
        buys_for(s.drop_last(), item) + if s.last().item == item { 1int } else { 0 }
    }
}

/// How many sell orders `seller` has on the market.
pub fn count_sell_orders_of(sells: &Vec<SellOrder>, seller: usize) -> (r: u64)
    ensures
        r == sells_of(sells@, seller),
{
    let mut c: u64 = 0;
    let mut i: usize = 0;
    while i < sells.len()
        invariant
            i <= sells@.len(),
            c <= i,
            c == sells_of(sells@.take(i as int), seller),
        decreases sells@.len() - i,
    {
        assert(sells@.take(i + 1).drop_last() =~= sells@.take(i as int));
        if sells[i].seller == seller {
            c = c + 1;
        }
        i = i + 1;
    }
    assert(sells@.take(i as int) =~= sells@);
    c
}

/// How many buy orders ask for `item`.
pub fn count_buy_orders_for(buys: &Vec<BuyOrder>, item: ItemType) -> (r: u64)
    ensures
        r == buys_for(buys@, item),
{
    let mut c: u64 = 0;
    let mut i: usize = 0;
    while i < buys.len()
        invariant
            i <= buys@.len(),
            c <= i,
            c == buys_for(buys@.take(i as int), item),
        decreases buys@.len() - i,
    {
        assert(buys@.take(i + 1).drop_last() =~= buys@.take(i as int));
        if buys[i].item == item {
            c = c + 1;
        }
        i = i + 1;
    }
    assert(buys@.take(i as int) =~= buys@);
    c
}

} // verus!
