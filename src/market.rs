use vstd::prelude::*;
use crate::ledger::{Books, lemma_moves_conserve_stock, lemma_slot_distinct, lemma_total_update, total, ItemType, Ledger};
use crate::money::Money;

verus! {

/// An offer by `seller` of `quantity` units of `item` at `price` each;
/// `created` orders offers by age (smaller is older).
#[derive(PartialEq, Eq, Structural, Clone, Copy, Debug)]
pub struct SellOrder {
    pub seller: usize,
    pub item: ItemType,
    pub quantity: u64,
    pub price: Money,
    pub created: u64,
}

/// A wish of `buyer` for `quantity` units of `item`, paying at most
/// `max_price` each.
#[derive(PartialEq, Eq, Structural, Clone, Copy, Debug)]
pub struct BuyOrder {
    pub buyer: usize,
    pub item: ItemType,
    pub quantity: u64,
    pub max_price: Money,
}

/// A cleared trade: `quantity` units of `item` at `price` each.
#[derive(PartialEq, Eq, Structural, Clone, Copy, Debug)]
pub struct Trade {
    pub item: ItemType,
    pub quantity: u64,
    pub price: Money,
}

/// Why a matched pair of orders did not settle. Nothing changes then.
#[derive(PartialEq, Eq, Structural, Clone, Copy, Debug)]
pub enum TradeError {
    /// One of the two orders has nothing left.
    EmptyOrder,
    /// The buyer cannot pay for the matched quantity.
    InsufficientFunds,
    /// The seller's wallet cannot hold the payment.
    WalletFull,
    /// The buyer's inventory cannot hold the goods.
    InventoryFull,
}

/// Whether sell order `s` may fill buy order `b`.
pub open spec fn is_candidate(s: SellOrder, b: BuyOrder) -> bool {
    &&& s.item == b.item
    &&& s.price.units <= b.max_price.units
    &&& s.seller != b.buyer
    &&& s.quantity > 0
}

/// Whether sell order `s` at position `i` goes before `o` at position `j`:
/// the lower price first, then the older order, then the earlier position.
pub open spec fn precedes(s: SellOrder, i: int, o: SellOrder, j: int) -> bool {
    ||| s.price.units < o.price.units
    ||| (s.price.units == o.price.units && s.created < o.created)
    ||| (s.price.units == o.price.units && s.created == o.created && i <= j)
}

/// The sell order that buy order `buy` settles with: the first by
/// [`precedes`] among the candidates, or `None` where there is none.
pub fn best_sell_order(sells: &Vec<SellOrder>, buy: &BuyOrder) -> (r: Option<usize>)
    ensures
        r.is_none() <==> forall|j: int| 0 <= j < sells@.len() ==> !is_candidate(#[trigger] sells@[j], *buy),
        r.is_some() ==> {
            let i = r.unwrap() as int;
            &&& 0 <= i < sells@.len()
            &&& is_candidate(sells@[i], *buy)
            &&& forall|j: int| 0 <= j < sells@.len() && is_candidate(#[trigger] sells@[j], *buy)
                ==> precedes(sells@[i], i, sells@[j], j)
        },
{
    let mut best: Option<usize> = None;
    let mut j: usize = 0;
    while j < sells.len()
        invariant
            j <= sells@.len(),
            best.is_none() ==> forall|k: int| 0 <= k < j ==> !is_candidate(#[trigger] sells@[k], *buy),
            best.is_some() ==> {
                let i = best.unwrap() as int;
                &&& 0 <= i < j
                &&& is_candidate(sells@[i], *buy)
                &&& forall|k: int| 0 <= k < j && is_candidate(#[trigger] sells@[k], *buy)
                    ==> precedes(sells@[i], i, sells@[k], k)
            },
        decreases sells@.len() - j,
    {
        let s = sells[j];
        if s.item == buy.item && s.price.units <= buy.max_price.units && s.seller != buy.buyer
            && s.quantity > 0 {
            match best {
                None => {
                    best = Some(j);
                },
                Some(i) => {
                    let b = sells[i];
                    if s.price.units < b.price.units || (s.price.units == b.price.units
                        && s.created < b.created) {
                        best = Some(j);
                    }
                },
            }
        }
        j = j + 1;
    }
    best
}

/// The orders and the ledger agree: each order names agents and an item
/// type of the ledger, and `seller` has marked at least `quantity` units
/// of the item for sale.
pub open spec fn sell_backed(ledger: &Ledger, s: SellOrder) -> bool {
    &&& s.seller < ledger.n_agents()
    &&& s.item.id < ledger.n_items
    &&& ledger.count_to_sell(s.seller as int, s.item.id as int) >= s.quantity
}

pub open spec fn buy_ok(ledger: &Ledger, b: BuyOrder) -> bool {
    &&& b.buyer < ledger.n_agents()
    &&& b.item.id < ledger.n_items
}

/// The quantity that buy order `b` and sell order `s` can both support.
pub open spec fn matched_quantity(b: BuyOrder, s: SellOrder) -> u64 {
    if b.quantity <= s.quantity {
        b.quantity
    } else {
        s.quantity
    }
}

/// The outcome of settling `b` against `s` on the books `bk`.
pub open spec fn outcome(bk: Books, b: BuyOrder, s: SellOrder) -> Result<Trade, TradeError> {
    let q = matched_quantity(b, s);
    let cost = s.price.units * q;
    if q == 0 {
        Err(TradeError::EmptyOrder)
    } else if cost > bk.balance(b.buyer as int) {
        Err(TradeError::InsufficientFunds)
    } else if bk.balance(s.seller as int) + cost > u64::MAX {
        Err(TradeError::WalletFull)
    } else if bk.count(b.buyer as int, b.item.id as int) + q > u64::MAX {
        Err(TradeError::InventoryFull)
    } else {
        Ok(Trade { item: s.item, quantity: q, price: s.price })
    }
}

/// The outcome of settling `b` against `s` on `ledger`.
pub open spec fn settle_outcome(ledger: &Ledger, b: BuyOrder, s: SellOrder) -> Result<Trade, TradeError> {
    outcome(ledger.books(), b, s)
}

/// The books after `q` units of `s.item` went from the goods that `s`'s
/// seller marked for sale to the inventory of `b`'s buyer, and `q` times
/// `s`'s price from the buyer's wallet to the seller's.
pub open spec fn after_trade(bk: Books, b: BuyOrder, s: SellOrder, q: u64) -> Books {
    let cost = s.price.units * q;
    let buyer = b.buyer as int;
    let seller = s.seller as int;
    let n = bk.n_items as int;
    let t = s.item.id as int;
    Books {
        n_items: bk.n_items,
        wallets: bk.wallets
            .update(buyer, Money { units: (bk.balance(buyer) - cost) as u64 })
            .update(seller, Money { units: (bk.balance(seller) + cost) as u64 }),
        items: bk.items.update(buyer * n + t, (bk.count(buyer, t) + q) as u64),
        items_to_sell: bk.items_to_sell.update(seller * n + t, (bk.count_to_sell(seller, t) - q) as u64),
    }
}

/// `l2` is `l1` after the trade of [`after_trade`].
pub open spec fn settled(l1: &Ledger, l2: &Ledger, b: BuyOrder, s: SellOrder, q: u64) -> bool {
    l2.books() == after_trade(l1.books(), b, s, q)
}

/// Settles buy order `buy` against sell order `sell` for the largest
/// quantity both support, at the seller's price. Either the payment and the
/// goods both move, or nothing changes and the error says why.
pub fn settle(ledger: &mut Ledger, buy: &mut BuyOrder, sell: &mut SellOrder) -> (r: Result<Trade, TradeError>)
    requires
        old(ledger).wf(),
        buy_ok(&*old(ledger), *old(buy)),
        sell_backed(&*old(ledger), *old(sell)),
        old(buy).item == old(sell).item,
        old(buy).buyer != old(sell).seller,
    ensures
        final(ledger).wf(),
        final(ledger).n_items == old(ledger).n_items,
        final(ledger).n_agents() == old(ledger).n_agents(),
        r == settle_outcome(&*old(ledger), *old(buy), *old(sell)),
        total(final(ledger).wallets@) == total(old(ledger).wallets@),
        forall|u: int| 0 <= u < old(ledger).n_items ==> #[trigger] final(ledger).stock(u) == old(ledger).stock(u),
        r.is_err() ==> {
            &&& *final(ledger) == *old(ledger)
            &&& *final(buy) == *old(buy)
            &&& *final(sell) == *old(sell)
        },
        r.is_ok() ==> {
            let q = r.unwrap().quantity;
            &&& q == matched_quantity(*old(buy), *old(sell))
            &&& settled(&*old(ledger), &*final(ledger), *old(buy), *old(sell), q)
            &&& *final(buy) == BuyOrder { quantity: (old(buy).quantity - q) as u64, ..*old(buy) }
            &&& *final(sell) == SellOrder { quantity: (old(sell).quantity - q) as u64, ..*old(sell) }
        },
{
    let ghost l0 = *ledger;
    let q = if buy.quantity <= sell.quantity { buy.quantity } else { sell.quantity };
    if q == 0 {
        return Err(TradeError::EmptyOrder);
    }
    let b = buy.buyer;
    let s = sell.seller;
    let t = buy.item.id;
    let payer = ledger.wallets[b];
    let payee = ledger.wallets[s];
    let cost = match sell.price.checked_mul(q) {
        Some(c) => c,
        None => {
            return Err(TradeError::InsufficientFunds);
        },
    };
    let rest = match payer.checked_sub(cost) {
        Some(r) => r,
        None => {
            return Err(TradeError::InsufficientFunds);
        },
    };
    let paid = match payee.checked_add(cost) {
        Some(p) => p,
        None => {
            return Err(TradeError::WalletFull);
        },
    };
    let bs = ledger.slot(b, t);
    let ss = ledger.slot(s, t);
    let held = ledger.items[bs];
    if held > u64::MAX - q {
        return Err(TradeError::InventoryFull);
    }
    let marked = ledger.items_to_sell[ss];
    proof {
        lemma_total_update(ledger.wallets@, b as int, rest);
        lemma_total_update(ledger.wallets@.update(b as int, rest), s as int, paid);
    }
    ledger.wallets.set(b, rest);
    ledger.wallets.set(s, paid);
    ledger.items.set(bs, held + q);
    ledger.items_to_sell.set(ss, marked - q);
    buy.quantity = buy.quantity - q;
    sell.quantity = sell.quantity - q;
    proof {
        lemma_moves_conserve_stock(&l0, &*ledger, b as int, s as int, t as int, q as int);
    }
    Ok(Trade { item: sell.item, quantity: q, price: sell.price })
}

} // verus!

verus! {

/// Every order refers to agents and item types of `ledger`, each sell order
/// is backed by units its seller marked for sale, and no seller has two
/// sell orders for one item type.
pub open spec fn book_ok(ledger: &Ledger, buys: Seq<BuyOrder>, sells: Seq<SellOrder>) -> bool {
    &&& forall|i: int| 0 <= i < buys.len() ==> buy_ok(ledger, #[trigger] buys[i])
    &&& forall|j: int| 0 <= j < sells.len() ==> sell_backed(ledger, #[trigger] sells[j])
    &&& forall|j: int, k: int| 0 <= j < sells.len() && 0 <= k < sells.len() && j != k
        ==> (#[trigger] sells[j]).seller != (#[trigger] sells[k]).seller || sells[j].item != sells[k].item
}

/// Matches each buy order, in order, with its best sell order (see
/// [`best_sell_order`]) and settles the pair. Returns the trades that
/// cleared; orders keep their remaining quantities.
pub fn execute_orders(ledger: &mut Ledger, buys: &mut Vec<BuyOrder>, sells: &mut Vec<SellOrder>) -> (trades: Vec<Trade>)
    requires
        old(ledger).wf(),
        book_ok(&*old(ledger), old(buys)@, old(sells)@),
    ensures
        final(ledger).wf(),
        final(ledger).n_items == old(ledger).n_items,
        final(ledger).n_agents() == old(ledger).n_agents(),
        total(final(ledger).wallets@) == total(old(ledger).wallets@),
        forall|u: int| 0 <= u < old(ledger).n_items ==> #[trigger] final(ledger).stock(u) == old(ledger).stock(u),
        book_ok(&*final(ledger), final(buys)@, final(sells)@),
        market_of(&*final(ledger), final(buys)@, final(sells)@, trades@)
            == match_all(market_of(&*old(ledger), old(buys)@, old(sells)@, Seq::empty()), old(buys)@.len() as int),
        final(buys)@.len() == old(buys)@.len(),
        final(sells)@.len() == old(sells)@.len(),
        forall|i: int| 0 <= i < final(buys)@.len() ==> {
            &&& (#[trigger] final(buys)@[i]).quantity <= old(buys)@[i].quantity
            &&& final(buys)@[i] == BuyOrder { quantity: final(buys)@[i].quantity, ..old(buys)@[i] }
        },
        forall|j: int| 0 <= j < final(sells)@.len() ==> {
            &&& (#[trigger] final(sells)@[j]).quantity <= old(sells)@[j].quantity
            &&& final(sells)@[j] == SellOrder { quantity: final(sells)@[j].quantity, ..old(sells)@[j] }
        },
        forall|k: int| 0 <= k < trades@.len() ==> (#[trigger] trades@[k]).quantity > 0,
{
    let ghost ob = buys@;
    let ghost os = sells@;
    let mut trades: Vec<Trade> = Vec::new();
    let mut i: usize = 0;
    while i < buys.len()
        invariant
            ledger.wf(),
            ledger.n_items == old(ledger).n_items,
            ledger.n_agents() == old(ledger).n_agents(),
            total(ledger.wallets@) == total(old(ledger).wallets@),
            forall|u: int| 0 <= u < old(ledger).n_items ==> #[trigger] ledger.stock(u) == old(ledger).stock(u),
            book_ok(&*ledger, buys@, sells@),
            market_of(&*ledger, buys@, sells@, trades@)
                == match_all(market_of(&*old(ledger), old(buys)@, old(sells)@, Seq::empty()), i as int),
            ob == old(buys)@,
            os == old(sells)@,
            buys@.len() == ob.len(),
            sells@.len() == os.len(),
            i <= buys@.len(),
            forall|k: int| 0 <= k < buys@.len() ==> {
                &&& (#[trigger] buys@[k]).quantity <= ob[k].quantity
                &&& buys@[k] == BuyOrder { quantity: buys@[k].quantity, ..ob[k] }
            },
            forall|j: int| 0 <= j < sells@.len() ==> {
                &&& (#[trigger] sells@[j]).quantity <= os[j].quantity
                &&& sells@[j] == SellOrder { quantity: sells@[j].quantity, ..os[j] }
            },
            forall|k: int| 0 <= k < trades@.len() ==> (#[trigger] trades@[k]).quantity > 0,
        decreases buys@.len() - i,
    {
        let ghost t0 = trades@;
        let r = match_buy_order(ledger, buys, sells, i);
        match r {
            Some(tr) => {
                trades.push(tr);
            },
            None => {},
        }
        proof {
            assert(trades@ == match r { Some(tr) => t0.push(tr), None => t0 });
        }
        i = i + 1;
    }
    trades
}

} // verus!

verus! {

pub open spec fn sell_open(o: SellOrder) -> bool {
    o.quantity > 0
}

pub open spec fn buy_open(o: BuyOrder) -> bool {
    o.quantity > 0
}

/// The sell orders with quantity left, in their order.
pub fn retire_filled_sell_orders(sells: &Vec<SellOrder>) -> (r: Vec<SellOrder>)
    ensures
        r@ == sells@.filter(|o: SellOrder| sell_open(o)),
{
    let mut r: Vec<SellOrder> = Vec::new();
    let mut i: usize = 0;
    while i < sells.len()
        invariant
            i <= sells@.len(),
            r@ == sells@.take(i as int).filter(|o: SellOrder| sell_open(o)),
        decreases sells@.len() - i,
    {
        proof {
            assert(sells@.take(i + 1) =~= sells@.take(i as int).push(sells@[i as int]));
            sells@.take(i as int).lemma_filter_push(sells@[i as int], |o: SellOrder| sell_open(o));
        }
        let o = sells[i];
        if o.quantity > 0 {
            r.push(o);
        }
        i = i + 1;
    }
    assert(sells@.take(i as int) =~= sells@);
    r
}

/// The buy orders with quantity left, in their order.
pub fn retire_filled_buy_orders(buys: &Vec<BuyOrder>) -> (r: Vec<BuyOrder>)
    ensures
        r@ == buys@.filter(|o: BuyOrder| buy_open(o)),
{
    let mut r: Vec<BuyOrder> = Vec::new();
    let mut i: usize = 0;
    while i < buys.len()
        invariant
            i <= buys@.len(),
            r@ == buys@.take(i as int).filter(|o: BuyOrder| buy_open(o)),
        decreases buys@.len() - i,
    {
        proof {
            assert(buys@.take(i + 1) =~= buys@.take(i as int).push(buys@[i as int]));
            buys@.take(i as int).lemma_filter_push(buys@[i as int], |o: BuyOrder| buy_open(o));
        }
        let o = buys[i];
        if o.quantity > 0 {
            r.push(o);
        }
        i = i + 1;
    }
    assert(buys@.take(i as int) =~= buys@);
    r
}

} // verus!

verus! {

pub open spec fn distinct_offers(s: Seq<SellOrder>) -> bool {
    forall|j: int, k: int| 0 <= j < s.len() && 0 <= k < s.len() && j != k
        ==> (#[trigger] s[j]).seller != (#[trigger] s[k]).seller || s[j].item != s[k].item
}

/// Dropping orders keeps the offers of distinct (seller, item) pairs.
pub proof fn lemma_filter_distinct_offers(s: Seq<SellOrder>, p: spec_fn(SellOrder) -> bool)
    requires
        distinct_offers(s),
    ensures
        distinct_offers(s.filter(p)),
    decreases s.len(),
{
    reveal(Seq::filter);
    if s.len() > 0 {
        let d = s.drop_last();
        assert(distinct_offers(d)) by {
            assert forall|j: int, k: int| 0 <= j < d.len() && 0 <= k < d.len() && j != k
                implies (#[trigger] d[j]).seller != (#[trigger] d[k]).seller || d[j].item != d[k].item by {
                assert(d[j] == s[j] && d[k] == s[k]);
            }
        }
        lemma_filter_distinct_offers(d, p);
        if p(s.last()) {
            let f = d.filter(p);
            let g = f.push(s.last());
            assert(s.filter(p) == g);
            assert forall|j: int, k: int| 0 <= j < g.len() && 0 <= k < g.len() && j != k
                implies (#[trigger] g[j]).seller != (#[trigger] g[k]).seller || g[j].item != g[k].item by {
                if j == f.len() || k == f.len() {
                    let o = if j == f.len() { k } else { j };
                    lemma_filter_from(d, p, o);
                    assert(g[o] == f[o]);
                    let x = choose|x: int| 0 <= x < d.len() && d[x] == g[o];
                    assert(s[x] == g[o]);
                    assert(s[s.len() - 1] == s.last());
                } else {
                    assert(g[j] == f[j] && g[k] == f[k]);
                }
            }
        }
    }
}

} // verus!

verus! {

/// Every element that a filter keeps comes from the sequence.
pub proof fn lemma_filter_from<A>(s: Seq<A>, p: spec_fn(A) -> bool, i: int)
    requires
        0 <= i < s.filter(p).len(),
    ensures
        exists|k: int| 0 <= k < s.len() && s[k] == s.filter(p)[i],
    decreases s.len(),
{
    reveal(Seq::filter);
    let d = s.drop_last();
    let f = d.filter(p);
    if i < f.len() {
        lemma_filter_from(d, p, i);
        let k = choose|k: int| 0 <= k < d.len() && d[k] == f[i];
        assert(s[k] == d[k]);
        if p(s.last()) {
            assert(s.filter(p)[i] == f.push(s.last())[i]);
        }
    } else {
        assert(s[s.len() - 1] == s.filter(p)[i]);
    }
}

} // verus!

verus! {

/// Whether `j` is the sell order that buy order `b` settles with: a
/// candidate that goes before every other candidate.
pub open spec fn is_best(sells: Seq<SellOrder>, b: BuyOrder, j: int) -> bool {
    &&& 0 <= j < sells.len()
    &&& is_candidate(sells[j], b)
    &&& forall|k: int| 0 <= k < sells.len() && is_candidate(#[trigger] sells[k], b) ==> precedes(sells[j], j, sells[k], k)
}

/// There is at most one best sell order.
pub proof fn lemma_best_unique(sells: Seq<SellOrder>, b: BuyOrder, j: int, k: int)
    requires
        is_best(sells, b, j),
        is_best(sells, b, k),
    ensures
        j == k,
{
    assert(precedes(sells[j], j, sells[k], k));
    assert(precedes(sells[k], k, sells[j], j));
}

/// The books and the order book while the orders are being matched, with
/// the trades cleared so far.
pub struct MarketState {
    pub books: Books,
    pub buys: Seq<BuyOrder>,
    pub sells: Seq<SellOrder>,
    pub trades: Seq<Trade>,
}

/// Matching buy order `i`: where it has a best sell order and the two
/// settle, the trade is applied to the books and both orders, and recorded;
/// otherwise nothing changes.
pub open spec fn match_step(st: MarketState, i: int) -> MarketState {
    let b = st.buys[i];
    if exists|j: int| is_best(st.sells, b, j) {
        let j = choose|j: int| is_best(st.sells, b, j);
        let s = st.sells[j];
        match outcome(st.books, b, s) {
            Ok(tr) => MarketState {
                books: after_trade(st.books, b, s, tr.quantity),
                buys: st.buys.update(i, BuyOrder { quantity: (b.quantity - tr.quantity) as u64, ..b }),
                sells: st.sells.update(j, SellOrder { quantity: (s.quantity - tr.quantity) as u64, ..s }),
                trades: st.trades.push(tr),
            },
            Err(_) => st,
        }
    } else {
        st
    }
}

/// Matching buy orders `0..k`, in order.
pub open spec fn match_all(st: MarketState, k: int) -> MarketState
    decreases k,
{
    if k <= 0 {
        st
    } else {
        match_step(match_all(st, k - 1), k - 1)
    }
}

pub open spec fn market_of(ledger: &Ledger, buys: Seq<BuyOrder>, sells: Seq<SellOrder>, trades: Seq<Trade>) -> MarketState {
    MarketState { books: ledger.books(), buys, sells, trades }
}

/// Matches buy order `i` with its best sell order and settles the pair.
/// Where there is no candidate, or the settlement fails, nothing changes
/// and `None` is returned.
pub fn match_buy_order(ledger: &mut Ledger, buys: &mut Vec<BuyOrder>, sells: &mut Vec<SellOrder>, i: usize) -> (r: Option<Trade>)
    requires
        old(ledger).wf(),
        book_ok(&*old(ledger), old(buys)@, old(sells)@),
        i < old(buys)@.len(),
    ensures
        final(ledger).wf(),
        final(ledger).n_items == old(ledger).n_items,
        final(ledger).n_agents() == old(ledger).n_agents(),
        total(final(ledger).wallets@) == total(old(ledger).wallets@),
        forall|u: int| 0 <= u < old(ledger).n_items ==> #[trigger] final(ledger).stock(u) == old(ledger).stock(u),
        book_ok(&*final(ledger), final(buys)@, final(sells)@),
        r.is_none() ==> {
            &&& *final(ledger) == *old(ledger)
            &&& final(buys)@ == old(buys)@
            &&& final(sells)@ == old(sells)@
        },
        (forall|j: int| 0 <= j < old(sells)@.len() ==> !is_candidate(#[trigger] old(sells)@[j], old(buys)@[i as int]))
            ==> r.is_none(),
        r.is_some() ==> exists|j: int| is_best(old(sells)@, old(buys)@[i as int], j),
        forall|t: Seq<Trade>| #[trigger] match_step(market_of(&*old(ledger), old(buys)@, old(sells)@, t), i as int)
            == market_of(&*final(ledger), final(buys)@, final(sells)@, match r { Some(tr) => t.push(tr), None => t }),
        forall|j: int| is_best(old(sells)@, old(buys)@[i as int], j) ==> {
            let b = old(buys)@[i as int];
            let s = old(sells)@[j];
            let q = matched_quantity(b, s);
            &&& r == settle_outcome(&*old(ledger), b, s).ok()
            &&& r.is_some() ==> {
                &&& settled(&*old(ledger), &*final(ledger), b, s, q)
                &&& final(buys)@ == old(buys)@.update(i as int, BuyOrder { quantity: (b.quantity - q) as u64, ..b })
                &&& final(sells)@ == old(sells)@.update(j, SellOrder { quantity: (s.quantity - q) as u64, ..s })
            }
        },
{
    let b = buys[i];
    match best_sell_order(sells, &b) {
        Some(j) => {
            proof {
                assert(is_best(sells@, b, j as int));
                assert forall|x: int| is_best(sells@, b, x) implies x == j by {
                    lemma_best_unique(sells@, b, x, j as int);
                }
            }
            let mut bb = b;
            let mut s = sells[j];
            let ghost l0 = *ledger;
            assert(sell_backed(&*ledger, sells@[j as int]));
            assert(buy_ok(&*ledger, buys@[i as int]));
            match settle(ledger, &mut bb, &mut s) {
                Ok(tr) => {
                    let ghost n = l0.n_items as int;
                    proof {
                        assert(ledger.items_to_sell@ == l0.items_to_sell@.update(
                            s.seller * n + s.item.id, (l0.count_to_sell(s.seller as int, s.item.id as int) - tr.quantity) as u64));
                        assert forall|k: int| 0 <= k < sells@.len() implies
                            sell_backed(&*ledger, #[trigger] sells@.update(j as int, s)[k]) by {
                            let o = sells@[k];
                            assert(sell_backed(&l0, o));
                            assert(0 <= s.seller * n + s.item.id < l0.n_agents() * n) by (nonlinear_arith)
                                requires 0 <= s.seller < l0.n_agents(), 0 <= s.item.id < n;
                            if k != j {
                                let p = o.seller * n + o.item.id;
                                let ps = s.seller * n + s.item.id;
                                assert(0 <= p < l0.items_to_sell@.len()) by {
                                    assert(0 <= o.seller * n + o.item.id < l0.n_agents() * n) by (nonlinear_arith)
                                        requires 0 <= o.seller < l0.n_agents(), 0 <= o.item.id < n;
                                }
                                if p == ps {
                                    lemma_slot_distinct(n, o.seller as int, o.item.id as int, s.seller as int, s.item.id as int);
                                    assert(sells@[j as int].seller == o.seller && sells@[j as int].item == o.item);
                                }
                                assert(p != ps);
                                assert(ledger.items_to_sell@[p] == l0.items_to_sell@[p]);
                                assert(sells@.update(j as int, s)[k] == o);
                            } else {
                                assert(sells@.update(j as int, s)[k] == s);
                                assert(s.quantity == o.quantity - tr.quantity);
                                assert(ledger.count_to_sell(s.seller as int, s.item.id as int)
                                    == l0.count_to_sell(o.seller as int, o.item.id as int) - tr.quantity);
                            }
                        }
                        assert forall|k: int| 0 <= k < buys@.len() implies
                            buy_ok(&*ledger, #[trigger] buys@.update(i as int, bb)[k]) by {
                            assert(buy_ok(&l0, buys@[k]));
                        }
                    }
                    buys.set(i, bb);
                    sells.set(j, s);
                    Some(tr)
                },
                Err(_) => None,
            }
        },
        None => None,
    }
}

} // verus!
