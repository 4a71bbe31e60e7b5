use vstd::prelude::*;
use crate::agents::Manufacturer;
use crate::clock::{should_advance_day, Days};
use crate::ledger::{books_stock, lemma_books_stock, lemma_two_wallets_bounded, total, Books, Ledger};
use crate::market::{
    match_all, MarketState,
    book_ok, buy_ok, buy_open, execute_orders, lemma_filter_distinct_offers, lemma_filter_from, sell_backed, sell_open, retire_filled_buy_orders, retire_filled_sell_orders, BuyOrder, SellOrder, Trade,
};
use crate::money::Money;
use crate::orders::{bid_price, cost_plus_margin, create_sell_order, place_buy_order, starting_price};
use crate::payroll::{is_paid, payroll, payroll_rel, roster_ok};
use crate::pricing::{
    lemma_open_counts_fit, lemma_price_step_bounded, lemma_unsold_price_falls, next_price, open_buys, open_sells,
    update_sell_order_prices,
};
use crate::production::{produce, produced_rel};
use crate::stats::{add_sell_orders_to_history, day_records, PriceHistory, PriceStats};

verus! {

/// The whole simulation: the calendar, the books, the manufacturers, the
/// order book, the price record, and the pricing rule.
pub struct Economy {
    pub days: Days,
    pub ledger: Ledger,
    pub manufacturers: Vec<Manufacturer>,
    pub buys: Vec<BuyOrder>,
    pub sells: Vec<SellOrder>,
    pub history: PriceHistory,
    pub next_order: u64,
    pub price_step: u64,
    pub price_floor: u64,
    /// The unit price of an input that has no price record yet.
    pub default_price: Money,
    /// What a seller adds to its inputs' cost when its output has no price
    /// record yet.
    pub price_margin: u64,
    /// For each manufacturer, whether each of its workers was paid on the
    /// latest day.
    pub last_payroll: Vec<Vec<bool>>,
}

pub open spec fn manufacturers_ok(ledger: &Ledger, ms: Seq<Manufacturer>) -> bool {
    forall|i: int| 0 <= i < ms.len() ==> {
        &&& (#[trigger] ms[i]).agent < ledger.n_agents()
        &&& ms[i].production_cycle.wf(ledger.n_items as nat)
        &&& roster_ok(ledger, ms[i].agent as int, ms[i].hired_workers@)
    }
}


/// The state of an [`Economy`] that a day changes, as mathematical values.
pub struct World {
    pub books: Books,
    pub buys: Seq<BuyOrder>,
    pub sells: Seq<SellOrder>,
    pub history: Seq<PriceStats>,
}

/// `bs` are the books before and after each manufacturer of `ms`, in
/// order, paid its workers.
pub open spec fn payroll_chain(bs: Seq<Books>, ms: Seq<Manufacturer>) -> bool {
    &&& bs.len() == ms.len() + 1
    &&& forall|k: int| 0 <= k < ms.len() ==> payroll_rel(#[trigger] bs[k], bs[k + 1], ms[k].agent as int, ms[k].hired_workers@)
}

/// `bs` are the books before and after each manufacturer of `ms`, in
/// order, ran one production cycle.
pub open spec fn production_chain(bs: Seq<Books>, ms: Seq<Manufacturer>, n_agents: int) -> bool {
    &&& bs.len() == ms.len() + 1
    &&& forall|k: int| 0 <= k < ms.len() ==> produced_rel(#[trigger] bs[k], bs[k + 1], n_agents, ms[k])
}

/// `w2` is `w1` after every buy order was matched in order (see
/// [`match_all`]) and the filled orders were dropped; `trades` cleared.
pub open spec fn trade_rel(w1: World, w2: World, trades: Seq<Trade>) -> bool {
    let m = match_all(MarketState { books: w1.books, buys: w1.buys, sells: w1.sells, trades: Seq::empty() }, w1.buys.len() as int);
    &&& w2.books == m.books
    &&& w2.buys == m.buys.filter(|o: BuyOrder| buy_open(o))
    &&& w2.sells == m.sells.filter(|o: SellOrder| sell_open(o))
    &&& trades == m.trades
    &&& w2.history == w1.history
}

/// `w2` is `w1` after new orders were opened: no money moved, no unit of any
/// item type appeared or vanished, and the sell orders already open kept
/// their place, seller, item, price and age, and only grew.
pub open spec fn create_rel(w1: World, w2: World, n_agents: int) -> bool {
    &&& w2.books.n_items == w1.books.n_items
    &&& w2.books.wallets == w1.books.wallets
    &&& forall|u: int| 0 <= u < w1.books.n_items ==> #[trigger] books_stock(w2.books, u, n_agents) == books_stock(w1.books, u, n_agents)
    &&& w2.sells.len() >= w1.sells.len()
    &&& forall|j: int| 0 <= j < w1.sells.len() ==> {
        &&& (#[trigger] w2.sells[j]).quantity >= w1.sells[j].quantity
        &&& w2.sells[j] == SellOrder { quantity: w2.sells[j].quantity, ..w1.sells[j] }
    }
    &&& w2.history == w1.history
}

/// `w2` is `w1` after every sell order was repriced (see [`next_price`]).
pub open spec fn reprice_rel(w1: World, w2: World, step: u64, floor: u64) -> bool {
    &&& w2.books == w1.books
    &&& w2.buys == w1.buys
    &&& w2.history == w1.history
    &&& w2.sells.len() == w1.sells.len()
    &&& forall|j: int| 0 <= j < w1.sells.len() ==> {
        let o = w1.sells[j];
        #[trigger] w2.sells[j] == SellOrder {
            price: Money {
                units: next_price(o.price.units as int, open_buys(w1.buys, o.item.id), open_sells(w1.sells, o.item.id), step as int, floor as int) as u64,
            },
            ..o
        }
    }
}

/// `flags` says, for each manufacturer of `ms` and each of its workers,
/// whether the payroll that took the books from `bs[k]` paid that worker.
pub open spec fn payroll_flags(flags: Seq<Seq<bool>>, bs: Seq<Books>, ms: Seq<Manufacturer>) -> bool {
    &&& flags.len() == ms.len()
    &&& forall|k: int| 0 <= k < ms.len() ==> {
        &&& (#[trigger] flags[k]).len() == ms[k].hired_workers@.len()
        &&& forall|x: int| 0 <= x < flags[k].len() ==> #[trigger] flags[k][x] == is_paid(
            bs[k].balance(ms[k].agent as int) as int, ms[k].hired_workers@, x)
    }
}

/// The states that one day passed through.
pub struct DayTrace {
    pub paid: Seq<Books>,
    pub traded: World,
    pub produced: Seq<Books>,
    pub created: World,
    pub repriced: World,
}

/// One day, from `w0` to `w1`, went through the phases in order: each
/// manufacturer's payroll, matching, each manufacturer's production, new
/// orders, repricing, and the day's price record.
pub open spec fn day_done(
    w0: World,
    ms: Seq<Manufacturer>,
    n_agents: int,
    day: u64,
    step: u64,
    floor: u64,
    w1: World,
    trades: Seq<Trade>,
    flags: Seq<Seq<bool>>,
    tr: DayTrace,
) -> bool {
    &&& payroll_chain(tr.paid, ms)
    &&& payroll_flags(flags, tr.paid, ms)
    &&& tr.paid[0] == w0.books
    &&& trade_rel(World { books: tr.paid.last(), ..w0 }, tr.traded, trades)
    &&& production_chain(tr.produced, ms, n_agents)
    &&& tr.produced[0] == tr.traded.books
    &&& create_rel(World { books: tr.produced.last(), ..tr.traded }, tr.created, n_agents)
    &&& reprice_rel(tr.created, tr.repriced, step, floor)
    &&& w1 == World {
        history: tr.repriced.history + day_records(trades, day, w0.books.n_items as int),
        ..tr.repriced
    }
}

pub proof fn lemma_manufacturers_ok_kept(l1: &Ledger, l2: &Ledger, ms: Seq<Manufacturer>)
    requires
        manufacturers_ok(l1, ms),
        l1.n_agents() == l2.n_agents(),
        l1.n_items == l2.n_items,
    ensures
        manufacturers_ok(l2, ms),
{
}

impl Economy {
    pub open spec fn payroll_view(&self) -> Seq<Seq<bool>> {
        self.last_payroll@.map_values(|v: Vec<bool>| v@)
    }

    pub open spec fn world(&self) -> World {
        World { books: self.ledger.books(), buys: self.buys@, sells: self.sells@, history: self.history.prices@ }
    }

    /// The books, the manufacturers and the orders agree, and all money
    /// together fits in one wallet.
    pub open spec fn wf(&self) -> bool {
        &&& self.ledger.wf()
        &&& manufacturers_ok(&self.ledger, self.manufacturers@)
        &&& book_ok(&self.ledger, self.buys@, self.sells@)
        &&& total(self.ledger.wallets@) <= u64::MAX
    }

    /// Pays every manufacturer's workers, in manufacturer order.
    fn pay_salaries(&mut self) -> (trace: Ghost<Seq<Books>>)
        requires
            old(self).wf(),
        ensures
            payroll_chain(trace@, old(self).manufacturers@),
            trace@[0] == old(self).ledger.books(),
            trace@.last() == final(self).ledger.books(),
            final(self).wf(),
            final(self).ledger.n_agents() == old(self).ledger.n_agents(),
            final(self).ledger.n_items == old(self).ledger.n_items,
            total(final(self).ledger.wallets@) == total(old(self).ledger.wallets@),
            final(self).manufacturers@ == old(self).manufacturers@,
            final(self).buys@ == old(self).buys@,
            final(self).sells@ == old(self).sells@,
            final(self).ledger.items_to_sell@ == old(self).ledger.items_to_sell@,
            final(self).days == old(self).days,
            payroll_flags(final(self).payroll_view(), trace@, old(self).manufacturers@),
            final(self).price_step == old(self).price_step,
            final(self).price_floor == old(self).price_floor,
            final(self).history.prices@ == old(self).history.prices@,
    {
        let ghost mut trace: Seq<Books> = seq![self.ledger.books()];
        let mut flags: Vec<Vec<bool>> = Vec::new();
        let mut i: usize = 0;
        while i < self.manufacturers.len()
            invariant
                self.wf(),
                trace.len() == i + 1,
                trace[0] == old(self).ledger.books(),
                trace.last() == self.ledger.books(),
                forall|k: int| 0 <= k < i ==>
                    payroll_rel(#[trigger] trace[k], trace[k + 1], self.manufacturers@[k].agent as int, self.manufacturers@[k].hired_workers@),
                self.ledger.n_agents() == old(self).ledger.n_agents(),
                self.ledger.n_items == old(self).ledger.n_items,
                total(self.ledger.wallets@) == total(old(self).ledger.wallets@),
                self.manufacturers@ == old(self).manufacturers@,
                self.buys@ == old(self).buys@,
                self.sells@ == old(self).sells@,
                self.ledger.items_to_sell@ == old(self).ledger.items_to_sell@,
                self.days == old(self).days,
                flags@.len() == i,
                forall|k: int| 0 <= k < i ==> {
                    &&& (#[trigger] flags@[k])@.len() == self.manufacturers@[k].hired_workers@.len()
                    &&& forall|x: int| 0 <= x < flags@[k]@.len() ==> #[trigger] flags@[k]@[x] == is_paid(
                        trace[k].balance(self.manufacturers@[k].agent as int) as int, self.manufacturers@[k].hired_workers@, x)
                },
                self.price_step == old(self).price_step,
                self.price_floor == old(self).price_floor,
                self.history.prices@ == old(self).history.prices@,
                i <= self.manufacturers@.len(),
            decreases self.manufacturers@.len() - i,
        {
            let m = &self.manufacturers[i];
            proof {
                assert(roster_ok(&self.ledger, m.agent as int, m.hired_workers@));
                assert forall|k: int| 0 <= k < m.hired_workers@.len() implies
                    self.ledger.balance(#[trigger] m.hired_workers@[k].agent as int)
                        + self.ledger.balance(m.agent as int) <= u64::MAX by {
                    lemma_two_wallets_bounded(self.ledger.wallets@, m.hired_workers@[k].agent as int, m.agent as int);
                }
            }
            let ghost before = self.ledger;
            let paid = payroll(&mut self.ledger, m.agent, &m.hired_workers);
            proof {
                lemma_manufacturers_ok_kept(&before, &self.ledger, self.manufacturers@);
                let t0 = trace;
                trace = trace.push(self.ledger.books());
                assert forall|k: int| 0 <= k < i + 1 implies
                    payroll_rel(#[trigger] trace[k], trace[k + 1], self.manufacturers@[k].agent as int, self.manufacturers@[k].hired_workers@) by {
                    if k < i {
                        assert(trace[k] == t0[k] && trace[k + 1] == t0[k + 1]);
                    }
                }
            }
            flags.push(paid);
            i = i + 1;
        }
        self.last_payroll = flags;
        Ghost(trace)
    }

    /// Settles the order book and drops the orders that were filled.
    fn trade(&mut self) -> (trades: Vec<Trade>)
        requires
            old(self).wf(),
        ensures
            trade_rel(old(self).world(), final(self).world(), trades@),
            final(self).wf(),
            final(self).ledger.n_agents() == old(self).ledger.n_agents(),
            final(self).ledger.n_items == old(self).ledger.n_items,
            total(final(self).ledger.wallets@) == total(old(self).ledger.wallets@),
            final(self).manufacturers@ == old(self).manufacturers@,
            final(self).days == old(self).days,
            final(self).last_payroll@ == old(self).last_payroll@,
            final(self).price_step == old(self).price_step,
            final(self).price_floor == old(self).price_floor,
            final(self).history.prices@ == old(self).history.prices@,
    {
        let ghost before = self.ledger;
        let trades = execute_orders(&mut self.ledger, &mut self.buys, &mut self.sells);
        let ghost sells_before = self.sells@;
        let ghost buys_before = self.buys@;
        self.sells = retire_filled_sell_orders(&self.sells);
        self.buys = retire_filled_buy_orders(&self.buys);
        proof {
            lemma_manufacturers_ok_kept(&before, &self.ledger, self.manufacturers@);
            let ps = |o: SellOrder| sell_open(o);
            let pb = |o: BuyOrder| buy_open(o);
            assert forall|j: int| 0 <= j < self.sells@.len() implies sell_backed(&self.ledger, #[trigger] self.sells@[j]) by {
                lemma_filter_from(sells_before, ps, j);
                let k = choose|k: int| 0 <= k < sells_before.len() && sells_before[k] == self.sells@[j];
                assert(sell_backed(&self.ledger, sells_before[k]));
            }
            assert forall|j: int| 0 <= j < self.buys@.len() implies buy_ok(&self.ledger, #[trigger] self.buys@[j]) by {
                lemma_filter_from(buys_before, pb, j);
                let k = choose|k: int| 0 <= k < buys_before.len() && buys_before[k] == self.buys@[j];
                assert(buy_ok(&self.ledger, buys_before[k]));
            }
            lemma_filter_distinct_offers(sells_before, ps);
        }
        trades
    }

    /// Runs one production cycle for each manufacturer.
    fn produce_all(&mut self) -> (trace: Ghost<Seq<Books>>)
        requires
            old(self).wf(),
        ensures
            production_chain(trace@, old(self).manufacturers@, old(self).ledger.n_agents()),
            trace@[0] == old(self).ledger.books(),
            trace@.last() == final(self).ledger.books(),
            final(self).buys@ == old(self).buys@,
            final(self).sells@ == old(self).sells@,
            final(self).wf(),
            final(self).ledger.n_agents() == old(self).ledger.n_agents(),
            final(self).ledger.n_items == old(self).ledger.n_items,
            final(self).ledger.wallets@ == old(self).ledger.wallets@,
            final(self).manufacturers@ == old(self).manufacturers@,
            final(self).days == old(self).days,
            final(self).last_payroll@ == old(self).last_payroll@,
            final(self).price_step == old(self).price_step,
            final(self).price_floor == old(self).price_floor,
            final(self).history.prices@ == old(self).history.prices@,
    {
        let ghost mut trace: Seq<Books> = seq![self.ledger.books()];
        let mut i: usize = 0;
        while i < self.manufacturers.len()
            invariant
                self.wf(),
                self.buys@ == old(self).buys@,
                self.sells@ == old(self).sells@,
                trace.len() == i + 1,
                trace[0] == old(self).ledger.books(),
                trace.last() == self.ledger.books(),
                forall|k: int| 0 <= k < i ==>
                    produced_rel(#[trigger] trace[k], trace[k + 1], old(self).ledger.n_agents(), self.manufacturers@[k]),
                self.ledger.n_agents() == old(self).ledger.n_agents(),
                self.ledger.n_items == old(self).ledger.n_items,
                self.ledger.wallets@ == old(self).ledger.wallets@,
                self.manufacturers@ == old(self).manufacturers@,
                self.days == old(self).days,
                self.last_payroll@ == old(self).last_payroll@,
                self.price_step == old(self).price_step,
                self.price_floor == old(self).price_floor,
                self.history.prices@ == old(self).history.prices@,
                i <= self.manufacturers@.len(),
            decreases self.manufacturers@.len() - i,
        {
            let m = &self.manufacturers[i];
            let ghost before = self.ledger;
            let _made = produce(&mut self.ledger, m);
            proof {
                lemma_manufacturers_ok_kept(&before, &self.ledger, self.manufacturers@);
                let t0 = trace;
                trace = trace.push(self.ledger.books());
                assert forall|k: int| 0 <= k < i + 1 implies
                    produced_rel(#[trigger] trace[k], trace[k + 1], old(self).ledger.n_agents(), self.manufacturers@[k]) by {
                    if k < i {
                        assert(trace[k] == t0[k] && trace[k + 1] == t0[k + 1]);
                    }
                }
            }
            i = i + 1;
        }
        Ghost(trace)
    }

    /// Puts each manufacturer's output up for sale, and opens or updates a
    /// buy order for each input it lacks, bid at what it can afford and at
    /// most the input's reference price.
    fn create_orders(&mut self)
        requires
            old(self).wf(),
        ensures
            create_rel(old(self).world(), final(self).world(), old(self).ledger.n_agents()),
            final(self).wf(),
            final(self).ledger.n_agents() == old(self).ledger.n_agents(),
            final(self).ledger.n_items == old(self).ledger.n_items,
            final(self).ledger.wallets@ == old(self).ledger.wallets@,
            final(self).manufacturers@ == old(self).manufacturers@,
            final(self).days == old(self).days,
            final(self).last_payroll@ == old(self).last_payroll@,
            final(self).price_step == old(self).price_step,
            final(self).price_floor == old(self).price_floor,
            final(self).history.prices@ == old(self).history.prices@,
    {
        let mut i: usize = 0;
        while i < self.manufacturers.len()
            invariant
                self.wf(),
                self.ledger.n_agents() == old(self).ledger.n_agents(),
                self.ledger.n_items == old(self).ledger.n_items,
                self.ledger.wallets@ == old(self).ledger.wallets@,
                forall|u: int| 0 <= u < old(self).ledger.n_items ==> #[trigger] self.ledger.stock(u) == old(self).ledger.stock(u),
                self.sells@.len() >= old(self).sells@.len(),
                forall|j: int| 0 <= j < old(self).sells@.len() ==> {
                    &&& (#[trigger] self.sells@[j]).quantity >= old(self).sells@[j].quantity
                    &&& self.sells@[j] == SellOrder { quantity: self.sells@[j].quantity, ..old(self).sells@[j] }
                },
                self.manufacturers@ == old(self).manufacturers@,
                self.days == old(self).days,
                self.last_payroll@ == old(self).last_payroll@,
                self.price_step == old(self).price_step,
                self.price_floor == old(self).price_floor,
                self.history.prices@ == old(self).history.prices@,
                i <= self.manufacturers@.len(),
            decreases self.manufacturers@.len() - i,
        {
            let m = &self.manufacturers[i];
            let out = m.production_cycle.output.item;
            let fallback = cost_plus_margin(&self.history, &m.production_cycle, self.default_price, self.price_margin);
            let price = starting_price(&self.history, out, fallback);
            let ghost before = self.ledger;
            let ghost sells0 = self.sells@;
            let moved = create_sell_order(&mut self.ledger, &mut self.sells, m.agent, out, price, self.next_order);
            if moved > 0 && self.next_order < u64::MAX {
                self.next_order = self.next_order + 1;
            }
            proof {
                lemma_manufacturers_ok_kept(&before, &self.ledger, self.manufacturers@);
                assert forall|j: int| 0 <= j < old(self).sells@.len() implies {
                    &&& (#[trigger] self.sells@[j]).quantity >= old(self).sells@[j].quantity
                    &&& self.sells@[j] == SellOrder { quantity: self.sells@[j].quantity, ..old(self).sells@[j] }
                } by {
                    assert(sells0[j] == SellOrder { quantity: sells0[j].quantity, ..old(self).sells@[j] });
                    if moved > 0 {
                        if exists|x: int| 0 <= x < sells0.len() && #[trigger] sells0[x].seller == m.agent
                            && sells0[x].item == out
                            && self.sells@ == sells0.update(x, SellOrder { quantity: (sells0[x].quantity + moved) as u64, ..sells0[x] }) {
                            let x = choose|x: int| 0 <= x < sells0.len() && #[trigger] sells0[x].seller == m.agent
                                && sells0[x].item == out
                                && self.sells@ == sells0.update(x, SellOrder { quantity: (sells0[x].quantity + moved) as u64, ..sells0[x] });
                            assert(sell_backed(&before, sells0[x]));
                            assert(self.sells@[j] == if j == x { SellOrder { quantity: (sells0[x].quantity + moved) as u64, ..sells0[x] } } else { sells0[j] });
                        } else {
                            assert(self.sells@[j] == sells0[j]);
                        }
                    }
                }
                assert forall|j: int| 0 <= j < self.buys@.len() implies buy_ok(&self.ledger, #[trigger] self.buys@[j]) by {
                    assert(buy_ok(&before, self.buys@[j]));
                }
            }
            let mut k: usize = 0;
            while k < m.production_cycle.inputs.len()
                invariant
                    self.wf(),
                    self.ledger.n_agents() == old(self).ledger.n_agents(),
                    self.ledger.n_items == old(self).ledger.n_items,
                    self.ledger.wallets@ == old(self).ledger.wallets@,
                    forall|u: int| 0 <= u < old(self).ledger.n_items ==> #[trigger] self.ledger.stock(u) == old(self).ledger.stock(u),
                    self.sells@.len() >= old(self).sells@.len(),
                    forall|j: int| 0 <= j < old(self).sells@.len() ==> {
                        &&& (#[trigger] self.sells@[j]).quantity >= old(self).sells@[j].quantity
                        &&& self.sells@[j] == SellOrder { quantity: self.sells@[j].quantity, ..old(self).sells@[j] }
                    },
                    self.manufacturers@ == old(self).manufacturers@,
                    self.days == old(self).days,
                    self.last_payroll@ == old(self).last_payroll@,
                self.last_payroll@ == old(self).last_payroll@,
                    self.price_step == old(self).price_step,
                    self.price_floor == old(self).price_floor,
                self.price_step == old(self).price_step,
                self.price_floor == old(self).price_floor,
                self.history.prices@ == old(self).history.prices@,
                    i < self.manufacturers@.len(),
                    m == &self.manufacturers@[i as int],
                    k <= m.production_cycle.inputs@.len(),
                decreases m.production_cycle.inputs@.len() - k,
            {
                let input = m.production_cycle.inputs[k];
                assert(m.production_cycle.wf(self.ledger.n_items as nat));
                let p = self.ledger.slot(m.agent, input.item.id);
                let held = self.ledger.items[p];
                if held < input.quantity {
                    let shortfall = input.quantity - held;
                    let reference = starting_price(&self.history, input.item, self.default_price);
                    let balance = self.ledger.wallets[m.agent];
                    let bid = bid_price(balance, shortfall, reference);
                    let ghost buys_before = self.buys@;
                    place_buy_order(&mut self.buys, m.agent, input.item, shortfall, bid);
                    proof {
                        assert forall|j: int| 0 <= j < self.buys@.len() implies buy_ok(&self.ledger, #[trigger] self.buys@[j]) by {
                            if j < buys_before.len() {
                                assert(buy_ok(&self.ledger, buys_before[j]));
                            }
                        }
                    }
                }
                k = k + 1;
            }
            i = i + 1;
        }
        proof {
            assert forall|u: int| 0 <= u < old(self).ledger.n_items implies
                #[trigger] books_stock(self.ledger.books(), u, old(self).ledger.n_agents())
                    == books_stock(old(self).ledger.books(), u, old(self).ledger.n_agents()) by {
                lemma_books_stock(&self.ledger, u, old(self).ledger.n_agents());
                lemma_books_stock(&old(self).ledger, u, old(self).ledger.n_agents());
                assert(self.ledger.stock(u) == old(self).ledger.stock(u));
            }
        }
    }

    /// Reprices the sell orders from today's supply and demand.
    fn reprice(&mut self)
        requires
            old(self).wf(),
        ensures
            reprice_rel(old(self).world(), final(self).world(), old(self).price_step, old(self).price_floor),
            final(self).wf(),
            final(self).ledger == old(self).ledger,
            final(self).manufacturers@ == old(self).manufacturers@,
            final(self).days == old(self).days,
            final(self).last_payroll@ == old(self).last_payroll@,
            final(self).price_step == old(self).price_step,
            final(self).price_floor == old(self).price_floor,
            final(self).history.prices@ == old(self).history.prices@,
    {
        let ghost before = self.sells@;
        update_sell_order_prices(&mut self.sells, &self.buys, self.price_step, self.price_floor);
        proof {
            let w1 = old(self).world();
            let w2 = self.world();
            assert forall|j: int| 0 <= j < w1.sells.len() implies #[trigger] w2.sells[j] == SellOrder {
                price: Money {
                    units: next_price(w1.sells[j].price.units as int, open_buys(w1.buys, w1.sells[j].item.id),
                        open_sells(w1.sells, w1.sells[j].item.id), old(self).price_step as int, old(self).price_floor as int) as u64,
                },
                ..w1.sells[j]
            } by {
                assert(self.sells@[j] == SellOrder { price: self.sells@[j].price, ..before[j] });
            }
            assert forall|j: int| 0 <= j < self.sells@.len() implies sell_backed(&self.ledger, #[trigger] self.sells@[j]) by {
                assert(sell_backed(&self.ledger, before[j]));
            }
            assert forall|j: int, k: int| 0 <= j < self.sells@.len() && 0 <= k < self.sells@.len() && j != k
                implies (#[trigger] self.sells@[j]).seller != (#[trigger] self.sells@[k]).seller
                    || self.sells@[j].item != self.sells@[k].item by {
                assert(before[j].seller != before[k].seller || before[j].item != before[k].item);
            }
        }
    }

    /// One simulated day: salaries, trading, production, new orders,
    /// repricing, and the day's price record, in that order (see
    /// [`day_done`]). Money only moves between wallets.
    pub fn run_day(&mut self) -> (trades: Vec<Trade>)
        requires
            old(self).wf(),
        ensures
            final(self).wf(),
            final(self).ledger.n_agents() == old(self).ledger.n_agents(),
            final(self).ledger.n_items == old(self).ledger.n_items,
            total(final(self).ledger.wallets@) == total(old(self).ledger.wallets@),
            final(self).manufacturers@ == old(self).manufacturers@,
            final(self).days == old(self).days,
            final(self).price_step == old(self).price_step,
            final(self).price_floor == old(self).price_floor,
            exists|tr: DayTrace| #[trigger] day_done(
                old(self).world(),
                old(self).manufacturers@,
                old(self).ledger.n_agents(),
                old(self).days.days,
                old(self).price_step,
                old(self).price_floor,
                final(self).world(),
                trades@,
                final(self).payroll_view(),
                tr,
            ),
    {
        let ghost w0 = self.world();
        let paid = self.pay_salaries();
        let trades = self.trade();
        let ghost traded = self.world();
        let produced = self.produce_all();
        self.create_orders();
        let ghost created = self.world();
        self.reprice();
        let ghost repriced = self.world();
        add_sell_orders_to_history(&mut self.history, &trades, self.days.days, self.ledger.n_items);
        proof {
            let tr = DayTrace { paid: paid@, traded, produced: produced@, created, repriced };
            assert(day_done(w0, old(self).manufacturers@, old(self).ledger.n_agents(), old(self).days.days,
                old(self).price_step, old(self).price_floor, self.world(), trades@, self.payroll_view(), tr));
        }
        trades
    }

    /// Advances the calendar at time `now` where a day is due (see
    /// [`should_advance_day`]) and runs that day. Returns whether it did.
    pub fn tick(&mut self, now: u64, interval: u64) -> (ran: bool)
        requires
            old(self).wf(),
        ensures
            final(self).wf(),
            total(final(self).ledger.wallets@) == total(old(self).ledger.wallets@),
            ran == (interval != 0 && now - old(self).days.last_update > interval && old(self).days.days < u64::MAX),
            ran ==> final(self).days.days == old(self).days.days + 1 && final(self).days.last_update == now,
            !ran ==> final(self).days == old(self).days,
            ran ==> !final(self).days.next_turn,
            ran ==> exists|trades: Seq<Trade>, tr: DayTrace| #[trigger] day_done(
                old(self).world(),
                old(self).manufacturers@,
                old(self).ledger.n_agents(),
                (old(self).days.days + 1) as u64,
                old(self).price_step,
                old(self).price_floor,
                final(self).world(),
                trades,
                final(self).payroll_view(),
                tr,
            ),
    {
        if !should_advance_day(now, &self.days, interval) || self.days.days == u64::MAX {
            return false;
        }
        self.days.next_day(now);
        let ghost before = *self;
        let trades = self.run_day();
        let ghost after = self.world();
        let ghost pv = self.payroll_view();
        proof {
            assert(before.world() == old(self).world());
            let tr = choose|tr: DayTrace| #[trigger] day_done(before.world(), before.manufacturers@, before.ledger.n_agents(),
                before.days.days, before.price_step, before.price_floor, after, trades@, pv, tr);
            assert(day_done(old(self).world(), old(self).manufacturers@, old(self).ledger.n_agents(),
                (old(self).days.days + 1) as u64, old(self).price_step, old(self).price_floor, after, trades@, pv, tr));
        }
        self.days.next_turn = false;
        assert(self.world() == after);
        assert(self.payroll_view() == pv);
        true
    }
}

} // verus!

verus! {

/// Across a day, each open sell order's asking price moves by at most the
/// pricing step at the repricing, and by nothing elsewhere in the day.
pub proof fn lemma_day_price_step(
    w0: World,
    ms: Seq<Manufacturer>,
    n_agents: int,
    day: u64,
    step: u64,
    floor: u64,
    w1: World,
    trades: Seq<Trade>,
    flags: Seq<Seq<bool>>,
    tr: DayTrace,
)
    requires
        day_done(w0, ms, n_agents, day, step, floor, w1, trades, flags, tr),
    ensures
        w1.sells.len() == tr.created.sells.len(),
        forall|j: int| 0 <= j < w1.sells.len() ==> {
            &&& (#[trigger] w1.sells[j]).price.units - step <= tr.created.sells[j].price.units
            &&& tr.created.sells[j].price.units <= w1.sells[j].price.units + step
        },
        forall|j: int| 0 <= j < tr.traded.sells.len() ==> #[trigger] tr.created.sells[j].price == tr.traded.sells[j].price,
{
    assert forall|j: int| 0 <= j < w1.sells.len() implies {
        &&& (#[trigger] w1.sells[j]).price.units - step <= tr.created.sells[j].price.units
        &&& tr.created.sells[j].price.units <= w1.sells[j].price.units + step
    } by {
        let o = tr.created.sells[j];
        assert(w1.sells[j] == tr.repriced.sells[j]);
        lemma_price_step_bounded(o.price.units, open_buys(tr.created.buys, o.item.id) as u64,
            open_sells(tr.created.sells, o.item.id) as u64, step, floor);
        lemma_open_counts_fit(tr.created.buys, tr.created.sells, o.item.id);
    }
    assert forall|j: int| 0 <= j < tr.traded.sells.len() implies #[trigger] tr.created.sells[j].price == tr.traded.sells[j].price by {
        let pre = World { books: tr.produced.last(), ..tr.traded };
        assert(pre.sells[j] == tr.traded.sells[j]);
    }
}

/// Across a day, an open sell order of an item that no open buy order asks
/// for never gets dearer at the repricing, and gets cheaper unless it is at
/// or below the floor.
pub proof fn lemma_day_unsold_price_falls(
    w0: World,
    ms: Seq<Manufacturer>,
    n_agents: int,
    day: u64,
    step: u64,
    floor: u64,
    w1: World,
    trades: Seq<Trade>,
    flags: Seq<Seq<bool>>,
    tr: DayTrace,
    j: int,
)
    requires
        day_done(w0, ms, n_agents, day, step, floor, w1, trades, flags, tr),
        0 <= j < w1.sells.len(),
        open_buys(tr.created.buys, tr.created.sells[j].item.id) == 0,
        step > 0,
    ensures
        w1.sells[j].price.units <= tr.created.sells[j].price.units,
        tr.created.sells[j].price.units > floor ==> w1.sells[j].price.units < tr.created.sells[j].price.units,
{
    let o = tr.created.sells[j];
    assert(w1.sells[j] == tr.repriced.sells[j]);
    lemma_open_counts_fit(tr.created.buys, tr.created.sells, o.item.id);
    lemma_unsold_price_falls(o.price.units, 0, open_sells(tr.created.sells, o.item.id) as u64, step, floor);
}

} // verus!
