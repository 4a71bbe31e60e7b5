use sb3::{
    adjusted_price, aggregate, cost_plus_margin, best_sell_order, match_buy_order, bid_price, count_buy_orders_for, count_sell_orders_of,
    create_sell_order, date_update_system, execute_orders, logging_system, next_turn, payroll, place_buy_order,
    produce, retire_filled_buy_orders, retire_filled_sell_orders, settle, should_advance_day, sort_figure,
    starting_price, turn_end_system, update_sell_order_prices, BuyOrder, Days, Economy, ItemType, Ledger, LogEvent,
    Logs, Manufacturer, ManufacturerFigures, ManufacturerSort, Money, PriceHistory, PriceStats, ProductionCycle,
    SellOrder, Stack, Trade, TradeError, Worker,
};

const ORE: ItemType = ItemType { id: 0 };
const STEEL: ItemType = ItemType { id: 1 };
const WOOD: ItemType = ItemType { id: 2 };

fn slot(l: &Ledger, a: usize, t: ItemType) -> usize {
    a * l.n_items + t.id
}

fn steel_recipe() -> ProductionCycle {
    ProductionCycle {
        inputs: vec![Stack { item: ORE, quantity: 2 }],
        output: Stack { item: STEEL, quantity: 1 },
        workers_needed: 0,
    }
}

fn total_money(l: &Ledger) -> u64 {
    l.wallets.iter().map(|m| m.units).sum()
}

#[test]
fn production_turns_ore_into_steel() {
    let mut l = Ledger::new(1, 3);
    let s = slot(&l, 0, ORE);
    l.items[s] = 5;
    let m = Manufacturer { agent: 0, hired_workers: vec![], production_cycle: steel_recipe() };
    assert!(produce(&mut l, &m));
    assert_eq!(l.items[slot(&l, 0, ORE)], 3);
    assert_eq!(l.items[slot(&l, 0, STEEL)], 1);
}

#[test]
fn production_without_inputs_changes_nothing() {
    let mut l = Ledger::new(1, 3);
    let s = slot(&l, 0, ORE);
    l.items[s] = 1;
    let m = Manufacturer { agent: 0, hired_workers: vec![], production_cycle: steel_recipe() };
    assert!(!produce(&mut l, &m));
    assert_eq!(l.items, vec![1, 0, 0]);
}

#[test]
fn production_needs_its_workforce() {
    let mut l = Ledger::new(1, 3);
    let s = slot(&l, 0, ORE);
    l.items[s] = 5;
    let mut recipe = steel_recipe();
    recipe.workers_needed = 1;
    let m = Manufacturer { agent: 0, hired_workers: vec![], production_cycle: recipe };
    assert!(!produce(&mut l, &m));
    assert_eq!(l.items[slot(&l, 0, ORE)], 5);
}

fn market_with_steel_offer() -> (Ledger, Vec<BuyOrder>, Vec<SellOrder>) {
    let mut l = Ledger::new(2, 3);
    l.wallets[0] = Money::new(100);
    l.wallets[1] = Money::new(50);
    let s = slot(&l, 1, STEEL);
    l.items_to_sell[s] = 5;
    let buys = vec![BuyOrder { buyer: 0, item: STEEL, quantity: 3, max_price: Money::new(10) }];
    let sells = vec![SellOrder { seller: 1, item: STEEL, quantity: 5, price: Money::new(8), created: 0 }];
    (l, buys, sells)
}

#[test]
fn matching_settles_at_the_sellers_price() {
    let (mut l, mut buys, mut sells) = market_with_steel_offer();
    let trades = execute_orders(&mut l, &mut buys, &mut sells);
    assert_eq!(trades, vec![Trade { item: STEEL, quantity: 3, price: Money::new(8) }]);
    assert_eq!(l.items[slot(&l, 0, STEEL)], 3);
    assert_eq!(l.wallets[0].units, 76);
    assert_eq!(l.items_to_sell[slot(&l, 1, STEEL)], 2);
    assert_eq!(l.wallets[1].units, 74);
    assert_eq!(sells[0].quantity, 2);
    assert_eq!(buys[0].quantity, 0);
    assert_eq!(retire_filled_sell_orders(&sells).len(), 1);
    assert!(retire_filled_buy_orders(&buys).is_empty());
}

#[test]
fn trade_keeps_money_and_goods() {
    let (mut l, mut buys, mut sells) = market_with_steel_offer();
    let before = total_money(&l);
    let units_before: u64 = l.items.iter().sum::<u64>() + l.items_to_sell.iter().sum::<u64>();
    execute_orders(&mut l, &mut buys, &mut sells);
    assert_eq!(total_money(&l), before);
    let units_after: u64 = l.items.iter().sum::<u64>() + l.items_to_sell.iter().sum::<u64>();
    assert_eq!(units_after, units_before);
}

#[test]
fn settle_rejects_a_buyer_who_cannot_pay() {
    let (mut l, mut buys, mut sells) = market_with_steel_offer();
    l.wallets[0] = Money::new(23);
    let r = settle(&mut l, &mut buys[0], &mut sells[0]);
    assert_eq!(r, Err(TradeError::InsufficientFunds));
    assert_eq!(l.wallets[0].units, 23);
    assert_eq!(l.items_to_sell[slot(&l, 1, STEEL)], 5);
    assert_eq!(sells[0].quantity, 5);
}

#[test]
fn settle_rejects_an_empty_order() {
    let (mut l, mut buys, mut sells) = market_with_steel_offer();
    buys[0].quantity = 0;
    assert_eq!(settle(&mut l, &mut buys[0], &mut sells[0]), Err(TradeError::EmptyOrder));
}

#[test]
fn settle_rejects_a_full_wallet() {
    let (mut l, mut buys, mut sells) = market_with_steel_offer();
    l.wallets[1] = Money::new(u64::MAX - 1);
    assert_eq!(settle(&mut l, &mut buys[0], &mut sells[0]), Err(TradeError::WalletFull));
}

#[test]
fn settle_rejects_a_full_inventory() {
    let (mut l, mut buys, mut sells) = market_with_steel_offer();
    let s = slot(&l, 0, STEEL);
    l.items[s] = u64::MAX - 1;
    assert_eq!(settle(&mut l, &mut buys[0], &mut sells[0]), Err(TradeError::InventoryFull));
}

#[test]
fn best_offer_is_cheapest_then_oldest_then_first() {
    let buy = BuyOrder { buyer: 0, item: STEEL, quantity: 1, max_price: Money::new(10) };
    let sells = vec![
        SellOrder { seller: 1, item: STEEL, quantity: 1, price: Money::new(9), created: 0 },
        SellOrder { seller: 2, item: STEEL, quantity: 1, price: Money::new(7), created: 5 },
        SellOrder { seller: 3, item: STEEL, quantity: 1, price: Money::new(7), created: 2 },
        SellOrder { seller: 4, item: STEEL, quantity: 1, price: Money::new(7), created: 2 },
        SellOrder { seller: 0, item: STEEL, quantity: 1, price: Money::new(1), created: 0 },
        SellOrder { seller: 5, item: STEEL, quantity: 1, price: Money::new(11), created: 0 },
        SellOrder { seller: 6, item: WOOD, quantity: 1, price: Money::new(1), created: 0 },
    ];
    assert_eq!(best_sell_order(&sells, &buy), Some(2));
    assert_eq!(best_sell_order(&sells[4..].to_vec(), &buy), None);
}

#[test]
fn unsold_price_falls_to_the_floor() {
    let mut sells = vec![SellOrder { seller: 1, item: WOOD, quantity: 4, price: Money::new(10), created: 0 }];
    let buys: Vec<BuyOrder> = vec![];
    let mut prices = vec![sells[0].price.units];
    for _ in 0..3 {
        update_sell_order_prices(&mut sells, &buys, 3, 2);
        prices.push(sells[0].price.units);
    }
    assert_eq!(prices, vec![10, 7, 4, 2]);
    update_sell_order_prices(&mut sells, &buys, 3, 2);
    assert_eq!(sells[0].price.units, 2);
}

#[test]
fn demand_raises_the_price() {
    assert_eq!(adjusted_price(Money::new(10), 2, 1, 3, 0).units, 13);
    assert_eq!(adjusted_price(Money::new(u64::MAX - 1), 2, 1, 3, 0).units, u64::MAX);
    assert_eq!(adjusted_price(Money::new(1), 0, 1, 3, 2).units, 1);
}

#[test]
fn payroll_pays_in_roster_order() {
    let mut l = Ledger::new(3, 1);
    l.wallets[0] = Money::new(5);
    let roster = vec![Worker { agent: 1, salary: Money::new(4) }, Worker { agent: 2, salary: Money::new(4) }];
    let paid = payroll(&mut l, 0, &roster);
    assert_eq!(paid, vec![true, false]);
    assert_eq!(l.wallets[0].units, 1);
    assert_eq!(l.wallets[1].units, 4);
    assert_eq!(l.wallets[2].units, 0);
}

#[test]
fn payroll_skips_only_what_it_cannot_pay() {
    let mut l = Ledger::new(4, 1);
    l.wallets[0] = Money::new(5);
    let roster = vec![
        Worker { agent: 1, salary: Money::new(6) },
        Worker { agent: 2, salary: Money::new(3) },
        Worker { agent: 3, salary: Money::new(2) },
    ];
    assert_eq!(payroll(&mut l, 0, &roster), vec![false, true, true]);
    assert_eq!(l.wallets[0].units, 0);
    assert_eq!(total_money(&l), 5);
}

#[test]
fn clock_waits_for_the_interval() {
    let mut d = Days::new();
    assert!(!should_advance_day(1000, &d, 0));
    assert!(!should_advance_day(500, &d, 500));
    assert!(should_advance_day(501, &d, 500));
    date_update_system(&mut d, 501);
    assert_eq!(d.days, 1);
    assert!(next_turn(&d));
    assert!(!should_advance_day(900, &d, 500));
    turn_end_system(&mut d);
    assert!(!next_turn(&d));
}

#[test]
fn history_records_each_traded_item() {
    let trades = vec![
        Trade { item: STEEL, quantity: 1, price: Money::new(8) },
        Trade { item: STEEL, quantity: 2, price: Money::new(4) },
        Trade { item: STEEL, quantity: 1, price: Money::new(12) },
    ];
    let s = aggregate(&trades, 1, 7).unwrap();
    assert_eq!(s, PriceStats { item: STEEL, day: 7, count: 3, min: Money::new(4), max: Money::new(12), total: 24 });
    assert_eq!(aggregate(&trades, 0, 7), None);
    let mut h = PriceHistory::new();
    sb3::add_sell_orders_to_history(&mut h, &trades, 7, 3);
    assert_eq!(h.prices, vec![s]);
    assert_eq!(h.history_of(STEEL), vec![s]);
    assert!(h.history_of(ORE).is_empty());
    assert_eq!(starting_price(&h, STEEL, Money::new(99)).units, 8);
    assert_eq!(starting_price(&h, ORE, Money::new(99)).units, 99);
}

#[test]
fn bids_stay_affordable() {
    assert_eq!(bid_price(Money::new(20), 3, Money::new(10)).units, 6);
    assert_eq!(bid_price(Money::new(100), 3, Money::new(10)).units, 10);
}

#[test]
fn sell_orders_grow_instead_of_doubling() {
    let mut l = Ledger::new(1, 3);
    let s = slot(&l, 0, STEEL);
    l.items[s] = 2;
    let mut sells: Vec<SellOrder> = vec![];
    assert_eq!(create_sell_order(&mut l, &mut sells, 0, STEEL, Money::new(5), 0), 2);
    l.items[s] = 3;
    assert_eq!(create_sell_order(&mut l, &mut sells, 0, STEEL, Money::new(9), 1), 3);
    assert_eq!(sells, vec![SellOrder { seller: 0, item: STEEL, quantity: 5, price: Money::new(5), created: 0 }]);
    assert_eq!(l.items[s], 0);
    assert_eq!(l.items_to_sell[s], 5);
    assert_eq!(create_sell_order(&mut l, &mut sells, 0, STEEL, Money::new(9), 2), 0);
}

#[test]
fn buy_orders_are_updated_in_place() {
    let mut buys: Vec<BuyOrder> = vec![];
    place_buy_order(&mut buys, 0, ORE, 2, Money::new(3));
    place_buy_order(&mut buys, 0, ORE, 4, Money::new(2));
    place_buy_order(&mut buys, 0, WOOD, 0, Money::new(2));
    assert_eq!(buys, vec![BuyOrder { buyer: 0, item: ORE, quantity: 4, max_price: Money::new(2) }]);
    assert_eq!(count_buy_orders_for(&buys, ORE), 1);
    assert_eq!(count_buy_orders_for(&buys, WOOD), 0);
}

#[test]
fn table_figures_follow_the_column() {
    let f = ManufacturerFigures {
        money: Money::new(7),
        workers: 2,
        items: 3,
        items_to_sell: 4,
        on_market: 5,
        buy_orders: 6,
    };
    assert_eq!(sort_figure(ManufacturerSort::Money, &f), Some(7));
    assert_eq!(sort_figure(ManufacturerSort::BuyOrders, &f), Some(6));
    assert_eq!(sort_figure(ManufacturerSort::Name, &f), None);
    let sells = vec![
        SellOrder { seller: 1, item: STEEL, quantity: 1, price: Money::new(1), created: 0 },
        SellOrder { seller: 1, item: ORE, quantity: 1, price: Money::new(1), created: 1 },
    ];
    assert_eq!(count_sell_orders_of(&sells, 1), 2);
    assert_eq!(count_sell_orders_of(&sells, 0), 0);
}

#[test]
fn logs_are_stamped_with_the_day() {
    let mut logs = Logs::new();
    let events = vec![
        LogEvent { text: "paid".to_string(), entity: 3 },
        LogEvent { text: "sold".to_string(), entity: 4 },
    ];
    logging_system(events, &mut logs, 9);
    assert_eq!(logs.entries.len(), 2);
    assert_eq!(logs.entries[1].entry.text, "sold");
    assert_eq!(logs.entries[1].entry.entity, 4);
    assert_eq!(logs.entries[0].day, 9);
}

fn small_economy() -> Economy {
    // agent 0 mines ore, agent 1 makes steel, agent 2 works for agent 1
    let mut ledger = Ledger::new(3, 3);
    ledger.wallets[0] = Money::new(10);
    ledger.wallets[1] = Money::new(40);
    let ore_slot = 0 * 3 + ORE.id;
    ledger.items[ore_slot] = 4;
    let miner = Manufacturer {
        agent: 0,
        hired_workers: vec![],
        production_cycle: ProductionCycle {
            inputs: vec![],
            output: Stack { item: ORE, quantity: 1 },
            workers_needed: 0,
        },
    };
    let smith = Manufacturer {
        agent: 1,
        hired_workers: vec![Worker { agent: 2, salary: Money::new(3) }],
        production_cycle: steel_recipe(),
    };
    Economy {
        days: Days::new(),
        ledger,
        manufacturers: vec![miner, smith],
        buys: vec![],
        sells: vec![],
        history: PriceHistory::new(),
        next_order: 0,
        price_step: 1,
        price_floor: 1,
        default_price: Money::new(5),
        price_margin: 2,
        last_payroll: vec![],
    }
}

#[test]
fn days_keep_money_and_trade_ore() {
    let mut e = small_economy();
    assert!(!e.tick(100, 1000));
    assert!(e.tick(1001, 1000));
    assert_eq!(e.days.days, 1);
    assert!(!e.days.next_turn);
    assert_eq!(total_money(&e.ledger), 50);
    assert_eq!(e.ledger.wallets[2].units, 3);
    assert_eq!(e.last_payroll, vec![vec![], vec![true]]);
    assert!(e.tick(2002, 1000));
    assert!(e.tick(3003, 1000));
    assert_eq!(total_money(&e.ledger), 50);
    assert!(e.ledger.items[1 * 3 + STEEL.id] + e.ledger.items_to_sell[1 * 3 + STEEL.id] > 0);
    assert!(!e.history.history_of(ORE).is_empty());
}

#[test]
fn well_formedness_is_checked() {
    let mut e = small_economy();
    assert!(e.is_well_formed());
    e.sells.push(SellOrder { seller: 1, item: STEEL, quantity: 1, price: Money::new(1), created: 0 });
    assert!(!e.is_well_formed());
    e.sells.clear();
    e.ledger.wallets[2] = Money::new(u64::MAX);
    assert!(!e.is_well_formed());
    e.ledger.wallets[2] = Money::new(0);
    e.manufacturers[1].hired_workers.push(Worker { agent: 2, salary: Money::new(1) });
    assert!(!e.is_well_formed());
}

#[test]
fn one_buy_order_takes_the_cheapest_offer() {
    let mut l = Ledger::new(3, 3);
    l.wallets[0] = Money::new(100);
    let s1 = slot(&l, 1, STEEL);
    let s2 = slot(&l, 2, STEEL);
    l.items_to_sell[s1] = 4;
    l.items_to_sell[s2] = 4;
    let mut buys = vec![BuyOrder { buyer: 0, item: STEEL, quantity: 6, max_price: Money::new(10) }];
    let mut sells = vec![
        SellOrder { seller: 1, item: STEEL, quantity: 4, price: Money::new(9), created: 0 },
        SellOrder { seller: 2, item: STEEL, quantity: 4, price: Money::new(6), created: 1 },
    ];
    let t = match_buy_order(&mut l, &mut buys, &mut sells, 0);
    assert_eq!(t, Some(Trade { item: STEEL, quantity: 4, price: Money::new(6) }));
    assert_eq!(buys[0].quantity, 2);
    assert_eq!(sells[1].quantity, 0);
    assert_eq!(sells[0].quantity, 4);
    assert_eq!(l.wallets[0].units, 76);
    assert_eq!(l.wallets[2].units, 24);
    let mut far = vec![BuyOrder { buyer: 0, item: WOOD, quantity: 1, max_price: Money::new(10) }];
    assert_eq!(match_buy_order(&mut l, &mut far, &mut sells, 0), None);
}

#[test]
fn a_day_reports_unpaid_workers() {
    let mut e = small_economy();
    e.ledger.wallets[1] = Money::new(2);
    assert!(e.tick(1001, 1000));
    assert_eq!(e.last_payroll, vec![vec![], vec![false]]);
    assert_eq!(e.ledger.wallets[2].units, 0);
}

#[test]
fn unpriced_output_costs_its_inputs_plus_margin() {
    let mut h = PriceHistory::new();
    // two Ore per Steel; Ore has no record yet, so it counts at the fallback 5
    assert_eq!(cost_plus_margin(&h, &steel_recipe(), Money::new(5), 3).units, 13);
    let trades = vec![Trade { item: ORE, quantity: 1, price: Money::new(7) }];
    sb3::add_sell_orders_to_history(&mut h, &trades, 1, 3);
    assert_eq!(cost_plus_margin(&h, &steel_recipe(), Money::new(5), 3).units, 17);
}
