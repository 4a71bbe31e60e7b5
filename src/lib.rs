//! A turn-based economic simulation engine: manufacturers pay workers,
//! turn input goods into output goods, and trade through buy and sell
//! orders whose prices follow supply and demand.

pub mod agents;
pub mod build_info;
pub mod clock;
pub mod economy;
pub mod ledger;
pub mod logs;
pub mod market;
pub mod money;
pub mod orders;
pub mod payroll;
pub mod pricing;
pub mod production;
pub mod stats;
pub mod ui;
pub mod wellformed;

pub use agents::{Manufacturer, ProductionCycle, Stack, Worker};
pub use build_info::BuildInfo;
pub use clock::{date_update_system, next_turn, should_advance_day, turn_end_system, Days};
pub use economy::Economy;
pub use ledger::{ItemType, Ledger};
pub use logs::{logging_system, LogEntry, LogEvent, Logs, Pinned};
pub use market::{
    best_sell_order, execute_orders, match_buy_order, retire_filled_buy_orders, retire_filled_sell_orders, settle, BuyOrder,
    SellOrder, Trade, TradeError,
};
pub use money::Money;
pub use orders::{bid_price, cost_plus_margin, create_sell_order, find_buy_order, find_sell_order, place_buy_order, starting_price};
pub use payroll::payroll;
pub use pricing::{adjusted_price, update_sell_order_prices};
pub use production::produce;
pub use stats::{add_sell_orders_to_history, aggregate, PriceHistory, PriceStats};
pub use ui::{count_buy_orders_for, count_sell_orders_of, sort_figure, ManufacturerFigures, ManufacturerSort};
