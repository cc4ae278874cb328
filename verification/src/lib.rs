//! Farm OS core: the decisions behind sowing, harvesting, selling and
//! checking a microgreens farm, kept apart from the database, the network
//! and the window so that each one can be proved.

pub mod capacity;
pub mod dates;
pub mod events;
pub mod mileage;
pub mod models;
pub mod offers;
pub mod money;
pub mod money_events;
pub mod poll;
pub mod seed_prefill;
pub mod shop;
pub mod snapshots;
pub mod stripe_client;
pub mod table_compare;
pub mod text;
pub mod tray_events;
pub mod trays;
pub mod verify;
