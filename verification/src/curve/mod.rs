//! Curve pipeline: factories, pools, pool fees and admin balances.
pub mod store_key;
pub mod records;
pub mod factory_added;
pub mod pool_created_registry;
pub mod pool_created;
pub mod admin_balances;
pub mod pool_fees_by_log;
pub mod pool_fees;
pub mod stores;
pub mod fees_entity;
pub mod graph_out;
