//! Uniswap V2 pipeline: swap events and their `Swap` entities.
pub mod pool_events;
pub mod events_entity;
