//! Decision logic of three blockchain indexing pipelines (Curve pools and fees,
//! Uniswap V2 swaps, ENS records), written over plain values so that every
//! record, key and entity change they produce is stated and proved.
pub mod text;
pub mod bigint;
pub mod eth;
pub mod entity;
pub mod store;
pub mod curve;
pub mod uniswap;
pub mod ens;
