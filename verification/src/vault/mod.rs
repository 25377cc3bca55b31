//! The vault: it holds the liquidity of every pool, validates the state
//! transitions that the pools compute, and decides the token transfers.
pub mod state;
pub mod config;
pub mod join;
pub mod exit;
pub mod swap;
pub mod create;
pub mod defunct;
pub mod query;
