//! Verified core logic of the Dexter decentralised exchange: stableswap math,
//! amplification schedules, price accumulators, and the state transitions of
//! the vault and the superfluid-LP locker.
pub mod wide;
pub mod types;
pub mod order;
pub mod stableswap;
pub mod stableswap_dec;
pub mod amp;
pub mod precision;
pub mod vault;
pub mod superfluid;
pub mod pool;
pub mod pool_join;
pub mod pool_admin;
pub mod pair;
