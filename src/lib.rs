//! A local mirror of decentralized-exchange pool and vault state: fixed-point
//! price math, venue models with idempotent event replay, factories, token
//! metadata and a resumable checkpoint.

pub mod amm;
pub mod checkpoint;
pub mod currency;
pub mod decimals;
pub mod erc_4626;
pub mod errors;
pub mod event_log;
pub mod factory;
pub mod filters;
pub mod fixed_point;
pub mod keyed;
pub mod primitives;
pub mod sync;
pub mod u256_ops;
pub mod uniswap_v2;
