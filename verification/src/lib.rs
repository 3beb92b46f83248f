//! Swap routing for the NEAR blockchain: quotes from liquidity pools, route
//! search, and the transactions that carry a swap out.

pub mod account;
pub mod asset;
pub mod decimal;
pub mod encoding;
pub mod facts;
pub mod ident;
pub mod json;
pub mod keyed;
pub mod ledger;
pub mod merging;
pub mod network;
pub mod paging;
pub mod pathfinder;
pub mod plach;
pub mod product;
pub mod providers;
pub mod rhea;
pub mod router;
pub mod shared_utils;
pub mod slippage;
pub mod text;
pub mod tolerance;
pub mod types;
pub mod wide;
pub mod xyk;
