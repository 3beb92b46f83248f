//! Search for the best way through a set of pools.

pub mod chain;
pub mod choice;
pub mod complete;
pub mod display;
pub mod hops;
pub mod laws;
pub mod market;
pub mod pools;
pub mod route;
pub mod search;
pub mod shares;
pub mod split;
pub mod top;
