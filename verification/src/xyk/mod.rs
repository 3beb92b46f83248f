//! The exchange of constant-product pools behind Intear Plach.

pub mod args;
pub mod call;
pub mod dex;
pub mod laws;
pub mod liquidity;
pub mod outcomes;
pub mod pools;
pub mod state;
