//! Quotes and route search over the pools of Intear Plach.

pub mod api;
pub mod fees;
pub mod laws;
pub mod offers;
pub mod pool;
