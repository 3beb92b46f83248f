//! The exchanges that are asked for routes.

pub mod aidols;
pub mod amounts;
pub mod deals;
pub mod deeds;
pub mod grafun;
pub mod intear_plach;
pub mod laws;
pub mod linear;
pub mod metapool;
pub mod near_intents;
pub mod rhea;
pub mod rhea_dcl;
pub mod rnear;
pub mod staking;
pub mod traders;
pub mod veax;
pub mod views;
pub mod wrap;
pub mod xrhea;
