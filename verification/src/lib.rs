//! Decision logic of three trading bots that trade currencies with markets.
//!
//! The bots' arithmetic on quantities and prices is done in floating point by the
//! program around this library; the library holds the choices that the bots make
//! from the order of those values, the bookkeeping of lock tokens and market names,
//! and the state machines that drive the bots' trading loops.
pub mod ab_traders;
pub mod common;
pub mod sa_traders;
pub mod tr_traders;
