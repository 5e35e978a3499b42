//! Crowd-matching funding engine: an append-only contribution ledger,
//! a quadratic-funding allocation calculator working in integer arithmetic,
//! and two payout state machines (one-shot lump sum and twelve-period
//! vesting).  The host environment (authentication, durable storage, asset
//! transfers, the clock) stays outside: every operation takes the
//! authenticated caller and the current time as plain values and returns the
//! transfers the host must perform.

pub mod math;
pub mod records;
pub mod voting;
pub mod distribution;
