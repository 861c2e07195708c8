//! Portfolio analytics: ownership tiers, tax-lot aging and per-security
//! holding summaries computed from security and lot tables.
//!
//! Quantities and prices are fixed-point integers counted in hundred-millionths
//! of a unit (see [`amount::SCALE`]); instants are nanoseconds since the Unix
//! epoch (see [`instant::Instant`]).

pub mod text;
pub mod amount;
pub mod instant;
pub mod table;
pub mod market;
pub mod lot;
pub mod ownership;
pub mod term;
pub mod holdings;
pub mod users;
pub mod bulma;
