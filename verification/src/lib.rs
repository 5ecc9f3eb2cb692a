//! Parathread and parachains leasing system. Allows para IDs to be claimed, the code and data to be
//! initialized and parachain slots (i.e. continuous scheduling) to be leased. Also allows for
//! parachains and parathreads to be swapped.
//!
//! This doesn't handle the mechanics of determining which para ID actually ends up with a parachain
//! lease. That must be handled separately, through the traits that this library provides.
//!
//! The state is a plain value, `state::Module`, and every call is a step from one state to the
//! next. What only the host of the system can do is asked of it through `dispatch::Action`. What
//! holds of the system as a whole stands in `laws`.

pub mod account;
pub mod bidder;
pub mod deposits;
pub mod dispatch;
pub mod hashing;
pub mod laws;
pub mod lease_periods;
pub mod leasing;
pub mod onboarding;
pub mod ordered;
pub mod primitives;
pub mod state;
pub mod swapping;
pub mod traits;
