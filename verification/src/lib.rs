//! The core of liarslie, a distributed guessing game: a set of agent
//! services each hold one 16-bit value — some lie — and a coordinator
//! queries them round by round, tallies their answers, and infers the
//! true value from the known fraction of liars.
//!
//! The library holds everything the game decides or computes, verified:
//! the agents' wire protocol and per-message step function, the big-endian
//! value encoding, the registry's persisted text form, the round tally,
//! the guess selector, the round controller's state machine, and the
//! startup parameter rules. The networking, file handling, threads and
//! console around it hand the library plain bytes and values and carry
//! its answers back out.

pub mod agent;
pub mod codec;
pub mod config;
pub mod decimal;
pub mod game;
pub mod registry;
pub mod select;
pub mod tally;
