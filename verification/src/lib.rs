//! A single-process notification rendezvous core for long-poll services.
//!
//! A waiter registers under a token and suspends on a one-shot rendezvous
//! cell; a notifier later carries a payload to that token, and every waiter
//! pending under it at that moment receives the payload. The waiting list is
//! bounded: when it overflows, the oldest pending waiter is evicted with a
//! capacity failure so that new callers are always accepted.
//!
//! - [`cell`] holds the one-shot rendezvous cell and the outcome it delivers;
//! - [`registry`] holds the bounded, token-indexed waiting list;
//! - [`response`] splits inbound query pairs and renders outcomes for the
//!   transport layer.

pub mod cell;
pub mod registry;
pub mod response;
