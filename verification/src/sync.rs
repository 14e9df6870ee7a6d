//! Syncing, i.e. downloading and verifying the chain.
//!
//! The state machines of this module keep track of the sources of blocks and of the requests
//! made to them. They never talk to the network and never verify anything themselves: they say
//! what to ask for and what to verify next, and are told the outcome.

pub mod all;
pub mod optimistic;
