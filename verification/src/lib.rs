//! A node of a gossip cluster: the wire vocabulary, the reply engine, the
//! replicated value set and the single-writer control loop, each with a
//! machine-checked contract.

pub mod cluster;
pub mod control;
pub mod decimal;
pub mod error;
pub mod identity;
pub mod laws;
pub mod protocol;
pub mod reply;
pub mod state;
pub mod values;
