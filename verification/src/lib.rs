//! A multi-party (multisig) authorization engine: a fixed set of principals
//! jointly controls a single derived identity, and a configurable quorum of
//! their endorsements is required before a proposed action is dispatched.
//!
//! The engine registers accounts, takes proposals and endorsements, and
//! decides when a call's quorum is complete; executing the call itself is
//! the host's task. The identity derivation lives in [`digest`] and
//! [`encode`], the ordering primitive in [`ordering`], the engine in
//! [`pallet`], the read-only query surfaces in [`connect`] and [`query`],
//! the mathematical model of every operation in [`model`], and the
//! engine's laws in [`laws`].

pub mod connect;
pub mod digest;
pub mod encode;
pub mod errors;
pub mod events;
pub mod laws;
pub mod model;
pub mod ordering;
pub mod pallet;
pub mod query;
