//! A verified single-decree Paxos core: a fixed set of acceptors agrees on
//! exactly one value despite competing proposers.
//!
//! The crate owns the proposal/version data model, the acceptor's
//! promise-and-accept state machine, and the proposer's two-phase round
//! logic with quorum computation and the value-adoption rule. Transport,
//! persistence and membership are left to collaborators.

pub mod acceptor;
pub mod proposer;
pub mod safety;
pub mod version;
