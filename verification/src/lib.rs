//! A local trust broker between SSH clients and one upstream SSH agent.
//!
//! Each endpoint shows its clients the subset of the upstream identities that
//! its policy admits and refuses to have the others sign. This crate holds the
//! rules of that mediation with their proofs: the wire codec, fingerprints,
//! the endpoint policy, the per-connection mediator and the endpoint's life
//! cycle. Sockets, files and the process itself belong to the program that
//! drives these functions.

pub mod agent;
pub mod cli;
pub mod config;
pub mod error;
pub mod fingerprint;
pub mod launchd;
pub mod laws;
pub mod session;
pub mod socket;
pub mod supervisor;
pub mod text;
pub mod wire;
