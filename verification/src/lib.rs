//! A credential lifecycle manager for a developer blockchain network:
//! key generation and rotation with versioned archival, the blocking
//! submit-and-confirm transaction protocol, and the ordered, path-keyed
//! resource store that models an account's on-chain state.

pub mod account;
pub mod config;
pub mod credential;
pub mod discovery;
pub mod errors;
pub mod fsmodel;
pub mod harness;
pub mod home;
pub mod paths;
pub mod protocol;
