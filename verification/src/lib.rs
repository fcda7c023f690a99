//! Password-less authentication by a Chaum-Pedersen proof of knowledge:
//! the proof arithmetic, the two stores and the three-phase session
//! state machine, each with a machine-checked contract.

pub mod error;
pub mod bignat;
pub mod numbers;
pub mod group;
pub mod engine;
pub mod random;
pub mod table;
pub mod store;
pub mod auth;
pub mod service;
