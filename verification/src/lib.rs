//! A multi-chain EVM event watchdog library: log decoding, rule evaluation,
//! observable state with coalesced alert history, and a rate-limited alert
//! dispatcher. The surrounding process wires these pieces to transports,
//! terminals and clocks; every decision made here is specified and verified.

pub mod config;
pub mod dashboard;
pub mod decimal;
pub mod decoder;
pub mod events;
pub mod alerts;
pub mod orchestrator;
pub mod rules;
pub mod sim;
pub mod state;
pub mod text;
pub mod uint256;
