//! Running the external commands of the configuration.

pub mod engine;
pub mod runner;
