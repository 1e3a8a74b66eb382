//! Decisions and data of a cancellable script runner: error diagnosis, output
//! capture, relay steps, outcome settlement, the JSON payloads returned to the
//! caller and how they read back.

pub mod capture;
pub mod cli;
pub mod decode;
pub mod diagnostic;
pub mod execution;
pub mod payload;
pub mod settings;
