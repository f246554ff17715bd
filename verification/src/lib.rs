//! Declarative command-runner core for a ledger simulator.
//!
//! The library holds the verified logic of the pipeline: parsing the entity
//! block out of a tool's captured output, pairing the extracted identifiers
//! with declared variable names, accumulating the environment bindings a run
//! produces, and the default command list. The surrounding binary performs
//! the process spawning and file I/O and drives the pipeline step by step.

pub mod config;
pub mod env_store;
pub mod extract;
pub mod pipeline;
pub mod text;
