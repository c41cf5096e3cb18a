//! A package-installation transaction engine: it takes a resolved, ordered
//! list of package references, drives each one through
//! fetch, verify, extract and commit, and records every stage transition in a
//! journal so that an interrupted run can be resumed at the exact stage
//! boundary (or byte offset, for a download) where it stopped, or rolled back.
//!
//! The engine works over an explicit environment: the archive sources, the
//! staging area and the target filesystem are plain values, so every decision
//! the engine makes is verified. The surrounding process performs the real
//! transfers and file writes and mirrors them into the environment.

pub mod archive;
pub mod cli;
pub mod engine;
pub mod errors;
pub mod extract;
pub mod fetch;
pub mod fsmodel;
pub mod integrity;
pub mod journal;
pub mod laws;
pub mod model;
pub mod paths;
pub mod pkg;
