//! Orchestration core for a Plastic SCM (`cm`) command-line frontend.
//!
//! The library contains the pure, verified part of the orchestration:
//! resolving which executable to invoke, building argument lists for the
//! `cm` subcommands, parsing their line-oriented text output into typed
//! records, and aggregating per-repository history queries into one
//! sorted, bounded result. Actually spawning the external process is
//! left to the (unverified) application shell, which hands the captured
//! outcome back to this library as plain values.

pub mod changesets;
pub mod repos;
pub mod resolver;
pub mod server;
pub mod text;
pub mod types;
