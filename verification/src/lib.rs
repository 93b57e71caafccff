//! A multi-agent coordination library: teams of named agents execute one
//! task under a declared collaboration topology (round-robin, chain of
//! thought, parallel fan-out, finite-state machine, or dependency graph).
//! The dispatch engine is verified: it decides which agent to invoke next
//! and with which input, and assembles the execution trace; performing the
//! actual model calls is left to the embedding program.

pub mod agent;
pub mod laws;
pub mod memory;
pub mod model;
pub mod outside;
pub mod strutil;
pub mod team;
pub mod tool;
pub mod workflow;
