//! Workflow execution support: the per-run state record, the runner that
//! keeps registered workflows and their active states, and the workflow
//! trait with its chain-of-thought implementation.

pub mod runner;
pub mod state;
pub mod workflow_trait;
