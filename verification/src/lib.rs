//! Ringi: the dossier, revision and reconcile logic of a local orchestrator for Agent CLIs,
//! with its contracts proved by Verus.

pub mod dossier;
pub mod ids;
pub mod digest;
pub mod revision;
pub mod event;
pub mod text;
pub mod deliberation;
pub mod convergence;
pub mod residual_plan;
pub mod lease;
pub mod reconcile;
pub mod agent;
pub mod exec;
pub mod verify;
pub mod dossier_cli;
pub mod deliberate_loop;
pub mod archive;
pub mod run;
pub mod config;
pub mod store;
