//! Commands that run without the interactive session.

pub mod config;
pub mod preset;
pub mod run;
