//! The analysis engine: its settings, its protocol, and what is known of a running one.

pub mod analysis_cfg;
pub mod config;
pub mod files;
pub mod json;
pub mod laws;
pub mod protocol;
pub mod record;
pub mod report;
pub mod session;
pub mod settings;
