//! Read-only security audit and operational health checks for Linux hosts.

pub mod anomaly;
pub mod anomaly_laws;
pub mod audit;
pub mod calendar;
pub mod catalog;
pub mod checks;
pub mod cli;
pub mod config;
pub mod config_laws;
pub mod document_laws;
pub mod double;
pub mod health;
pub mod history;
pub mod json;
pub mod json_text;
pub mod outcome_laws;
pub mod quantity;
pub mod rank;
pub mod report;
pub mod report_laws;
pub mod report_sarif;
pub mod run;
pub mod scoring;
pub mod scoring_laws;
pub mod snapshot_text;
pub mod ssh;
pub mod text;
pub mod textmap;
pub mod wording_laws;
