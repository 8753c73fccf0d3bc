//! Token budgets and tool policy for AI API traffic.

pub mod budget;
pub mod config;
pub mod enforcer;
pub mod error;
pub mod gateway;
pub mod provider;
pub mod telemetry;
pub mod text;
