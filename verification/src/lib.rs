//! Record keeping for time-boxed events: a roster of scenarios and challenges
//! that players reserve, complete and track progress on.

pub mod chat;
pub mod commands;
pub mod error;
pub mod hob_scenario_parser;
pub mod import;
pub mod lemmas;
pub mod models;
pub mod progress;
pub mod sampling;
pub mod text;
pub mod utils;
