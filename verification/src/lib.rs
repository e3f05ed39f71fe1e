pub mod benchmark;
pub mod config;
pub mod report;
pub mod schedule;
pub mod types;
pub mod utils;
