pub mod analyzer;
pub mod error;
pub mod models;
pub mod query;
pub mod cli;
pub mod text;
pub mod config;
pub mod tasks;
pub mod elastic;
pub mod handler;
pub mod pool;
pub mod schedule;
