//! Core logic of a personal music library server: configuration checks,
//! scanning decisions, tag metadata extraction, query parsing, HTTP byte
//! ranges and SQL query planning.

pub mod auth;
pub mod config;
pub mod error;
pub mod libraries;
pub mod metadata;
pub mod scanner;
pub mod scans;
pub mod search;
pub mod stream;
pub mod tags;
pub mod text;
pub mod tracks;

pub use error::ApiError;
