//! Verified core of a polyglot dead-code scanner.

pub mod walker;
pub mod text;
pub mod format;
pub mod glob;
pub mod paths;
pub mod index;
pub mod parse;
pub mod graph;
pub mod scoring;
pub mod baseline;
pub mod output;
pub mod cli;
pub mod config;
pub mod error;
