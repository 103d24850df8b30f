//! Verified core of a Cooklang recipe server: filename/version grammar,
//! slugs, shopping-list aggregation, diff highlighting and HTML rendering.

pub mod text;
pub mod search;
pub mod index;
pub mod paths;
pub mod server;
pub mod diff;
pub mod recipe;
pub mod shopping;
pub mod commands;
pub mod cli;
pub mod config;
