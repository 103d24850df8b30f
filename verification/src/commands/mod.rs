//! The command-line commands: what each reports.

pub mod validate;
pub mod list;
pub mod report;
pub mod versions;
pub mod shopping;
