//! Helpers behind two small command-line tools: a daily activity report
//! (GitHub events and Jira issues of the current day) and a directory
//! listing that prints the entries of a folder as sorted tables.
//!
//! The network, environment and file-system access stays with the programs;
//! this crate holds the data model, the text rules and the decisions.
pub mod text;
pub mod config;
pub mod listing;
pub mod datetime;
pub mod str_ext;
pub mod json;
pub mod github;
pub mod jira;
