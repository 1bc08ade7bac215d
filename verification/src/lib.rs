//! Verified core of a command-line client for QueryPie databases.
pub mod text;
pub mod paths;
pub mod keyed;
pub mod sessioncache;
pub mod qpapi;
pub mod formatting;
pub mod failure;
pub mod auth;
pub mod config;
pub mod cli;
pub mod lockfile;
