//! Changelog query composition and leaderboard snapshot change detection for
//! a leaderboard service.
//!
//! - [`query`] turns a set of optional filters into one ordered, limited,
//!   parameterised changelog query.
//! - [`cache`] decides whether a freshly fetched leaderboard snapshot says
//!   anything new, ignoring its volatile entry count.
//! - [`config`] reads the server configuration from environment variables.
//! - [`submission`] builds changelog entries from website submissions.
pub mod text;

pub mod cache;
pub mod config;
pub mod query;
pub mod submission;
