//! Changelog of merged pull requests, grouped by author, since the last
//! development-update announcement.
//!
//! The crate holds the pure part of the workflow: picking the announcement
//! that marks the reporting boundary, filtering and grouping pull requests,
//! ordering the groups, and rendering the result as markdown. Every function
//! carries a contract over the mathematical views of its arguments.

pub mod announce;
pub mod changelog;
pub mod filter;
pub mod group;
pub mod model;
pub mod order;
pub mod pipeline;
pub mod query;
pub mod render;
pub mod text;
