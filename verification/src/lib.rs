//! Finds branches and forks of a GitHub user that can be deleted because
//! the pull requests made from them were merged or closed.

pub mod config;
pub mod garbage_collector;
