//! A line-oriented text search: the lines of a text that hold a query,
//! with or without regard to letter case, and the configuration that
//! selects between the two.
//!
//! Contracts are stated over `Seq<char>`, the view of `str` and `String`.

pub mod text;
pub mod utf8;
pub mod case;
pub mod config;
pub mod lines;
pub mod run;
pub mod search;

pub use crate::config::{Config, ConfigError};
pub use crate::run::{run, RunError};
pub use crate::search::{search, search_case_insensitive};
