//! Line-oriented literal text search: which lines of a text contain a query,
//! with or without regard to letter case.

pub mod config;
pub mod fold;
pub mod lines;
pub mod runner;
pub mod search;
pub mod text;

pub use config::{Config, GrepError};
pub use runner::run;
pub use search::{search, search_case_insensitive};
