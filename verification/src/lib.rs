//! Line-oriented text search: find the lines of a text that contain a query,
//! with or without regard to case.

pub mod config;
pub mod encoding;
pub mod filtering;
pub mod lines;
pub mod search;
pub mod text;

pub use config::{Argument, Config, Error};
pub use search::{run, search, search_case_insensitive};
