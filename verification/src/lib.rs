//! Line-oriented substring search over a block of text, with a
//! case-sensitive and a case-insensitive policy, and the validated
//! configuration that selects between them.

pub mod config;
pub mod search;
pub mod text;

pub use config::Config;
pub use search::{run, search, search_case_insensitive, select_lines};
