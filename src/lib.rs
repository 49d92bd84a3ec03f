//! Line-oriented substring search over an in-memory text.
//!
//! A text is split into lines at line feeds, and the lines that hold a query
//! are returned as views into the text, in order. The search is exact, or
//! compares lower-case forms. Contracts speak of the UTF-8 bytes of the text.
pub mod config;
pub mod engine;
pub mod folding;
pub mod lines;
pub mod matching;

pub use config::{Config, ConfigError};
pub use engine::{search, search_case_insensitive};
pub use matching::contains;
