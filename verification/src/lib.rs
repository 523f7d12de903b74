//! A minimal line-search library: a validated command-line configuration
//! (query, file name, case sensitivity) and a search engine that returns
//! every line of a text that contains the query, in order.

pub mod config;
pub mod search;
pub mod text;

pub use config::Config;
pub use config::ParseError;
pub use config::parse_config;
pub use search::search;
pub use search::search_case_insensitive;
pub use search::search_config;
