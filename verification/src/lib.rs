//! A line-search library: given a query string and the textual contents of a
//! file, it selects every line containing the query, optionally ignoring
//! case. A small configuration layer turns a raw argument list into the
//! query, the file path and the case flag.

pub mod cli;
pub mod config;
pub mod search;

pub use cli::Cli;
pub use cli::Commands;
pub use config::resolve;
pub use config::SearchConfig;
pub use config::SearchError;
pub use search::filter;
