pub mod config;
pub mod laws;
pub mod search;
pub mod text;

pub use config::Config;
pub use search::{run, search, search_case_insensitive};
