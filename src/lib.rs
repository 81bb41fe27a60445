//! Line filtering: select the lines of a text that contain a query, with or
//! without regard to letter case, and the argument handling around it.
pub mod config;
pub mod lines;
pub mod search;
pub mod text;

pub use config::{select_lines, Config};
pub use search::{case_insensitive, search};
pub use text::contains_query;
