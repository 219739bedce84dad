//! Reads the text of an SSH client configuration into host blocks and tells
//! which of them forward a local port.

pub mod chars;
pub mod directive;
pub mod entry;
pub mod error;
pub mod laws;
pub mod lines;
pub mod parser;
pub mod report;

pub use directive::parse_config_line;
pub use entry::PatternEntry;
pub use error::ParseError;
pub use parser::parse_config;
pub use report::list_tunnels;
