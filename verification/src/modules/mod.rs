//! Plugin sources, the archives that hold plugins, and the URLs of their
//! modules.
pub mod archives;
pub mod types;
pub mod utils;
pub mod source;
pub mod module;
