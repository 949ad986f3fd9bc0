//! The library's error type.
use vstd::prelude::*;

verus! {

/// What can go wrong while reading plugin sources.
#[derive(Debug)]
pub enum PluginError {
    /// A condition described by a message, such as a file that no source holds.
    Unknown(String),
    /// A string that the URL parser refused.
    UrlParse,
    /// An archive that its format's reader refused, with the reader's message.
    Archive(String),
    /// Source text that the TypeScript/JSX transpiler refused, with its message.
    Transpile(String),
}

pub type Result<T> = std::result::Result<T, PluginError>;

} // verus!
