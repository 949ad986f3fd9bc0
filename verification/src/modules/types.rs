//! The records that plugin sources are read into.
use vstd::prelude::*;
use crate::efs::PluginsFs;
use crate::weburl::UrlParts;

verus! {

/// Where a source's files come from: a directory on disk, or files embedded
/// in the program.
pub enum SourceEntry {
    Static(String),
    Embed(PluginsFs),
}

/// A file found in a source.
#[derive(Debug)]
pub struct SourceItem {
    /// Index of the source it was found in.
    pub source: usize,
    /// How the source is reached: `embed`, `static`, or either with `-archive`.
    pub scheme: String,
    /// The folder (or archive) that holds the file.
    pub entry: String,
    /// The file's name, or its path inside the archive.
    pub search: String,
    /// The archive that holds the file, if any.
    pub archive: Option<String>,
    /// The file's contents.
    pub content: Option<Vec<u8>>,
}

/// The view of a found file: source index, scheme, entry, search, archive and
/// contents.
pub type ItemView = (usize, Seq<char>, Seq<char>, Seq<char>, Option<Seq<char>>, Option<Seq<u8>>);

impl View for SourceItem {
    type V = ItemView;

    open spec fn view(&self) -> ItemView {
        (
            self.source,
            self.scheme@,
            self.entry@,
            self.search@,
            crate::weburl::opt_str_view(self.archive),
            crate::unpack::opt_bytes_view(self.content),
        )
    }
}

/// An embedded module to evaluate at start-up.
#[derive(Debug)]
pub struct EmbedEntry {
    pub source: usize,
    pub scheme: String,
    pub entry: String,
    pub search: String,
    /// The module's URL, set by the plugin system.
    pub url: Option<UrlParts>,
}

/// A plugin as its `plugin.json` describes it.
#[derive(Debug, Clone)]
pub struct Plugin {
    pub name: String,
    pub description: String,
    /// Identifier like `com.example.plugin_name`.
    pub identifier: String,
    pub version: String,
    /// The plugin's entry module, like `index.ts`.
    pub entry: String,
    /// The entry's URL, set by the plugin system.
    pub url: Option<UrlParts>,
    /// The source index, set by the plugin system.
    pub source: Option<usize>,
    /// Where the plugin is: its folder or archive.
    pub base: Option<String>,
}

} // verus!
