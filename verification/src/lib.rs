//! A plugin system's source handling: embedded and on-disk plugin sources,
//! archives that hold plugins, and the URLs by which their modules are found.
use vstd::prelude::*;
use crate::modules::source::{Source, SourceLoader};

pub mod archive;
pub mod efs;
pub mod errors;
pub mod extensions;
pub mod find;
pub mod loader;
pub mod maps;
pub mod modules;
pub mod reader;
pub mod script;
pub mod sources;
pub mod text;
pub mod unpack;
pub mod weburl;
pub mod utils;

verus! {

/// A value handed back to scripts: one string.
pub struct Output {
    pub data: String,
}

/// The plugin sources of a plugin system: the embedded ones and those on
/// disk, and what was found in them. The script runtime that runs the
/// plugins is kept beside it.
pub struct PluginSystem {
    pub sources: SourceLoader,
}

/// The script that reads `key` of plugin `plugin`.
pub open spec fn execute_text(plugin: Seq<char>, key: Seq<char>) -> Seq<char> {
    "globalThis.Plugins.loadPlugin(\""@ + plugin + "\")."@ + key
}

impl PluginSystem {
    /// A plugin system with no sources yet.
    pub fn builder() -> (r: Self)
        ensures
            r.sources.entry@ == "entry.ts"@,
            r.sources.plugin@ == "plugin.json"@,
            r.sources.holder.sources@.len() == 0,
            r.sources.holder.embedded@.len() == 0,
            r.sources.loaded.plugins@.len() == 0,
            r.sources.loaded.embedded@.len() == 0,
    {
        Self { sources: SourceLoader::new() }
    }

    /// Adds an embedded source.
    pub fn add_embed(self, source: Source) -> (r: Self)
        ensures
            r.sources.holder.embedded@ == self.sources.holder.embedded@.push(source),
            r.sources.holder.sources@ == self.sources.holder.sources@,
            r.sources.loaded == self.sources.loaded,
            r.sources.entry == self.sources.entry,
            r.sources.plugin == self.sources.plugin,
    {
        let mut s = self;
        s.sources.add_embed(source);
        s
    }

    /// Adds a source on disk.
    pub fn add_source(self, source: Source) -> (r: Self)
        ensures
            r.sources.holder.sources@ == self.sources.holder.sources@.push(source),
            r.sources.holder.embedded@ == self.sources.holder.embedded@,
            r.sources.loaded == self.sources.loaded,
            r.sources.entry == self.sources.entry,
            r.sources.plugin == self.sources.plugin,
    {
        let mut s = self;
        s.sources.add(source);
        s
    }

    /// The script that `execute` runs to read `key` of plugin `plugin`.
    pub fn execute_script(plugin: &str, key: &str) -> (r: String)
        ensures
            r@ == execute_text(plugin@, key@),
    {
        let mut code = "globalThis.Plugins.loadPlugin(\"".to_string();
        code.append(plugin);
        code.append("\").");
        code.append(key);
        code
    }
}

} // verus!
