//! Loading the modules of plugin directories read through a `Reader`.
use vstd::prelude::*;
use crate::errors::{PluginError, Result};
use crate::find::{media_module, mediatype, transpile, url_info};
use crate::maps::SourceMapStore;
use crate::modules::module::{lossy_text, utf8_lossy};
use crate::reader::Reader;
use crate::script::{media_type_from_path, transpiled, ModuleKind};
use crate::sources::{last_match, TopItem};
use crate::text::{parse_usize_spec, replace_all, str_eq};
use crate::weburl::UrlParts;

verus! {

broadcast use vstd::string::group_string_axioms;

/// Loads modules from the plugin directories of a reader, keeping the source
/// maps of what it transpiles.
pub struct Loader {
    pub reader: Reader,
    pub source_maps: SourceMapStore,
}

/// The source index that a module URL carries as its password.
pub open spec fn url_source(uri: UrlParts) -> usize {
    parse_usize_spec(uri.password->0@)->0
}

/// Whether `load` can go to work on `uri`: an `embed` or `static` URL whose
/// path starts with `/` and whose password is the index of a directory of
/// the reader, which can be read as `disk`.
pub open spec fn loadable(reader: Reader, uri: UrlParts, disk: Seq<TopItem>) -> bool {
    &&& uri.scheme@ == "embed"@ || uri.scheme@ == "static"@
    &&& "/"@.is_prefix_of(uri.path@)
    &&& uri.password matches Some(p) && parse_usize_spec(p@) is Some
    &&& url_source(uri) < reader.dirs().0@.len()
    &&& reader.dirs().0@[url_source(uri) as int].readable(true, disk)
}

/// What loading the module at `uri` gives: the media type of the searched
/// file (the URL's user name) decides the kind of module and whether to
/// transpile; the code is the text of the last file found with the names of
/// the entry (the URL's path) and the search.
pub open spec fn loader_load_matches(
    reader: Reader,
    uri: UrlParts,
    disk: Seq<TopItem>,
    maps0: Map<Seq<char>, Seq<u8>>,
    maps1: Map<Seq<char>, Seq<u8>>,
    r: Result<(ModuleKind, String)>,
) -> bool {
    let (m, mk) = media_type_from_path(replace_all(uri.username@, "/\\"@, "\\"@));
    match media_module(mk) {
        None => r is Err && maps1 == maps0,
        Some((kind, t)) => match reader.dirs().0@[url_source(uri) as int].found(true, disk) {
            None => r is Err && maps1 == maps0,
            Some(v) => {
                let code = lossy_text(last_match(v, uri.path@.skip(1), uri.username@));
                if !t {
                    r matches Ok((k, c)) && k == kind && c@ == code && maps1 == maps0
                } else {
                    match transpiled(code, uri.href@, m) {
                        Some((text, Some(map))) => r matches Ok((k, c)) && k == kind && c@ == text
                            && maps1 == maps0.insert(uri.href@, vstd::utf8::encode_utf8(map)),
                        _ => r is Err && maps1 == maps0,
                    }
                }
            },
        },
    }
}

impl Loader {
    pub fn new(reader: Reader) -> (r: Self)
        ensures
            r.reader == reader,
            r.source_maps@ == Map::<Seq<char>, Seq<u8>>::empty(),
    {
        Self { reader, source_maps: SourceMapStore::new() }
    }

    /// The module at `uri`, whose directory on disk (if it is one) reads as
    /// `disk`.
    pub fn load(&mut self, uri: &UrlParts, disk: &Vec<TopItem>) -> (r: Result<(ModuleKind, String)>)
        requires
            loadable(old(self).reader, *uri, disk@),
        ensures
            final(self).reader == old(self).reader,
            loader_load_matches(
                old(self).reader,
                *uri,
                disk@,
                old(self).source_maps@,
                final(self).source_maps@,
                r,
            ),
    {
        let url = url_info(uri)?;
        let (media_type, module_type, should_transpile) = mediatype(url.search.as_str())?;
        let data = self.reader.find(url.source, url.entry.as_str(), url.search.as_str(), disk)?;
        let code = utf8_lossy(data.as_slice());
        let text = transpile(code, &mut self.source_maps, uri, media_type, should_transpile)?;
        Ok((module_type, text))
    }

    /// The source map recorded for the module at URL `specifier`.
    pub fn get_source_map(&self, specifier: &str) -> (r: Option<&Vec<u8>>)
        ensures
            match r {
                Some(v) => self.source_maps@.contains_key(specifier@) && v@ == self.source_maps@[specifier@],
                None => !self.source_maps@.contains_key(specifier@),
            },
    {
        self.source_maps.get(specifier)
    }
}

} // verus!
