//! Loading plugin modules: which plugin an import names, and the code of the
//! module that a module URL points to.
use vstd::prelude::*;
use vstd::utf8::{decode_utf8, valid_utf8};
use crate::efs::PluginsFs;
use crate::errors::{PluginError, Result};
use crate::find::media_module;
use crate::modules::source::{
    embedded_readable, lemma_lookup_settled, lookup_from, lookup_sources, lookup_until, no_walk, not_found_message,
    part_lookup_matches, sources_readable_until, walk_of, walks, ReadMode, SourceLoader,
};
use crate::modules::utils::{
    before_first, file_info_matches, scheme_source, transpile, FileInfo, MediaInfo, SourceMaps,
};
use crate::script::{media_type_from_path, transpiled, ModuleKind};
use crate::text::{chars_of, find_char, first_index_of, replace_all, replace_str, str_eq};
use crate::weburl::{set_url_host, url_host_replaced, UrlParts};

verus! {

broadcast use vstd::string::group_string_axioms;

/// An import `@name/path` names plugin `name`: the part before the first `/`,
/// when it starts with `@`, loses every `@`; the rest is the path.
pub open spec fn plugin_name_of(input: Seq<char>) -> Option<(Seq<char>, Seq<char>)> {
    let k = first_index_of(input, '/');
    if k > 0 && input[0] == '@' {
        Some((replace_all(input.take(k), seq!['@'], Seq::empty()), input.skip(k + 1)))
    } else {
        None
    }
}

/// The plugin name and path of an import `@name/path`.
pub fn extract_plugin_name(input: &str) -> (r: Option<(String, &str)>)
    ensures
        match plugin_name_of(input@) {
            Some((n, p)) => r matches Some((a, b)) && a@ == n && b@ == p,
            None => r is None,
        },
{
    let v = chars_of(input);
    proof {
        assert(v@.skip(0) =~= v@);
    }
    let k = match find_char(&v, 0, '/') {
        Some(k) => k,
        None => {
            return None;
        },
    };
    if k == 0 || v[0] != '@' {
        return None;
    }
    let at_part = input.substring_char(0, k);
    let next_part = input.substring_char(k + 1, v.len());
    proof {
        reveal_strlit("@");
        reveal_strlit("");
        assert("@"@ =~= seq!['@']);
        assert(""@ =~= Seq::<char>::empty());
        assert(at_part@ =~= input@.take(k as int));
        assert(next_part@ =~= input@.skip(k + 1));
    }
    Some((replace_str(at_part, "@", ""), next_part))
}

/// The host that a plugin's imports are resolved under.
pub open spec fn plugin_host(name: Seq<char>) -> Seq<char> {
    "plugin_name."@ + name
}

/// Where an import is resolved: an import `@name/path` resolves `path`
/// against the referrer with its host set to `plugin_name.{name}`; any other
/// import resolves as it is against the referrer.
pub open spec fn resolve_matches(specifier: Seq<char>, referrer: Seq<char>, r: (Seq<char>, Seq<char>)) -> bool {
    match plugin_name_of(specifier) {
        Some((n, p)) => r.0 == p && Some(r.1) == url_host_replaced(referrer, plugin_host(n)),
        None => r.0 == specifier && r.1 == referrer,
    }
}

/// Whether the referrer of an import `@name/path` takes the plugin's host.
pub open spec fn resolvable(specifier: Seq<char>, referrer: Seq<char>) -> bool {
    plugin_name_of(specifier) matches Some((n, _)) ==> url_host_replaced(referrer, plugin_host(n)) is Some
}

/// The specifier and referrer that an import is resolved with.
pub fn resolve_target(specifier: &str, referrer: &str) -> (r: (String, String))
    requires
        resolvable(specifier@, referrer@),
    ensures
        resolve_matches(specifier@, referrer@, (r.0@, r.1@)),
{
    match extract_plugin_name(specifier) {
        Some((name, path)) => {
            let mut host = "plugin_name.".to_string();
            host.append(name.as_str());
            proof {
                reveal_strlit("plugin_name.");
            }
            let uri = set_url_host(referrer, host.as_str()).unwrap();
            (path.to_string(), uri)
        },
        None => (specifier.to_string(), referrer.to_string()),
    }
}

/// `resolve_target` where the referrer takes the plugin's host; `None`
/// where it does not.
pub fn try_resolve_target(specifier: &str, referrer: &str) -> (r: Option<(String, String)>)
    ensures
        match r {
            Some(x) => resolvable(specifier@, referrer@) && resolve_matches(
                specifier@,
                referrer@,
                (x.0@, x.1@),
            ),
            None => !resolvable(specifier@, referrer@),
        },
{
    match extract_plugin_name(specifier) {
        Some((name, _)) => {
            let mut host = "plugin_name.".to_string();
            host.append(name.as_str());
            proof {
                reveal_strlit("plugin_name.");
            }
            match set_url_host(referrer, host.as_str()) {
                Some(_) => Some(resolve_target(specifier, referrer)),
                None => None,
            }
        },
        None => Some(resolve_target(specifier, referrer)),
    }
}

/// What `String::from_utf8_lossy` makes of `bytes`.
pub uninterp spec fn lossy_text(bytes: Seq<u8>) -> Seq<char>;

/// `String::from_utf8_lossy(bytes).to_string()`.
///
/// Trusted: the text is what std makes of the bytes, named `lossy_text`; as
/// std documents, bytes that are valid UTF-8 give the text they encode.
/// How invalid sequences are replaced is not stated.
#[verifier::external_body]
pub(crate) fn utf8_lossy(bytes: &[u8]) -> (r: String)
    ensures
        r@ == lossy_text(bytes@),
        valid_utf8(bytes@) ==> r@ == decode_utf8(bytes@),
{
    String::from_utf8_lossy(bytes).to_string()
}

/// Whether a module URL's scheme names sources the loader reads: `embed`,
/// `static`, or either with `-archive`.
pub open spec fn known_scheme(s: Seq<char>) -> bool {
    s == "embed"@ || s == "static"@ || s == "embed-archive"@ || s == "static-archive"@
}

/// Whether the sources that scheme `s` looks in can be read: the embedded
/// ones for `embed` and `embed-archive`; for the others, the first sources on
/// disk, whose directories read as `walked`, one for each.
pub open spec fn scheme_readable(loader: SourceLoader, s: Seq<char>, walked: Seq<PluginsFs>) -> bool {
    if s == "embed"@ || s == "embed-archive"@ {
        embedded_readable(loader.holder.embedded@)
    } else {
        sources_readable_until(loader.holder.sources@, false, walked, walked.len() as int)
    }
}

/// Whether scheme `s` looks in the sources on disk.
pub open spec fn on_disk(s: Seq<char>) -> bool {
    !(s == "embed"@ || s == "embed-archive"@)
}

/// What looking up the file of `info` in the loader gives: in every embedded
/// source, or in the sources on disk whose directories were walked, by the
/// scheme; script files or the files in archives.
pub open spec fn module_data(loader: SourceLoader, info: FileInfo, walked: Seq<PluginsFs>) -> Option<
    Option<Seq<u8>>,
> {
    let s = info.scheme@;
    let mode = if s == "embed"@ || s == "static"@ {
        ReadMode::Files
    } else {
        ReadMode::Archives
    };
    if !on_disk(s) {
        lookup_from(loader.holder.embedded@, true, no_walk(), mode, 0, info.entry@, info.search@)
    } else {
        lookup_until(
            loader.holder.sources@,
            false,
            walks(walked),
            mode,
            0,
            walked.len() as int,
            info.entry@,
            info.search@,
        )
    }
}

/// Whether a lookup for `info` that found nothing in the walked directories
/// has sources on disk left to walk.
pub open spec fn walk_pending(loader: SourceLoader, info: FileInfo, walked: Seq<PluginsFs>) -> bool {
    on_disk(info.scheme@) && walked.len() < loader.holder.sources@.len()
}

/// What loading the module at `uri` gives, once `info` is where it points:
/// the kind of module its file's media type makes it and its code, the file's
/// text transpiled where the media type asks for it, with the source map
/// recorded under the URL. Where the file is in none of the directories
/// walked so far and more are left, it gives `None`, to be asked again once
/// the next one is walked; where it is in no source at all, the error says
/// that no file was found.
pub open spec fn load_matches(
    loader: SourceLoader,
    info: FileInfo,
    uri: UrlParts,
    walked: Seq<PluginsFs>,
    maps0: Map<Seq<char>, Seq<u8>>,
    maps1: Map<Seq<char>, Seq<u8>>,
    r: Result<Option<(ModuleKind, String)>>,
) -> bool {
    let (m, mk) = media_type_from_path(info.search@);
    match media_module(mk) {
        None => r is Err && maps1 == maps0,
        Some((kind, t)) => match module_data(loader, info, walked) {
            Some(Some(d)) => {
                let code = lossy_text(d);
                if !t {
                    r matches Ok(Some((k, c))) && k == kind && c@ == code && maps1 == maps0
                } else {
                    match transpiled(code, uri.href@, m) {
                        Some((text, Some(map))) => r matches Ok(Some((k, c))) && k == kind && c@
                            == text && maps1 == maps0.insert(uri.href@, vstd::utf8::encode_utf8(map)),
                        _ => r is Err && maps1 == maps0,
                    }
                }
            },
            Some(None) => maps1 == maps0 && if walk_pending(loader, info, walked) {
                r matches Ok(None)
            } else {
                r matches Err(PluginError::Unknown(msg)) && msg@ == not_found_message()
            },
            None => r is Err && maps1 == maps0,
        },
    }
}

/// Loads plugin modules from a loader's sources, keeping the source maps of
/// what it transpiles.
pub struct ModuleLoader {
    pub loader: SourceLoader,
    pub source_maps: SourceMaps,
}

impl ModuleLoader {
    pub fn new(loader: SourceLoader) -> (r: Self)
        ensures
            r.loader == loader,
            r.source_maps@ == Map::<Seq<char>, Seq<u8>>::empty(),
    {
        Self { loader, source_maps: SourceMaps::new() }
    }

    /// The module at `uri`: the file it points to, found in the embedded
    /// sources or in the sources on disk, and transpiled where its media type
    /// asks for it. The directories of the sources on disk are walked in
    /// order, as far as a lookup needs them: `walked` holds those walked so
    /// far, and `None` asks for the next one before the same call is made
    /// again.
    pub fn load(&mut self, uri: &UrlParts, walked: &Vec<PluginsFs>) -> (r: Result<
        Option<(ModuleKind, String)>,
    >)
        requires
            scheme_source(uri.scheme@) is Some,
            "/"@.is_prefix_of(uri.path@),
            known_scheme(before_first(uri.scheme@, '+')),
            scheme_readable(old(self).loader, before_first(uri.scheme@, '+'), walked@),
        ensures
            final(self).loader == old(self).loader,
            forall|info: FileInfo|
                file_info_matches(*uri, info) ==> load_matches(
                    old(self).loader,
                    info,
                    *uri,
                    walked@,
                    old(self).source_maps@,
                    final(self).source_maps@,
                    r,
                ),
    {
        let info = match FileInfo::from_url(uri) {
            Ok(i) => i,
            Err(e) => {
                return Err(e);
            },
        };
        let ghost gi = info;
        let ghost maps0 = self.source_maps@;
        let r = self.load_info(info, uri, walked);
        proof {
            lemma_file_info_unique(*uri, gi);
            assert forall|b: FileInfo| file_info_matches(*uri, b) implies load_matches(
                old(self).loader,
                b,
                *uri,
                walked@,
                maps0,
                self.source_maps@,
                r,
            ) by {
                assert(b.scheme@ == gi.scheme@ && b.entry@ == gi.entry@ && b.search@ == gi.search@);
                assert(module_data(old(self).loader, b, walked@) == module_data(
                    old(self).loader,
                    gi,
                    walked@,
                ));
            }
        }
        r
    }

    /// The module at the place `info` in the sources, loaded under `uri`.
    fn load_info(&mut self, info: FileInfo, uri: &UrlParts, walked: &Vec<PluginsFs>) -> (r: Result<
        Option<(ModuleKind, String)>,
    >)
        requires
            known_scheme(info.scheme@),
            scheme_readable(old(self).loader, info.scheme@, walked@),
        ensures
            final(self).loader == old(self).loader,
            load_matches(
                old(self).loader,
                info,
                *uri,
                walked@,
                old(self).source_maps@,
                final(self).source_maps@,
                r,
            ),
    {
        let ghost gi = info;
        let media = MediaInfo::from_path(info.search.as_str())?;
        let scheme = info.scheme.as_str();
        proof {
            reveal_strlit("embed");
            reveal_strlit("static");
            reveal_strlit("embed-archive");
            reveal_strlit("static-archive");
        }
        let embedded = str_eq(scheme, "embed") || str_eq(scheme, "embed-archive");
        let mode = if str_eq(scheme, "embed") || str_eq(scheme, "static") {
            ReadMode::Files
        } else {
            ReadMode::Archives
        };
        assert(embedded == !on_disk(gi.scheme@));
        let none: Vec<PluginsFs> = Vec::new();
        let found = if embedded {
            assert(walk_of(true, none@) == no_walk());
            lookup_sources(
                &self.loader.holder.embedded,
                true,
                &none,
                self.loader.holder.embedded.len(),
                mode,
                info.entry.as_str(),
                info.search.as_str(),
            )
        } else {
            assert(walk_of(false, walked@) == walks(walked@));
            lookup_sources(
                &self.loader.holder.sources,
                false,
                walked,
                walked.len(),
                mode,
                info.entry.as_str(),
                info.search.as_str(),
            )
        };
        assert(part_lookup_matches(found, module_data(self.loader, gi, walked@)));
        let data = match found {
            Ok(Some(d)) => d,
            Ok(None) => {
                if !embedded && walked.len() < self.loader.holder.sources.len() {
                    return Ok(None);
                }
                proof {
                    reveal_strlit("data is empty so maybe no file found.");
                }
                return Err(PluginError::Unknown("data is empty so maybe no file found.".to_string()));
            },
            Err(e) => {
                return Err(e);
            },
        };
        let code = utf8_lossy(data.as_slice());
        let text = transpile(code, &mut self.source_maps, uri, media.media_type, media.transpile)?;
        Ok(Some((media.module_type, text)))
    }

    /// The source map recorded for the module at URL `specifier`.
    pub fn get_source_map(&self, specifier: &str) -> (r: Option<&Vec<u8>>)
        ensures
            match r {
                Some(v) => self.source_maps@.contains_key(specifier@) && v@ == self.source_maps@[specifier@],
                None => !self.source_maps@.contains_key(specifier@),
            },
    {
        self.source_maps.get(specifier)
    }
}

/// Each scheme of a module URL looks in its own kind of items: `embed` among
/// the script files of the embedded sources, `embed-archive` among the files
/// in their archives, `static` among the script files of the sources on disk
/// walked so far, `static-archive` among the files in their archives. Once
/// every directory on disk is walked, loading looks up exactly what
/// `elookup`, `ealookup`, `lookup` and `alookup` look up.
pub proof fn lemma_module_data_by_scheme(loader: SourceLoader, info: FileInfo, walked: Seq<PluginsFs>)
    ensures
        info.scheme@ == "embed"@ ==> module_data(loader, info, walked) == lookup_from(
            loader.holder.embedded@,
            true,
            no_walk(),
            ReadMode::Files,
            0,
            info.entry@,
            info.search@,
        ),
        info.scheme@ == "embed-archive"@ ==> module_data(loader, info, walked) == lookup_from(
            loader.holder.embedded@,
            true,
            no_walk(),
            ReadMode::Archives,
            0,
            info.entry@,
            info.search@,
        ),
        info.scheme@ == "static"@ ==> module_data(loader, info, walked) == lookup_until(
            loader.holder.sources@,
            false,
            walks(walked),
            ReadMode::Files,
            0,
            walked.len() as int,
            info.entry@,
            info.search@,
        ),
        info.scheme@ == "static-archive"@ ==> module_data(loader, info, walked) == lookup_until(
            loader.holder.sources@,
            false,
            walks(walked),
            ReadMode::Archives,
            0,
            walked.len() as int,
            info.entry@,
            info.search@,
        ),
        walked.len() == loader.holder.sources@.len() && info.scheme@ == "static"@ ==> module_data(
            loader,
            info,
            walked,
        ) == lookup_from(
            loader.holder.sources@,
            false,
            walks(walked),
            ReadMode::Files,
            0,
            info.entry@,
            info.search@,
        ),
        walked.len() == loader.holder.sources@.len() && info.scheme@ == "static-archive"@
            ==> module_data(loader, info, walked) == lookup_from(
            loader.holder.sources@,
            false,
            walks(walked),
            ReadMode::Archives,
            0,
            info.entry@,
            info.search@,
        ),
{
    reveal_strlit("embed");
    reveal_strlit("static");
    reveal_strlit("embed-archive");
    reveal_strlit("static-archive");
}

/// A lookup of a module that the directories walked so far settle, found or
/// failed to read, stays as it is when more directories are walked.
pub proof fn lemma_module_data_settled(
    loader: SourceLoader,
    info: FileInfo,
    walked: Seq<PluginsFs>,
    more: Seq<PluginsFs>,
)
    requires
        module_data(loader, info, walked) != Some(None::<Seq<u8>>),
    ensures
        module_data(loader, info, walked + more) == module_data(loader, info, walked),
{
    if on_disk(info.scheme@) {
        let mode = if info.scheme@ == "embed"@ || info.scheme@ == "static"@ {
            ReadMode::Files
        } else {
            ReadMode::Archives
        };
        assert forall|i: int| 0 <= i < walked.len() implies #[trigger] walks(walked)(i) == walks(
            walked + more,
        )(i) by {
            assert((walked + more)[i] == walked[i]);
        }
        lemma_lookup_settled(
            loader.holder.sources@,
            false,
            walks(walked),
            walks(walked + more),
            mode,
            0,
            walked.len() as int,
            (walked + more).len() as int,
            info.entry@,
            info.search@,
        );
    }
}

/// Where a module URL points is decided by the URL: two places that match it
/// are the same in every part.
pub proof fn lemma_file_info_unique(u: UrlParts, a: FileInfo)
    requires
        file_info_matches(u, a),
    ensures
        forall|b: FileInfo|
            file_info_matches(u, b) ==> b.scheme@ == a.scheme@ && b.entry@ == a.entry@ && b.search@
                == a.search@ && b.source == a.source && b.plugin@ == a.plugin@,
{
}

/// An import written as `@name/path` names plugin `name` and path `path`,
/// for a name without `/` or `@`.
pub proof fn lemma_plugin_name_roundtrip(name: Seq<char>, path: Seq<char>)
    requires
        forall|i: int| 0 <= i < name.len() ==> name[i] != '/' && name[i] != '@',
    ensures
        plugin_name_of(seq!['@'] + name + seq!['/'] + path) == Some((name, path)),
{
    let a = seq!['@'] + name;
    let s = a + seq!['/'] + path;
    assert forall|i: int| 0 <= i < a.len() implies a[i] != '/' by {
        if i > 0 {
            assert(a[i] == name[i - 1]);
        }
    }
    crate::text::lemma_first_index_of_split(a, '/', path);
    assert(s.take(a.len() as int) =~= a);
    assert(s.skip(a.len() as int + 1) =~= path);
    assert(s[0] == '@');
    crate::text::lemma_replace_absent(name, '@', Seq::empty());
    assert(seq!['@'].is_prefix_of(a));
    assert(a.skip(1) =~= name);
    assert(replace_all(a, seq!['@'], Seq::empty()) == Seq::<char>::empty() + replace_all(
        a.skip(1),
        seq!['@'],
        Seq::empty(),
    ));
    assert(Seq::<char>::empty() + name =~= name);
}

} // verus!
