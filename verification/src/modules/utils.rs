//! Module URLs inside plugin sources, and how modules are loaded.
use vstd::prelude::*;
use deno_ast::MediaType;
use crate::errors::{PluginError, Result};
use crate::find::media_module;
use crate::maps::SourceMapStore;
use crate::script::{media_type_from_path, media_type_of, transpiled, MediaKind, ModuleKind};
use crate::text::{
    decimal, file_name, find_char, first_index_of, first_suffix, lemma_decimal_digits,
    lemma_decimal_parses, lemma_first_index_of, lemma_first_index_of_absent,
    lemma_first_index_of_split,
    parse_usize, parse_usize_spec, path_file_name, str_ends_with, str_starts_with,
    usize_to_string,
};
use crate::utils::{
    archive_exts, check_for_archive, check_for_file, exts_archives, exts_files, file_exts, is_some,
    is_supported_path, lemma_file_ext_name,
};
use crate::weburl::{opt_str_view, parse_url, url_parse, UrlParts};

verus! {

broadcast use vstd::string::group_string_axioms;

/// Source maps by module URL.
pub type SourceMaps = SourceMapStore;

/// What a path names in a source.
#[derive(Debug, PartialEq, Eq)]
pub enum EntryType {
    Folder,
    File(String),
    Archive(String),
    Unknown,
}

pub open spec fn entry_type_ext(t: EntryType) -> Option<Seq<char>> {
    match t {
        EntryType::File(e) => Some(e@),
        EntryType::Archive(e) => Some(e@),
        _ => None,
    }
}

/// How `path` is classified: a path whose file name has no supported
/// extension is a folder; otherwise the first file extension, then the first
/// archive extension, that the whole path ends with decides.
pub open spec fn entry_type_matches(path: Seq<char>, r: EntryType) -> bool {
    if !is_supported_path(path) {
        r == EntryType::Folder
    } else {
        match first_suffix(file_exts(), path) {
            Some(e) => r matches EntryType::File(x) && x@ == e,
            None => match first_suffix(archive_exts(), path) {
                Some(e) => r matches EntryType::Archive(x) && x@ == e,
                None => r == EntryType::Unknown,
            },
        }
    }
}

impl EntryType {
    /// The extension that a file or archive was recognised by.
    pub fn ext(self) -> (r: Option<String>)
        ensures
            match r {
                Some(e) => entry_type_ext(self) == Some(e@),
                None => entry_type_ext(self) is None,
            },
    {
        match self {
            EntryType::Folder => None,
            EntryType::File(ext) => Some(ext),
            EntryType::Archive(ext) => Some(ext),
            EntryType::Unknown => None,
        }
    }

    /// Classifies the path `path`.
    pub fn from_path(path: &str) -> (r: EntryType)
        ensures
            entry_type_matches(path@, r),
    {
        EntryType::from_str(path)
    }

    /// Classifies the path `path`.
    pub fn from_str(path: &str) -> (r: EntryType)
        ensures
            entry_type_matches(path@, r),
    {
        if is_some(path) {
            let exts = exts_files();
            match crate::text::find_suffix(&exts, path) {
                Some(ext) => {
                    return EntryType::File(ext.to_string());
                },
                None => {},
            }
            let exts = exts_archives();
            match crate::text::find_suffix(&exts, path) {
                Some(ext) => {
                    return EntryType::Archive(ext.to_string());
                },
                None => {},
            }
        } else {
            return EntryType::Folder;
        }
        return EntryType::Unknown;
    }
}

/// Where a module URL points inside the plugin sources.
#[derive(Debug)]
pub struct FileInfo {
    /// `embed`, `static`, or either with `-archive`.
    pub scheme: String,
    /// The folder, or archive, that holds the file.
    pub entry: String,
    /// The file searched for.
    pub search: String,
    /// Index of the source.
    pub source: usize,
    /// The plugin's name.
    pub plugin: String,
}

/// The text that `FileInfo::url_create` parses:
/// `{scheme}+{source}://{search}:{plugin}@assets.serve/{entry}`.
pub open spec fn module_url_text(
    scheme: Seq<char>,
    source: usize,
    plugin: Seq<char>,
    entry: Seq<char>,
    search: Seq<char>,
) -> Seq<char> {
    scheme + "+"@ + decimal(source as nat) + "://"@ + search + ":"@ + plugin + "@assets.serve/"@
        + entry
}

/// The text that `FileInfo::create` parses:
/// `{scheme}://{search}:{source}@assets.serve/{entry}`.
pub open spec fn info_url_text(info: FileInfo) -> Seq<char> {
    info.scheme@ + "://"@ + info.search@ + ":"@ + decimal(info.source as nat) + "@assets.serve/"@
        + info.entry@
}

/// The part of `s` before the first `c` (all of `s` without one).
pub open spec fn before_first(s: Seq<char>, c: char) -> Seq<char> {
    let k = first_index_of(s, c);
    if k < 0 {
        s
    } else {
        s.take(k)
    }
}

/// The part of `s` after the first `c`, if there is one.
pub open spec fn after_first(s: Seq<char>, c: char) -> Option<Seq<char>> {
    let k = first_index_of(s, c);
    if k < 0 {
        None
    } else {
        Some(s.skip(k + 1))
    }
}

/// The source index that a module URL's scheme carries after its first `+`.
pub open spec fn scheme_source(scheme: Seq<char>) -> Option<usize> {
    match after_first(scheme, '+') {
        Some(rest) => parse_usize_spec(before_first(rest, '+')),
        None => None,
    }
}

/// Where the module URL `u` points: a path ending with a script extension is
/// split into folder and file name; an archive path is the entry and the
/// user name the file searched for; any other path is a folder (without a
/// leading `/`, with a trailing one) and the user name the file searched for.
pub open spec fn file_info_matches(u: UrlParts, info: FileInfo) -> bool {
    let e0 = u.path@.skip(1);
    &&& info.scheme@ == before_first(u.scheme@, '+')
    &&& Some(info.source) == scheme_source(u.scheme@)
    &&& info.plugin@ == match u.password {
        Some(p) => p@,
        None => Seq::<char>::empty(),
    }
    &&& if first_suffix(file_exts(), e0) is Some {
        let n = path_file_name(e0)->0;
        info.search@ == n && info.entry@ == e0.take(e0.len() - n.len())
    } else if first_suffix(archive_exts(), e0) is Some {
        info.entry@ == e0 && info.search@ == u.username@
    } else {
        let e1 = if "/"@.is_prefix_of(e0) {
            e0.skip(1)
        } else {
            e0
        };
        info.search@ == u.username@ && info.entry@ == (if "/"@.is_suffix_of(e1) {
            e1
        } else {
            e1 + "/"@
        })
    }
}

/// The scheme part of a module URL gives back what was written into it: for
/// a scheme without `+`, `{scheme}+{source}` reads as that scheme and that
/// source index.
pub proof fn lemma_scheme_source_reads_back(scheme: Seq<char>, source: usize)
    requires
        forall|i: int| 0 <= i < scheme.len() ==> scheme[i] != '+',
    ensures
        before_first(scheme + "+"@ + decimal(source as nat), '+') == scheme,
        scheme_source(scheme + "+"@ + decimal(source as nat)) == Some(source),
{
    reveal_strlit("+");
    let d = decimal(source as nat);
    let s = scheme + "+"@ + d;
    assert("+"@ =~= seq!['+']);
    lemma_first_index_of_split(scheme, '+', d);
    assert(s.take(scheme.len() as int) =~= scheme);
    assert(s.skip(scheme.len() as int + 1) =~= d);
    lemma_decimal_digits(source as nat);
    assert forall|i: int| 0 <= i < d.len() implies d[i] != '+' by {
        assert('0' <= d[i] <= '9');
    }
    lemma_first_index_of_absent(d, '+');
    lemma_decimal_parses(source);
}

/// A module URL is read back as the place it was made for. Where the URL
/// parser keeps the parts of the text that `url_create` gives it (the
/// scheme with the source index, the searched file as user name, the plugin
/// as password, and `/` before the entry), the place that `from_url` reads
/// from the parsed URL has the scheme, source index, plugin, entry and
/// search written into it, for a scheme without `+` and an entry that is a
/// folder (ending with `/`, not starting with one) or an archive.
pub proof fn lemma_module_url_reads_back(
    scheme: Seq<char>,
    source: usize,
    plugin: Seq<char>,
    entry: Seq<char>,
    search: Seq<char>,
    u: UrlParts,
    info: FileInfo,
)
    requires
        url_parse(module_url_text(scheme, source, plugin, entry, search)) == Some(u@),
        u.scheme@ == scheme + "+"@ + decimal(source as nat),
        u.username@ == search,
        opt_str_view(u.password) == Some(plugin),
        u.path@ == "/"@ + entry,
        forall|i: int| 0 <= i < scheme.len() ==> scheme[i] != '+',
        ("/"@.is_suffix_of(entry) && !"/"@.is_prefix_of(entry)) || (first_suffix(
            file_exts(),
            entry,
        ) is None && first_suffix(archive_exts(), entry) is Some),
        file_info_matches(u, info),
    ensures
        info.scheme@ == scheme,
        info.source == source,
        info.plugin@ == plugin,
        info.entry@ == entry,
        info.search@ == search,
{
    reveal_strlit("/");
    lemma_scheme_source_reads_back(scheme, source);
    assert(u.path@.skip(1) =~= entry);
    if "/"@.is_suffix_of(entry) && !"/"@.is_prefix_of(entry) {
        crate::utils::lemma_slash_no_ext(entry);
    }
}

/// The characters of `s` from `from` to `to`.
fn slice_chars(s: &str, from: usize, to: usize) -> (r: String)
    requires
        from <= to <= s@.len(),
    ensures
        r@ == s@.subrange(from as int, to as int),
{
    s.substring_char(from, to).to_string()
}

impl FileInfo {
    /// The URL of `entry` in source `source` reached by `scheme`, naming the
    /// file searched for and the plugin.
    pub fn url_create(scheme: &str, source: usize, plugin: &str, entry: &str, search: &str) -> (r:
        UrlParts)
        requires
            url_parse(module_url_text(scheme@, source, plugin@, entry@, search@)) is Some,
        ensures
            Some(r@) == url_parse(module_url_text(scheme@, source, plugin@, entry@, search@)),
    {
        let text = FileInfo::url_text(scheme, source, plugin, entry, search);
        match parse_url(text.as_str()) {
            Ok(u) => u,
            Err(_) => {
                proof {
                    assert(false);
                }
                UrlParts {
                    href: String::new(),
                    scheme: String::new(),
                    username: String::new(),
                    password: None,
                    path: String::new(),
                }
            },
        }
    }

    fn url_text(scheme: &str, source: usize, plugin: &str, entry: &str, search: &str) -> (r: String)
        ensures
            r@ == module_url_text(scheme@, source, plugin@, entry@, search@),
    {
        let mut s = scheme.to_string();
        s.append("+");
        let n = usize_to_string(source);
        s.append(n.as_str());
        s.append("://");
        s.append(search);
        s.append(":");
        s.append(plugin);
        s.append("@assets.serve/");
        s.append(entry);
        assert(s@ =~= module_url_text(scheme@, source, plugin@, entry@, search@));
        s
    }

    /// `url_create` where the URL parser accepts the text; `None` where it
    /// refuses it.
    pub fn try_url_create(scheme: &str, source: usize, plugin: &str, entry: &str, search: &str) -> (r:
        Option<UrlParts>)
        ensures
            match url_parse(module_url_text(scheme@, source, plugin@, entry@, search@)) {
                Some(v) => r matches Some(u) && u@ == v,
                None => r is None,
            },
    {
        let text = FileInfo::url_text(scheme, source, plugin, entry, search);
        match parse_url(text.as_str()) {
            Ok(_) => Some(FileInfo::url_create(scheme, source, plugin, entry, search)),
            Err(_) => None,
        }
    }

    /// Where the module URL `uri` points. The scheme must carry a source
    /// index after a `+`, and the path must start with `/`.
    pub fn from_url(uri: &UrlParts) -> (r: Result<FileInfo>)
        requires
            scheme_source(uri.scheme@) is Some,
            "/"@.is_prefix_of(uri.path@),
        ensures
            r matches Ok(info) && file_info_matches(*uri, info),
    {
        proof {
            reveal_strlit("/");
            reveal_strlit("");
        }
        let sc = crate::text::chars_of(uri.scheme.as_str());
        proof {
            assert(sc@.skip(0) =~= sc@);
        }
        let k = find_char(&sc, 0, '+').unwrap();
        assert(scheme_source(uri.scheme@) is Some);
        let scheme = slice_chars(uri.scheme.as_str(), 0, k);
        assert(scheme@ == before_first(uri.scheme@, '+'));
        let k2 = find_char(&sc, k + 1, '+');
        let end = match k2 {
            Some(j) => j,
            None => sc.len(),
        };
        let source_text = slice_chars(uri.scheme.as_str(), k + 1, end);
        proof {
            let rest = uri.scheme@.skip(k + 1);
            assert(source_text@ =~= before_first(rest, '+'));
        }
        let source = parse_usize(source_text.as_str()).unwrap();
        assert(Some(source) == scheme_source(uri.scheme@));
        let plen = uri.path.as_str().unicode_len();
        let entry = slice_chars(uri.path.as_str(), 1, plen);
        let ghost e0 = uri.path@.skip(1);
        assert(entry@ =~= e0);
        let (entry_path, search) = if check_for_file(entry.clone()).0 {
            proof {
                lemma_file_ext_name(e0);
            }
            let name = file_name(entry.as_str()).unwrap().to_string();
            let elen = entry.as_str().unicode_len();
            let nlen = name.as_str().unicode_len();
            (slice_chars(entry.as_str(), 0, elen - nlen), name)
        } else if check_for_archive(entry.clone()).0 {
            (entry, uri.username.clone())
        } else {
            let e1 = if str_starts_with(entry.as_str(), "/") {
                let n = entry.as_str().unicode_len();
                slice_chars(entry.as_str(), 1, n)
            } else {
                entry
            };
            let e2 = if !str_ends_with(e1.as_str(), "/") {
                let mut x = e1;
                x.append("/");
                x
            } else {
                e1
            };
            (e2, uri.username.clone())
        };
        let plugin = match &uri.password {
            Some(p) => p.clone(),
            None => String::new(),
        };
        assert(plugin@ == match uri.password {
            Some(p) => p@,
            None => Seq::<char>::empty(),
        });
        Ok(FileInfo { search, entry: entry_path, scheme, source, plugin })
    }

    /// The URL `{scheme}://{search}:{source}@assets.serve/{entry}`.
    pub fn create(&self) -> (r: UrlParts)
        requires
            url_parse(info_url_text(*self)) is Some,
        ensures
            Some(r@) == url_parse(info_url_text(*self)),
    {
        let text = self.create_text();
        match parse_url(text.as_str()) {
            Ok(u) => u,
            Err(_) => {
                proof {
                    assert(false);
                }
                UrlParts {
                    href: String::new(),
                    scheme: String::new(),
                    username: String::new(),
                    password: None,
                    path: String::new(),
                }
            },
        }
    }

    fn create_text(&self) -> (r: String)
        ensures
            r@ == info_url_text(*self),
    {
        let mut s = self.scheme.clone();
        s.append("://");
        s.append(self.search.as_str());
        s.append(":");
        let n = usize_to_string(self.source);
        s.append(n.as_str());
        s.append("@assets.serve/");
        s.append(self.entry.as_str());
        assert(s@ =~= info_url_text(*self));
        s
    }

    /// `create` where the URL parser accepts the text; `None` where it
    /// refuses it.
    pub fn try_create(&self) -> (r: Option<UrlParts>)
        ensures
            match url_parse(info_url_text(*self)) {
                Some(v) => r matches Some(u) && u@ == v,
                None => r is None,
            },
    {
        let text = self.create_text();
        match parse_url(text.as_str()) {
            Ok(_) => Some(self.create()),
            Err(_) => None,
        }
    }

    pub fn info(&self) -> (r: &FileInfo)
        ensures
            r == self,
    {
        self
    }
}

/// How a module is loaded: its media type, the kind of module, and whether it
/// must be transpiled.
#[derive(Debug)]
pub struct MediaInfo {
    pub media_type: MediaType,
    pub module_type: ModuleKind,
    pub transpile: bool,
}

impl MediaInfo {
    /// How the module at `uri` is loaded; media types other than scripts and
    /// JSON are an error.
    pub fn from_path(uri: &str) -> (r: Result<Self>)
        ensures
            ({
                let (m, mk) = media_type_from_path(uri@);
                match media_module(mk) {
                    Some((k, t)) => (r matches Ok(i) && i.media_type == m && i.module_type == k
                        && i.transpile == t),
                    None => r matches Err(PluginError::Unknown(_)),
                }
            }),
    {
        let (media_type, kind) = media_type_of(uri);
        let (module_type, transpile) = match kind {
            MediaKind::JavaScript => (ModuleKind::JavaScript, false),
            MediaKind::Mjs => (ModuleKind::JavaScript, false),
            MediaKind::Cjs => (ModuleKind::JavaScript, false),
            MediaKind::Jsx => (ModuleKind::JavaScript, true),
            MediaKind::TypeScript => (ModuleKind::JavaScript, true),
            MediaKind::Tsx => (ModuleKind::JavaScript, true),
            MediaKind::Json => (ModuleKind::Json, false),
            MediaKind::Other => {
                return Err(PluginError::Unknown("Unknown extension".to_string()));
            },
        };
        Ok(MediaInfo { media_type, module_type, transpile })
    }
}

/// Transpiles `code` when `should_transpile` holds, recording the source map
/// under the module's URL; otherwise hands `code` back unchanged.
pub fn transpile(
    code: String,
    source_maps: &mut SourceMaps,
    module_specifier: &UrlParts,
    media_type: MediaType,
    should_transpile: bool,
) -> (r: Result<String>)
    ensures
        !should_transpile ==> (r matches Ok(c) && c@ == code@ && final(source_maps)@ == old(
            source_maps,
        )@),
        should_transpile ==> match transpiled(code@, module_specifier.href@, media_type) {
            Some((text, Some(map))) => (r matches Ok(c) && c@ == text && final(source_maps)@ == old(
                source_maps,
            )@.insert(module_specifier.href@, vstd::utf8::encode_utf8(map))),
            Some((_, None)) => false,
            None => (r matches Err(PluginError::Transpile(_)) && final(source_maps)@ == old(
                source_maps,
            )@),
        },
{
    crate::find::transpile(code, source_maps, module_specifier, media_type, should_transpile)
}

} // verus!
