//! Classifying the entries of a plugin directory by extension, and the URLs
//! that name a file inside a plugin source.
use vstd::prelude::*;
use deno_ast::MediaType;
use crate::errors::{PluginError, Result};
use crate::script::{media_type_from_path, media_type_of, transpile_module, transpiled, MediaKind, ModuleKind};
use crate::text::{
    decimal, file_name, find_suffix, first_suffix, parse_usize_spec, path_file_name,
    replace_all, replace_str, reverse_dotted, reverse_dotted_str, str_starts_with, strs_view,
    usize_to_string, parse_usize,
};
use crate::maps::SourceMapStore;
use crate::weburl::{parse_url, url_parse, UrlParts};

verus! {

/// What a directory entry turned out to be.
#[derive(Debug, PartialEq, Eq)]
pub enum FindType {
    Folder,
    File(String),
    Archive(String),
    Unknown,
}

/// What `mime_guess2::from_ext(ext).first_raw()` gives: the first MIME type
/// registered for the extension `ext`, if any.
pub uninterp spec fn first_mime(ext: Seq<char>) -> Option<Seq<char>>;

/// Looks `ext` up with `mime_guess2::from_ext` and takes `first_raw`.
///
/// Trusted: the result is the table entry that mime_guess2 holds for `ext`,
/// named `first_mime`; the one fact stated of it, that an empty extension has
/// no MIME type, is the first line of `MimeGuess::from_ext`.
#[verifier::external_body]
fn guess_mime(ext: &str) -> (r: Option<String>)
    ensures
        match r {
            Some(m) => first_mime(ext@) == Some(m@),
            None => first_mime(ext@) is None,
        },
        ext@.len() == 0 ==> r is None,
{
    mime_guess2::from_ext(ext).first_raw().map(|m| m.to_string())
}

pub open spec fn find_type_ext(t: FindType) -> Option<Seq<char>> {
    match t {
        FindType::File(e) => Some(e@),
        FindType::Archive(e) => Some(e@),
        _ => None,
    }
}

impl FindType {
    /// The extension that a file or archive was recognised by.
    pub fn ext(self) -> (r: Option<String>)
        ensures
            match r {
                Some(e) => find_type_ext(self) == Some(e@),
                None => find_type_ext(self) is None,
            },
    {
        match self {
            FindType::Folder => None,
            FindType::File(ext) => Some(ext),
            FindType::Archive(ext) => Some(ext),
            FindType::Unknown => None,
        }
    }

    /// The MIME type of a file's or archive's extension. A folder or an
    /// unknown entry has none.
    pub fn mime(&self) -> (r: Option<String>)
        requires
            find_type_ext(*self) matches Some(e) ==> first_mime(e) is Some,
        ensures
            match r {
                Some(m) => find_type_ext(*self) matches Some(e) && first_mime(e) == Some(m@),
                None => find_type_ext(*self) is None,
            },
    {
        match self {
            FindType::Folder => None,
            FindType::File(ext) => guess_mime(ext.as_str()),
            FindType::Archive(ext) => guess_mime(ext.as_str()),
            FindType::Unknown => None,
        }
    }

    /// The MIME type of a file's or archive's extension, or `None` where
    /// `mime` has nothing to give: a folder, an unknown entry, or an
    /// extension without a registered MIME type.
    pub fn try_mime(&self) -> (r: Option<String>)
        ensures
            match r {
                Some(m) => find_type_ext(*self) matches Some(e) && first_mime(e) == Some(m@),
                None => find_type_ext(*self) matches Some(e) ==> first_mime(e) is None,
            },
    {
        let known = match self {
            FindType::File(ext) => guess_mime(ext.as_str()).is_some(),
            FindType::Archive(ext) => guess_mime(ext.as_str()).is_some(),
            _ => true,
        };
        if known {
            self.mime()
        } else {
            None
        }
    }
}

/// Script and data files, in the order a directory scan tries them.
pub open spec fn scan_file_exts() -> Seq<Seq<char>> {
    seq![".js"@, ".mjs"@, ".cjs"@, ".jsx"@, ".ts"@, ".tsx"@, ".json"@]
}

/// Archives, in the order a directory scan tries them.
pub open spec fn scan_archive_exts() -> Seq<Seq<char>> {
    seq![".7z"@, ".zip"@, ".tar"@, ".tar.gz"@, ".tar.xz"@]
}

pub open spec fn scan_exts() -> Seq<Seq<char>> {
    scan_file_exts() + scan_archive_exts()
}

pub fn exts_files() -> (r: Vec<&'static str>)
    ensures
        strs_view(r@) == scan_file_exts(),
{
    let r = vec![".js", ".mjs", ".cjs", ".jsx", ".ts", ".tsx", ".json"];
    assert(strs_view(r@) =~= scan_file_exts());
    r
}

pub fn exts_archives() -> (r: Vec<&'static str>)
    ensures
        strs_view(r@) == scan_archive_exts(),
{
    let r = vec![".7z", ".zip", ".tar", ".tar.gz", ".tar.xz"];
    assert(strs_view(r@) =~= scan_archive_exts());
    r
}

fn all_exts() -> (r: Vec<&'static str>)
    ensures
        strs_view(r@) == scan_exts(),
{
    let mut exts = exts_files();
    let mut more = exts_archives();
    exts.append(&mut more);
    assert(strs_view(exts@) =~= scan_exts());
    exts
}

/// Whether `path` ends with an archive extension, and the first it ends with.
pub fn is_archive(path: &str) -> (r: (bool, &'static str))
    ensures
        r.0 == (first_suffix(scan_archive_exts(), path@) is Some),
        r.0 ==> first_suffix(scan_archive_exts(), path@) == Some(r.1@),
        !r.0 ==> r.1@ == Seq::<char>::empty(),
{
    match find_suffix(&exts_archives(), path) {
        Some(e) => (true, e),
        None => {
            proof {
                reveal_strlit("");
            }
            (false, "")
        },
    }
}

/// Whether `path` ends with a file extension, and the first it ends with.
pub fn is_file(path: &str) -> (r: (bool, &'static str))
    ensures
        r.0 == (first_suffix(scan_file_exts(), path@) is Some),
        r.0 ==> first_suffix(scan_file_exts(), path@) == Some(r.1@),
        !r.0 ==> r.1@ == Seq::<char>::empty(),
{
    match find_suffix(&exts_files(), path) {
        Some(e) => (true, e),
        None => {
            proof {
                reveal_strlit("");
            }
            (false, "")
        },
    }
}

/// Whether the file name of `path` ends with a file or archive extension.
pub open spec fn scan_supported(path: Seq<char>) -> bool {
    match path_file_name(path) {
        Some(name) => first_suffix(scan_exts(), name) is Some,
        None => false,
    }
}

/// Whether the file name of `path` ends with a file or archive extension.
pub fn is_supported(path: &str) -> (r: bool)
    ensures
        r == scan_supported(path@),
{
    let exts = all_exts();
    match file_name(path) {
        Some(name) => find_suffix(&exts, name).is_some(),
        None => false,
    }
}

/// The first file or archive extension that `path` ends with.
pub fn get_ext(path: &str) -> (r: Option<&'static str>)
    ensures
        match r {
            Some(e) => first_suffix(scan_exts(), path@) == Some(e@),
            None => first_suffix(scan_exts(), path@) is None,
        },
{
    find_suffix(&all_exts(), path)
}

/// Classifies `path` as a directory scan does: a path without a supported
/// file name is a folder; otherwise the first file extension, then the first
/// archive extension, that the whole path ends with decides.
pub fn get_type(path: &str) -> (r: Option<FindType>)
    ensures
        !scan_supported(path@) ==> r == Some(FindType::Folder),
        scan_supported(path@) ==> match first_suffix(scan_file_exts(), path@) {
            Some(e) => r matches Some(FindType::File(x)) && x@ == e,
            None => match first_suffix(scan_archive_exts(), path@) {
                Some(e) => r matches Some(FindType::Archive(x)) && x@ == e,
                None => r is None,
            },
        },
{
    if is_supported(path) {
        match find_suffix(&exts_files(), path) {
            Some(ext) => {
                return Some(FindType::File(ext.to_string()));
            },
            None => {},
        }
        match find_suffix(&exts_archives(), path) {
            Some(ext) => {
                return Some(FindType::Archive(ext.to_string()));
            },
            None => {},
        }
    } else {
        return Some(FindType::Folder);
    }
    return None;
}


/// How the runtime loads a script of media type `m`: as what kind of module,
/// and whether it must be transpiled first. Other media types are refused.
pub open spec fn media_module(m: MediaKind) -> Option<(ModuleKind, bool)> {
    match m {
        MediaKind::JavaScript | MediaKind::Mjs | MediaKind::Cjs => Some((ModuleKind::JavaScript, false)),
        MediaKind::Jsx | MediaKind::TypeScript | MediaKind::Tsx => Some((ModuleKind::JavaScript, true)),
        MediaKind::Json => Some((ModuleKind::Json, false)),
        MediaKind::Other => None,
    }
}

/// The media type of `uri` (with `/\\` read as `\\`), the kind of module it
/// loads as, and whether it must be transpiled; other media types are an
/// error.
pub fn mediatype(uri: &str) -> (r: Result<(MediaType, ModuleKind, bool)>)
    ensures
        ({
            let (m, mk) = media_type_from_path(replace_all(uri@, "/\\"@, "\\"@));
            match media_module(mk) {
                Some((k, t)) => (r matches Ok((m2, k2, t2)) && m2 == m && k2 == k && t2 == t),
                None => r matches Err(PluginError::Unknown(_)),
            }
        }),
{
    proof {
        reveal_strlit("/\\");
    }
    let path = replace_str(uri, "/\\", "\\");
    let (media_type, kind) = media_type_of(path.as_str());
    match kind {
        MediaKind::JavaScript | MediaKind::Mjs | MediaKind::Cjs => Ok((media_type, ModuleKind::JavaScript, false)),
        MediaKind::Jsx => Ok((media_type, ModuleKind::JavaScript, true)),
        MediaKind::TypeScript => Ok((media_type, ModuleKind::JavaScript, true)),
        MediaKind::Tsx => Ok((media_type, ModuleKind::JavaScript, true)),
        MediaKind::Json => Ok((media_type, ModuleKind::Json, false)),
        MediaKind::Other => Err(PluginError::Unknown("Unknown extension".to_string())),
    }
}

/// Transpiles `code` when `should_transpile` holds, recording the source map
/// under the module's URL; otherwise hands `code` back unchanged.
pub fn transpile(
    code: String,
    source_maps: &mut SourceMapStore,
    module_specifier: &UrlParts,
    media_type: MediaType,
    should_transpile: bool,
) -> (r: Result<String>)
    ensures
        !should_transpile ==> (r matches Ok(c) && c@ == code@ && final(source_maps)@ == old(
            source_maps,
        )@),
        should_transpile ==> match transpiled(code@, module_specifier.href@, media_type) {
            Some((text, Some(map))) => (r matches Ok(c) && c@ == text && final(source_maps)@ == old(
                source_maps,
            )@.insert(module_specifier.href@, vstd::utf8::encode_utf8(map))),
            Some((_, None)) => false,
            None => (r matches Err(PluginError::Transpile(_)) && final(source_maps)@ == old(source_maps)@),
        },
{
    if should_transpile {
        match transpile_module(code.as_str(), module_specifier.href.as_str(), media_type) {
            Ok((text, Some(map))) => {
                let bytes = map.as_str().as_bytes_vec();
                source_maps.insert(module_specifier.href.clone(), bytes);
                Ok(text)
            },
            Ok((_, None)) => Err(PluginError::Transpile("no source map".to_string())),
            Err(e) => Err(PluginError::Transpile(e)),
        }
    } else {
        Ok(code)
    }
}

/// Where a module URL points: the source's scheme, the entry inside it, the
/// file searched for, and the index of the source.
pub struct UrlInfo {
    pub scheme: String,
    pub entry: String,
    pub search: String,
    pub source: usize,
}

/// The text that `url_create` parses:
/// `{scheme}://{search}:{source}@{reversed identifier}/{entry}`.
pub open spec fn created_url_text(
    scheme: Seq<char>,
    identifier: Seq<char>,
    search: Seq<char>,
    source: usize,
    entry: Seq<char>,
) -> Seq<char> {
    scheme + "://"@ + search + ":"@ + decimal(source as nat) + "@"@ + reverse_dotted(identifier)
        + "/"@ + entry
}

/// The URL of `entry` in a plugin known by the dotted `identifier`, whose
/// parts are reversed to form the host (`com.example.demo` becomes
/// `demo.example.com`); the user name carries `search` and the password the
/// source index.
pub fn url_create(scheme: &str, identifier: &str, search: &str, source: usize, entry: &str) -> (r:
    Result<UrlParts>)
    ensures
        match url_parse(created_url_text(scheme@, identifier@, search@, source, entry@)) {
            Some(v) => (r matches Ok(u) && u@ == v),
            None => r matches Err(PluginError::UrlParse),
        },
{
    let mut s = scheme.to_string();
    s.append("://");
    s.append(search);
    s.append(":");
    let n = usize_to_string(source);
    s.append(n.as_str());
    s.append("@");
    let id = reverse_dotted_str(identifier);
    s.append(id.as_str());
    s.append("/");
    s.append(entry);
    assert(s@ =~= created_url_text(scheme@, identifier@, search@, source, entry@));
    match parse_url(s.as_str()) {
        Ok(u) => Ok(u),
        Err(_) => Err(PluginError::UrlParse),
    }
}

/// The string after the first character.
fn drop_first_char(s: &str) -> (r: &str)
    requires
        s@.len() >= 1,
    ensures
        r@ == s@.skip(1),
{
    let n = s.unicode_len();
    s.substring_char(1, n)
}

/// Reads back where a module URL points: the entry is the path without its
/// leading `/`, the search is the user name, and the source index is the
/// password.
pub fn url_info(uri: &UrlParts) -> (r: Result<UrlInfo>)
    requires
        "/"@.is_prefix_of(uri.path@),
        uri.password matches Some(p) && parse_usize_spec(p@) is Some,
    ensures
        (r matches Ok(info) && info.scheme@ == uri.scheme@ && info.entry@ == uri.path@.skip(1)
            && info.search@ == uri.username@ && Some(info.source) == parse_usize_spec(
            uri.password.unwrap()@,
        )),
{
    proof {
        reveal_strlit("/");
    }
    let password = match &uri.password {
        Some(p) => p,
        None => {
            return Err(PluginError::UrlParse);
        },
    };
    let source = match parse_usize(password.as_str()) {
        Some(n) => n,
        None => {
            return Err(PluginError::UrlParse);
        },
    };
    Ok(
        UrlInfo {
            scheme: uri.scheme.clone(),
            entry: drop_first_char(uri.path.as_str()).to_string(),
            search: uri.username.clone(),
            source,
        },
    )
}

/// A URL made by `url_create` is read back by `url_info` as the place it was
/// made for: where the URL parser keeps the parts of the text it was given
/// (scheme, searched file as user name, source index as password, `/` before
/// the entry), `url_info` may be called on it and gives back that scheme,
/// entry, search and source index.
pub proof fn lemma_url_info_reads_back(
    scheme: Seq<char>,
    identifier: Seq<char>,
    search: Seq<char>,
    source: usize,
    entry: Seq<char>,
    u: UrlParts,
)
    requires
        url_parse(created_url_text(scheme, identifier, search, source, entry)) == Some(u@),
        u.scheme@ == scheme,
        u.username@ == search,
        crate::weburl::opt_str_view(u.password) == Some(decimal(source as nat)),
        u.path@ == "/"@ + entry,
    ensures
        "/"@.is_prefix_of(u.path@),
        u.password matches Some(p) && parse_usize_spec(p@) == Some(source),
        u.path@.skip(1) == entry,
{
    reveal_strlit("/");
    crate::text::lemma_decimal_parses(source);
    assert(u.path@.skip(1) =~= entry);
}

} // verus!
