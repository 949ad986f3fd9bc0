//! Script kinds and the TypeScript/JSX transpiler.
use vstd::prelude::*;
use deno_ast::MediaType;

verus! {

#[verifier::external_type_specification]
#[verifier::external_body]
pub struct ExMediaType(deno_ast::MediaType);

/// Which of the media types that the runtime tells apart a script has: the
/// JavaScript, TypeScript and JSON ones, and any other.
#[derive(Debug, Clone, Copy, PartialEq, Eq, Structural)]
pub enum MediaKind {
    JavaScript,
    Jsx,
    Mjs,
    Cjs,
    TypeScript,
    Tsx,
    Json,
    Other,
}

/// The kind of module that the runtime loads a script as.
#[derive(Debug, Clone, Copy, PartialEq, Eq, Structural)]
pub enum ModuleKind {
    JavaScript,
    Json,
}

/// What `deno_ast::MediaType::from_path` makes of the path `p`, with the
/// kind of that media type.
pub uninterp spec fn media_type_from_path(p: Seq<char>) -> (MediaType, MediaKind);

/// Calls `deno_ast::MediaType::from_path` on `path` and tells its variant
/// apart, one arm for each variant the runtime loads.
///
/// Trusted: the result is the media type that deno_ast derives from the
/// path's file name and extension, named `media_type_from_path`, with its
/// variant; the mapping itself (lower-casing, `.d.ts` detection) is not
/// stated.
#[verifier::external_body]
pub(crate) fn media_type_of(path: &str) -> (r: (MediaType, MediaKind))
    ensures
        r == media_type_from_path(path@),
{
    let m = MediaType::from_path(std::path::Path::new(path));
    let kind = match m {
        MediaType::JavaScript => MediaKind::JavaScript,
        MediaType::Jsx => MediaKind::Jsx,
        MediaType::Mjs => MediaKind::Mjs,
        MediaType::Cjs => MediaKind::Cjs,
        MediaType::TypeScript => MediaKind::TypeScript,
        MediaType::Tsx => MediaKind::Tsx,
        MediaType::Json => MediaKind::Json,
        _ => MediaKind::Other,
    };
    (m, kind)
}

/// What deno_ast's parse-and-transpile gives for source `code` of kind
/// `media` known by the URL `specifier`: the emitted JavaScript and the
/// separate source map, or none when it refuses the input.
pub uninterp spec fn transpiled(code: Seq<char>, specifier: Seq<char>, media: MediaType) -> Option<
    (Seq<char>, Option<Seq<char>>),
>;

/// Parses `code` as a module with `deno_ast::parse_module` and transpiles it
/// with `ParsedSource::transpile`: unused imports removed, the source map
/// emitted separately with the sources inlined.
///
/// Trusted: the result is what deno_ast gives for these arguments, named
/// `transpiled`, with errors reduced to their messages. The one further
/// claim, that a successful emit carries a source map, is what deno_ast's
/// emitter does under `SourceMapOption::Separate`.
#[verifier::external_body]
pub(crate) fn transpile_module(code: &str, specifier: &str, media: MediaType) -> (r:
    std::result::Result<(String, Option<String>), String>)
    ensures
        match r {
            Ok((text, map)) => transpiled(code@, specifier@, media) == Some(
                (text@, crate::weburl::opt_str_view(map)),
            ) && map is Some,
            Err(_) => transpiled(code@, specifier@, media) is None,
        },
{
    let specifier = deno_ast::ModuleSpecifier::parse(specifier).map_err(|e| e.to_string())?;
    let params = deno_ast::ParseParams { specifier, text: code.into(), media_type: media, capture_tokens: false, scope_analysis: false, maybe_syntax: None };
    let options = deno_ast::TranspileOptions { imports_not_used_as_values: deno_ast::ImportsNotUsedAsValues::Remove, ..Default::default() };
    let emit = deno_ast::EmitOptions { source_map: deno_ast::SourceMapOption::Separate, inline_sources: true, ..Default::default() };
    let module = deno_ast::TranspileModuleOptions { module_kind: None };
    let out = deno_ast::parse_module(params).map_err(|e| e.to_string())?.transpile(&options, &module, &emit).map_err(|e| e.to_string())?;
    let out = out.into_source();
    Ok((out.text, out.source_map))
}

} // verus!
