# plugins_rs

The source handling of a JavaScript plugin system, verified with Verus.

Plugins come from directories on disk, from directory trees embedded in the
program, and from archives (`.7z`, `.zip`, `.tar`, `.tar.gz`/`.tgz`,
`.tar.xz`/`.txz`) inside either. The library reads those sources into found
files, records the entry modules and the `plugin.json` manifests, gives each
module a URL, and loads a module again from its URL: it finds the file,
decides its media type and transpiles TypeScript and JSX.

## Layout

- `src/` — the verified library.
  - `text.rs`: strings and `/`-separated paths (file names, extensions,
    replacement, decimal numbers), each function against a specification.
  - `utils/`, `find.rs`: the supported extensions and the classification of
    paths; media types and module URLs.
  - `unpack.rs`, `archive.rs`: the archive readers (zip, tar and its gzip/xz
    flavours, 7z) behind trusted wrappers, and the listings built on them.
  - `efs.rs`: in-memory file trees (`PluginsFs`) and how a walk of a
    directory becomes one.
  - `maps.rs`: byte strings by name (source maps).
  - `modules/`: plugin sources, the source loader (preload, manifests,
    lookups), module URLs and the module loader.
  - `sources.rs`, `reader.rs`, `loader.rs`: plugin directories read entry by
    entry, the reader over a list of them, and its module loader.
  - `extensions.rs`: the identifiers offered to scripts.
  - `weburl.rs`, `script.rs`: the URL parser and the TypeScript/JSX
    transpiler behind trusted wrappers.
- `tests/` — tests on concrete values, with real archives built by the
  archive crates.
- `app/` — what Verus does not see: reading directories from disk, the serde
  forms of manifests and outputs, and the deno_core runtime that loads and
  runs the plugins.

Reads hand their results on as they go, as callbacks would: an archive
whose read stops part way has handed on the members before that point, and
so have the directory readers, the file lister, the preload and the search
for manifests built on it. Directories on disk are walked one at a time, as
far as a module lookup needs them: the module loader answers `None` to ask
for the next walk.

Each public proof function states a law of the library: module URLs are read
back as the place they were made for, a script file that an embedded source
gives is found again by a lookup, archive formats and their extensions
correspond one to one, a byte map reads back what was written, the map of an
archive's files holds what its reader reads (the last member at each path),
and a lookup that the directories walked so far settle stays settled when
more are walked.
