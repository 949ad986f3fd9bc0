//! Plugin sources: what their files are, how they are read, and how a module
//! is looked up in them.
use vstd::prelude::*;
use crate::efs::{FsFile, PluginsFs};
use crate::errors::{PluginError, Result};
use crate::modules::archives::{
    archive_files_listing, archive_files_partial, archive_type_of, lemma_archive_exts_typed, read_archive, ArchiveType,
};
use crate::modules::types::{EmbedEntry, ItemView, Plugin, SourceEntry, SourceItem};
use crate::modules::utils::{module_url_text, FileInfo};
use crate::text::{
    file_name, first_suffix, lemma_first_suffix, path_file_name, str_eq, str_ends_with,
};
use crate::unpack::{entries_view, opt_bytes_view, strings_view, EntryView, RawEntry};
use crate::utils::{
    archive_exts, check_for_archive, check_for_file, file_exts, is_some, is_supported_path,
    lemma_file_ext_name,
};
use crate::weburl::{opt_str_view, url_parse, UrlView};

verus! {

broadcast use vstd::string::group_string_axioms;

/// What a path in a source is.
#[derive(Debug)]
pub enum SourceType {
    Folder,
    File(String),
    Archive(ArchiveType),
}

/// How `path` is classified: by its first file extension, else by its first
/// archive extension, else as a folder when it is a directory on disk.
pub open spec fn source_type_matches(path: Seq<char>, is_dir: bool, r: Option<SourceType>) -> bool {
    match first_suffix(file_exts(), path) {
        Some(e) => r matches Some(SourceType::File(x)) && x@ == e,
        None => match first_suffix(archive_exts(), path) {
            Some(e) => match archive_type_of(e) {
                Some(t) => r == Some(SourceType::Archive(t)),
                None => if is_dir {
                    r matches Some(SourceType::Folder)
                } else {
                    r is None
                },
            },
            None => if is_dir {
                r matches Some(SourceType::Folder)
            } else {
                r is None
            },
        },
    }
}

/// Whether two source types are the same.
pub open spec fn same_source_type(a: SourceType, b: SourceType) -> bool {
    match (a, b) {
        (SourceType::Folder, SourceType::Folder) => true,
        (SourceType::File(x), SourceType::File(y)) => x@ == y@,
        (SourceType::Archive(x), SourceType::Archive(y)) => x == y,
        _ => false,
    }
}

impl SourceType {
    /// Classifies `path`; `is_dir` tells whether the path is a directory on
    /// disk, which decides only for a path without a supported extension.
    pub fn get(path: &str, is_dir: bool) -> (r: Option<SourceType>)
        ensures
            source_type_matches(path@, is_dir, r),
    {
        let (is_file, ext_file) = check_for_file(path.to_string());
        if is_file {
            return Some(SourceType::File(ext_file.to_string()));
        }
        let (is_archive, ext_archive) = check_for_archive(path.to_string());
        if is_archive {
            match ArchiveType::from_ext(ext_archive) {
                Some(ext) => {
                    return Some(SourceType::Archive(ext));
                },
                _ => {},
            }
        }
        if is_dir {
            return Some(SourceType::Folder);
        }
        None
    }

    pub fn check(&self, source_type: &SourceType) -> (r: bool)
        ensures
            r == same_source_type(*self, *source_type),
    {
        match (self, source_type) {
            (SourceType::Folder, SourceType::Folder) => true,
            (SourceType::File(a), SourceType::File(b)) => str_eq(a.as_str(), b.as_str()),
            (SourceType::Archive(a), SourceType::Archive(b)) => *a == *b,
            _ => false,
        }
    }
}

/// Comparing source types is an equivalence: each is the same as itself,
/// and the comparison does not depend on the order.
pub proof fn lemma_same_source_type_equiv(a: SourceType, b: SourceType, c: SourceType)
    ensures
        same_source_type(a, a),
        same_source_type(a, b) == same_source_type(b, a),
        same_source_type(a, b) && same_source_type(b, c) ==> same_source_type(a, c),
{
}

/// Which files of a source a read hands on.
#[derive(Debug, Clone, Copy, PartialEq, Eq, Structural)]
pub enum ReadMode {
    /// Script files and the plugin files inside archives.
    All,
    /// Script files only.
    Files,
    /// The plugin files inside archives only.
    Archives,
}

/// Whether a source may be read: each of its files has a script or archive
/// extension.
pub open spec fn readable_path(p: Seq<char>) -> bool {
    first_suffix(file_exts(), p) is Some || first_suffix(archive_exts(), p) is Some
}

pub open spec fn readable_files(files: Seq<FsFile>) -> bool {
    forall|i: int| 0 <= i < files.len() ==> readable_path((#[trigger] files[i]).path@)
}

/// The archive format of a path with an archive extension.
pub open spec fn path_archive_type(p: Seq<char>) -> ArchiveType {
    archive_type_of(first_suffix(archive_exts(), p)->0)->0
}

/// The items an archive's plugin files give: the scheme gains `-archive`,
/// the entry and archive are the archive's path, and the search is the
/// member's path.
pub open spec fn archive_items(
    l: Seq<EntryView>,
    id: usize,
    scheme: Seq<char>,
    path: Seq<char>,
) -> Seq<ItemView> {
    l.filter(|x: EntryView| is_supported_path(x.0)).map_values(
        |x: EntryView| (id, scheme + "-archive"@, path, x.0, Some(path), x.1),
    )
}

/// The items that one file hands on under `mode`, and whether its read went
/// to its end: a script file itself (unless only archives are read), an
/// archive its plugin files (unless only script files are read), up to where
/// the archive's read stops.
pub open spec fn file_partial(mode: ReadMode, id: usize, scheme: Seq<char>, f: FsFile) -> (
    Seq<ItemView>,
    bool,
) {
    let p = f.path@;
    if first_suffix(file_exts(), p) is Some {
        if mode == ReadMode::Archives {
            (Seq::empty(), true)
        } else {
            let n = path_file_name(p)->0;
            (seq![(id, scheme, p.take(p.len() - n.len()), n, None, Some(f.content@))], true)
        }
    } else if mode == ReadMode::Files {
        (Seq::empty(), true)
    } else {
        let l = archive_files_partial(path_archive_type(p), true, f.content@);
        (archive_items(l.0, id, scheme, p), l.1)
    }
}

/// The items that one file gives under `mode`, where its read goes to its
/// end.
pub open spec fn file_items(mode: ReadMode, id: usize, scheme: Seq<char>, f: FsFile) -> Option<
    Seq<ItemView>,
> {
    let x = file_partial(mode, id, scheme, f);
    if x.1 {
        Some(x.0)
    } else {
        None
    }
}

/// The items that `files` give, in order; a file whose archive cannot be
/// read fails the whole read.
pub open spec fn fs_items(mode: ReadMode, id: usize, scheme: Seq<char>, files: Seq<FsFile>) -> Option<
    Seq<ItemView>,
>
    decreases files.len(),
{
    if files.len() == 0 {
        Some(Seq::empty())
    } else {
        match fs_items(mode, id, scheme, files.drop_last()) {
            None => None,
            Some(a) => match file_items(mode, id, scheme, files.last()) {
                None => None,
                Some(b) => Some(a + b),
            },
        }
    }
}

/// The items that `files` hand on, in order, and whether every read went to
/// its end; the first archive whose read stops ends the whole read.
pub open spec fn fs_partial(mode: ReadMode, id: usize, scheme: Seq<char>, files: Seq<FsFile>) -> (
    Seq<ItemView>,
    bool,
)
    decreases files.len(),
{
    if files.len() == 0 {
        (Seq::empty(), true)
    } else {
        let a = fs_partial(mode, id, scheme, files.drop_last());
        if !a.1 {
            a
        } else {
            let b = file_partial(mode, id, scheme, files.last());
            (a.0 + b.0, b.1)
        }
    }
}

/// A read of `files` gives its items exactly where it goes to its end.
pub proof fn lemma_fs_complete(mode: ReadMode, id: usize, scheme: Seq<char>, files: Seq<FsFile>)
    ensures
        fs_items(mode, id, scheme, files) == (if fs_partial(mode, id, scheme, files).1 {
            Some(fs_partial(mode, id, scheme, files).0)
        } else {
            None
        }),
    decreases files.len(),
{
    if files.len() > 0 {
        lemma_fs_complete(mode, id, scheme, files.drop_last());
    }
}

/// Once a read of the first `k` files stops, reading more of them hands on
/// nothing more.
proof fn lemma_fs_partial_stops(mode: ReadMode, id: usize, scheme: Seq<char>, files: Seq<FsFile>, k: int)
    requires
        0 <= k <= files.len(),
        !fs_partial(mode, id, scheme, files.take(k)).1,
    ensures
        forall|j: int|
            k <= j <= files.len() ==> #[trigger] fs_partial(mode, id, scheme, files.take(j))
                == fs_partial(mode, id, scheme, files.take(k)),
    decreases files.len() - k,
{
    if k < files.len() {
        assert(files.take(k + 1).drop_last() =~= files.take(k));
        lemma_fs_partial_stops(mode, id, scheme, files, k + 1);
    }
}

pub open spec fn items_view(v: Seq<SourceItem>) -> Seq<ItemView> {
    v.map_values(|i: SourceItem| i@)
}

/// A plugin source.
pub struct Source {
    inner: SourceEntry,
}

/// The files that a source gives to a reader of embedded sources (when
/// `embedded`) or of sources on disk, whose directory reads as `walked`.
pub open spec fn source_files(src: Source, embedded: bool, walked: Seq<FsFile>) -> Seq<FsFile> {
    match src.entry() {
        SourceEntry::Embed(fs) => if embedded {
            fs.files@
        } else {
            Seq::empty()
        },
        SourceEntry::Static(_) => if embedded {
            Seq::empty()
        } else {
            walked
        },
    }
}

pub open spec fn reader_scheme(embedded: bool) -> Seq<char> {
    if embedded {
        "embed"@
    } else {
        "static"@
    }
}

/// The items that a read of `src` gives.
pub open spec fn source_items(
    src: Source,
    embedded: bool,
    walked: Seq<FsFile>,
    mode: ReadMode,
    id: usize,
) -> Option<Seq<ItemView>> {
    fs_items(mode, id, reader_scheme(embedded), source_files(src, embedded, walked))
}

/// The items that a read of `src` hands on, and whether it goes to its end.
pub open spec fn source_partial(
    src: Source,
    embedded: bool,
    walked: Seq<FsFile>,
    mode: ReadMode,
    id: usize,
) -> (Seq<ItemView>, bool) {
    fs_partial(mode, id, reader_scheme(embedded), source_files(src, embedded, walked))
}

impl Source {
    pub closed spec fn entry(self) -> SourceEntry {
        self.inner
    }

    pub fn from_embed(dir: PluginsFs) -> (r: Self)
        ensures
            r.entry() == SourceEntry::Embed(dir),
    {
        Self { inner: SourceEntry::Embed(dir) }
    }

    pub fn from_static(dir: String) -> (r: Self)
        ensures
            r.entry() == SourceEntry::Static(dir),
    {
        Self { inner: SourceEntry::Static(dir) }
    }

    /// Where this source's files come from.
    pub fn origin(&self) -> (r: &SourceEntry)
        ensures
            *r == self.entry(),
    {
        &self.inner
    }

    /// Whether a read of this source can go through, as a reader of embedded
    /// sources (when `embedded`) or of sources on disk whose directory reads
    /// as `walked`.
    pub fn is_readable(&self, embedded: bool, walked: &Vec<FsFile>) -> (r: bool)
        ensures
            r == self.readable(embedded, walked@),
    {
        let files = match &self.inner {
            SourceEntry::Embed(efs) => {
                if embedded {
                    &efs.files
                } else {
                    walked
                }
            },
            SourceEntry::Static(_) => walked,
        };
        let none = match &self.inner {
            SourceEntry::Embed(_) => !embedded,
            SourceEntry::Static(_) => embedded,
        };
        if none {
            assert(source_files(*self, embedded, walked@) =~= Seq::<FsFile>::empty());
            return true;
        }
        let mut i: usize = 0;
        while i < files.len()
            invariant
                i <= files@.len(),
                files@ == source_files(*self, embedded, walked@),
                forall|j: int| 0 <= j < i ==> readable_path((#[trigger] files@[j]).path@),
            decreases files.len() - i,
        {
            let p = files[i].path.to_str();
            if !check_for_file(p.to_string()).0 && !check_for_archive(p.to_string()).0 {
                return false;
            }
            i = i + 1;
        }
        true
    }

    /// Whether a read of this source can go through: each file it gives has a
    /// script or archive extension.
    pub open spec fn readable(self, embedded: bool, walked: Seq<FsFile>) -> bool {
        readable_files(source_files(self, embedded, walked))
    }

    /// The items that one file hands on under `mode`, up to where an
    /// archive's read stops, and an error there.
    fn mode_files(&self, mode: ReadMode, source_id: usize, scheme: &str, entry: &FsFile) -> (r: (
        Vec<SourceItem>,
        Result<()>,
    ))
        requires
            readable_path(entry.path@),
        ensures
            items_view(r.0@) == file_partial(mode, source_id, scheme@, *entry).0,
            r.1 is Ok <==> file_partial(mode, source_id, scheme@, *entry).1,
    {
        let path = entry.path.to_str();
        proof {
            lemma_first_suffix(archive_exts(), path@);
            if first_suffix(file_exts(), path@) is None {
                lemma_archive_exts_typed(first_suffix(archive_exts(), path@)->0);
            }
        }
        match SourceType::get(path, false) {
            Some(SourceType::File(_ext)) => {
                let mut out: Vec<SourceItem> = Vec::new();
                if mode == ReadMode::Archives {
                    assert(items_view(out@) =~= Seq::<ItemView>::empty());
                    return (out, Ok(()));
                }
                proof {
                    lemma_file_ext_name(path@);
                }
                let filename = entry.path.file_name().unwrap();
                let total = path.unicode_len();
                let n = filename.unicode_len();
                let filepath = path.substring_char(0, total - n);
                out.push(
                    SourceItem {
                        source: source_id,
                        scheme: scheme.to_string(),
                        entry: filepath.to_string(),
                        search: filename.to_string(),
                        archive: None,
                        content: Some(vstd::slice::slice_to_vec(entry.content.data())),
                    },
                );
                assert(items_view(out@) =~= file_partial(mode, source_id, scheme@, *entry).0);
                (out, Ok(()))
            },
            Some(SourceType::Archive(atype)) => {
                let mut out: Vec<SourceItem> = Vec::new();
                if mode == ReadMode::Files {
                    assert(items_view(out@) =~= Seq::<ItemView>::empty());
                    return (out, Ok(()));
                }
                let mut members: Vec<RawEntry> = Vec::new();
                let res = read_archive(atype, true, entry.content.data(), &mut members);
                assert(entries_view(members@) =~= archive_files_partial(atype, true, entry.content@).0);
                let mut archive_scheme = scheme.to_string();
                archive_scheme.append("-archive");
                let ghost l = entries_view(members@);
                let ghost pred = |x: EntryView| is_supported_path(x.0);
                let ghost f = |x: EntryView|
                    (source_id, scheme@ + "-archive"@, path@, x.0, Some(path@), x.1);
                let mut i: usize = 0;
                assert(l.take(0).filter(pred) =~= Seq::<EntryView>::empty());
                assert(items_view(out@) =~= Seq::<ItemView>::empty());
                while i < members.len()
                    invariant
                        i <= members@.len(),
                        l == entries_view(members@),
                        pred == (|x: EntryView| is_supported_path(x.0)),
                        f == (|x: EntryView|
                            (source_id, scheme@ + "-archive"@, path@, x.0, Some(path@), x.1)),
                        archive_scheme@ == scheme@ + "-archive"@,
                        path@ == entry.path@,
                        items_view(out@) == l.take(i as int).filter(pred).map_values(f),
                    decreases members.len() - i,
                {
                    proof {
                        reveal_with_fuel(Seq::filter, 1);
                        assert(l.take(i + 1).drop_last() =~= l.take(i as int));
                    }
                    let (apath, adata) = (&members[i].0, &members[i].1);
                    proof {
                        assert(l[i as int] == (apath@, crate::unpack::opt_bytes_view(*adata)));
                        assert(l.take(i + 1).last() == l[i as int]);
                    }
                    let ghost before = items_view(out@);
                    if is_some(apath.as_str()) {
                        let content = match adata {
                            Some(b) => Some(vstd::slice::slice_to_vec(b.as_slice())),
                            None => None,
                        };
                        out.push(
                            SourceItem {
                                source: source_id,
                                scheme: archive_scheme.clone(),
                                entry: path.to_string(),
                                search: apath.clone(),
                                archive: Some(path.to_string()),
                                content,
                            },
                        );
                    }
                    proof {
                        if pred(l[i as int]) {
                            assert(l.take(i + 1).filter(pred) =~= l.take(i as int).filter(pred).push(l[i as int]));
                            assert(items_view(out@) =~= before.push(f(l[i as int])));
                        } else {
                            assert(l.take(i + 1).filter(pred) =~= l.take(i as int).filter(pred));
                        }
                        assert(items_view(out@) =~= l.take(i + 1).filter(pred).map_values(f));
                    }
                    i = i + 1;
                }
                proof {
                    assert(l.take(i as int) =~= l);
                    let t = path_archive_type(path@);
                    lemma_first_suffix(archive_exts(), path@);
                }
                (out, res)
            },
            _ => {
                proof {
                    assert(false);
                }
                (Vec::new(), Ok(()))
            },
        }
    }

    /// Hands the items that one file gives under `mode` on to `out`, up to
    /// where an archive's read stops.
    pub fn get_mode_files(
        &self,
        mode: ReadMode,
        source_id: usize,
        scheme: &str,
        entry: &FsFile,
        out: &mut Vec<SourceItem>,
    ) -> (r: Result<()>)
        requires
            readable_path(entry.path@),
        ensures
            items_view(final(out)@) == items_view(old(out)@) + file_partial(
                mode,
                source_id,
                scheme@,
                *entry,
            ).0,
            r is Ok <==> file_partial(mode, source_id, scheme@, *entry).1,
    {
        let (mut got, r) = self.mode_files(mode, source_id, scheme, entry);
        let ghost o = out@;
        let ghost g = got@;
        out.append(&mut got);
        proof {
            assert(items_view(out@) =~= items_view(o) + items_view(g));
        }
        r
    }

    /// Hands the items that one file gives on to `out`: a script file itself,
    /// an archive its plugin files, up to where the archive's read stops.
    pub fn get_all_files(&self, source_id: usize, scheme: &str, entry: &FsFile, out: &mut Vec<SourceItem>) -> (r:
        Result<()>)
        requires
            readable_path(entry.path@),
        ensures
            items_view(final(out)@) == items_view(old(out)@) + file_partial(
                ReadMode::All,
                source_id,
                scheme@,
                *entry,
            ).0,
            r is Ok <==> file_partial(ReadMode::All, source_id, scheme@, *entry).1,
    {
        self.get_mode_files(ReadMode::All, source_id, scheme, entry, out)
    }

    /// Hands the item that a script file gives on to `out`; an archive gives
    /// none.
    pub fn get_files(&self, source_id: usize, scheme: &str, entry: &FsFile, out: &mut Vec<SourceItem>) -> (r:
        Result<()>)
        requires
            readable_path(entry.path@),
        ensures
            items_view(final(out)@) == items_view(old(out)@) + file_partial(
                ReadMode::Files,
                source_id,
                scheme@,
                *entry,
            ).0,
            r is Ok <==> file_partial(ReadMode::Files, source_id, scheme@, *entry).1,
    {
        self.get_mode_files(ReadMode::Files, source_id, scheme, entry, out)
    }

    /// Hands the plugin files that an archive gives on to `out`, up to where
    /// its read stops; a script file gives none.
    pub fn get_archive_files(&self, source_id: usize, scheme: &str, entry: &FsFile, out: &mut Vec<SourceItem>) -> (r:
        Result<()>)
        requires
            readable_path(entry.path@),
        ensures
            items_view(final(out)@) == items_view(old(out)@) + file_partial(
                ReadMode::Archives,
                source_id,
                scheme@,
                *entry,
            ).0,
            r is Ok <==> file_partial(ReadMode::Archives, source_id, scheme@, *entry).1,
    {
        self.get_mode_files(ReadMode::Archives, source_id, scheme, entry, out)
    }

    /// Hands every item of a source's `files`, read under `mode`, on to
    /// `out`, up to where an archive's read stops.
    fn read_fs(&self, mode: ReadMode, source_id: usize, scheme: &str, files: &Vec<FsFile>, out: &mut Vec<
        SourceItem,
    >) -> (r: Result<()>)
        requires
            readable_files(files@),
        ensures
            items_view(final(out)@) == items_view(old(out)@) + fs_partial(mode, source_id, scheme@, files@).0,
            r is Ok <==> fs_partial(mode, source_id, scheme@, files@).1,
    {
        let ghost base = items_view(out@);
        let mut i: usize = 0;
        assert(files@.take(0) =~= Seq::<FsFile>::empty());
        assert(base + Seq::<ItemView>::empty() =~= base);
        while i < files.len()
            invariant
                i <= files@.len(),
                readable_files(files@),
                base == items_view(old(out)@),
                fs_partial(mode, source_id, scheme@, files@.take(i as int)).1,
                items_view(out@) == base + fs_partial(mode, source_id, scheme@, files@.take(i as int)).0,
            decreases files.len() - i,
        {
            proof {
                assert(files@.take(i + 1).drop_last() =~= files@.take(i as int));
                assert(files@.take(i + 1).last() == files@[i as int]);
            }
            let (mut more, res) = self.mode_files(mode, source_id, scheme, &files[i]);
            let ghost a = items_view(out@);
            let ghost m = items_view(more@);
            out.append(&mut more);
            proof {
                assert(items_view(out@) =~= a + m);
                let x = fs_partial(mode, source_id, scheme@, files@.take(i as int));
                assert(base + (x.0 + m) =~= (base + x.0) + m);
                assert(fs_partial(mode, source_id, scheme@, files@.take(i + 1)) == (
                    x.0 + m,
                    file_partial(mode, source_id, scheme@, files@[i as int]).1,
                ));
            }
            match res {
                Ok(()) => {},
                Err(e) => {
                    proof {
                        lemma_fs_partial_stops(mode, source_id, scheme@, files@, i as int + 1);
                        assert(files@.take(files@.len() as int) =~= files@);
                    }
                    return Err(e);
                },
            };
            i = i + 1;
        }
        proof {
            assert(files@.take(i as int) =~= files@);
        }
        Ok(())
    }

    /// Reads this source as a reader of embedded sources (when `embedded`)
    /// or of sources on disk, whose directory reads as `walked`, handing its
    /// items on to `out` up to where an archive's read stops.
    pub fn read_mode(
        &self,
        embedded: bool,
        walked: &Vec<FsFile>,
        mode: ReadMode,
        source_id: usize,
        out: &mut Vec<SourceItem>,
    ) -> (r: Result<()>)
        requires
            self.readable(embedded, walked@),
        ensures
            items_view(final(out)@) == items_view(old(out)@) + source_partial(
                *self,
                embedded,
                walked@,
                mode,
                source_id,
            ).0,
            r is Ok <==> source_partial(*self, embedded, walked@, mode, source_id).1,
    {
        let scheme = if embedded {
            "embed"
        } else {
            "static"
        };
        proof {
            reveal_strlit("embed");
            reveal_strlit("static");
        }
        let empty: Vec<FsFile> = Vec::new();
        match &self.inner {
            SourceEntry::Embed(efs) => {
                if embedded {
                    self.read_fs(mode, source_id, scheme, &efs.files, out)
                } else {
                    self.read_fs(mode, source_id, scheme, &empty, out)
                }
            },
            SourceEntry::Static(_) => {
                if embedded {
                    self.read_fs(mode, source_id, scheme, &empty, out)
                } else {
                    self.read_fs(mode, source_id, scheme, walked, out)
                }
            },
        }
    }

    /// Hands on to `out` all items of an embedded source, up to where an
    /// archive's read stops.
    pub fn read_embed_all(&self, source_id: usize, out: &mut Vec<SourceItem>) -> (r: Result<()>)
        requires
            self.readable(true, Seq::empty()),
        ensures
            items_view(final(out)@) == items_view(old(out)@) + source_partial(
                *self,
                true,
                Seq::empty(),
                ReadMode::All,
                source_id,
            ).0,
            r is Ok <==> source_partial(*self, true, Seq::empty(), ReadMode::All, source_id).1,
    {
        self.read_mode(true, &Vec::new(), ReadMode::All, source_id, out)
    }

    /// Hands on to `out` the script files of an embedded source, up to where an
    /// archive's read stops.
    pub fn read_embed_files(&self, source_id: usize, out: &mut Vec<SourceItem>) -> (r: Result<()>)
        requires
            self.readable(true, Seq::empty()),
        ensures
            items_view(final(out)@) == items_view(old(out)@) + source_partial(
                *self,
                true,
                Seq::empty(),
                ReadMode::Files,
                source_id,
            ).0,
            r is Ok <==> source_partial(*self, true, Seq::empty(), ReadMode::Files, source_id).1,
    {
        self.read_mode(true, &Vec::new(), ReadMode::Files, source_id, out)
    }

    /// Hands on to `out` the plugin files in the archives of an embedded
    /// source, up to where an archive's read stops.
    pub fn read_embed_archives(&self, source_id: usize, out: &mut Vec<SourceItem>) -> (r: Result<()>)
        requires
            self.readable(true, Seq::empty()),
        ensures
            items_view(final(out)@) == items_view(old(out)@) + source_partial(
                *self,
                true,
                Seq::empty(),
                ReadMode::Archives,
                source_id,
            ).0,
            r is Ok <==> source_partial(*self, true, Seq::empty(), ReadMode::Archives, source_id).1,
    {
        self.read_mode(true, &Vec::new(), ReadMode::Archives, source_id, out)
    }

    /// Hands on to `out` all items of a source on disk, whose directory reads
    /// as `walked`, up to where an archive's read stops.
    pub fn read_all(&self, source_id: usize, walked: &PluginsFs, out: &mut Vec<SourceItem>) -> (r: Result<()>)
        requires
            self.readable(false, walked.files@),
        ensures
            items_view(final(out)@) == items_view(old(out)@) + source_partial(
                *self,
                false,
                walked.files@,
                ReadMode::All,
                source_id,
            ).0,
            r is Ok <==> source_partial(*self, false, walked.files@, ReadMode::All, source_id).1,
    {
        self.read_mode(false, &walked.files, ReadMode::All, source_id, out)
    }

    /// Hands on to `out` the script files of a source on disk, whose
    /// directory reads as `walked`, up to where an archive's read stops.
    pub fn read_files(&self, source_id: usize, walked: &PluginsFs, out: &mut Vec<SourceItem>) -> (r: Result<()>)
        requires
            self.readable(false, walked.files@),
        ensures
            items_view(final(out)@) == items_view(old(out)@) + source_partial(
                *self,
                false,
                walked.files@,
                ReadMode::Files,
                source_id,
            ).0,
            r is Ok <==> source_partial(*self, false, walked.files@, ReadMode::Files, source_id).1,
    {
        self.read_mode(false, &walked.files, ReadMode::Files, source_id, out)
    }

    /// Hands on to `out` the plugin files in the archives of a source on
    /// disk, whose directory reads as `walked`, up to where an archive's read
    /// stops.
    pub fn read_archives(&self, source_id: usize, walked: &PluginsFs, out: &mut Vec<SourceItem>) -> (r: Result<()>)
        requires
            self.readable(false, walked.files@),
        ensures
            items_view(final(out)@) == items_view(old(out)@) + source_partial(
                *self,
                false,
                walked.files@,
                ReadMode::Archives,
                source_id,
            ).0,
            r is Ok <==> source_partial(*self, false, walked.files@, ReadMode::Archives, source_id).1,
    {
        self.read_mode(false, &walked.files, ReadMode::Archives, source_id, out)
    }
}


/// The view of an embedded module entry: source index, scheme, entry,
/// search and URL.
pub type EmbedView = (usize, Seq<char>, Seq<char>, Seq<char>, Option<UrlView>);

pub open spec fn url_opt_view(u: Option<crate::weburl::UrlParts>) -> Option<UrlView> {
    match u {
        Some(x) => Some(x@),
        None => None,
    }
}

pub open spec fn embed_view(e: EmbedEntry) -> EmbedView {
    (e.source, e.scheme@, e.entry@, e.search@, url_opt_view(e.url))
}

pub open spec fn embeds_view(v: Seq<EmbedEntry>) -> Seq<EmbedView> {
    v.map_values(|e: EmbedEntry| embed_view(e))
}

/// The folder, or archive, that an item belongs to.
pub open spec fn item_base(it: ItemView) -> Seq<char> {
    match it.4 {
        Some(a) => a,
        None => it.2,
    }
}

/// The embedded module entry that item `it` of source `num` makes; its URL
/// is what the URL parser makes of the module URL, with no plugin name.
pub open spec fn embed_of(it: ItemView, num: usize) -> EmbedView {
    (
        num,
        it.1,
        item_base(it),
        it.3,
        url_parse(module_url_text(it.1, num, Seq::empty(), item_base(it), it.3)),
    )
}

pub open spec fn embeds_of(items: Seq<ItemView>, num: usize, entry_name: Seq<char>) -> Seq<EmbedView> {
    items.filter(|it: ItemView| entry_name.is_suffix_of(it.3)).map_values(
        |it: ItemView| embed_of(it, num),
    )
}

/// The embedded module entries that the first `k` embedded sources hand on,
/// and whether every read went to its end; the first source whose read
/// stops ends the preload.
pub open spec fn preload_from(srcs: Seq<Source>, k: int, entry_name: Seq<char>) -> (
    Seq<EmbedView>,
    bool,
)
    decreases k,
{
    if k <= 0 {
        (Seq::empty(), true)
    } else {
        let a = preload_from(srcs, k - 1, entry_name);
        if !a.1 {
            a
        } else {
            let it = source_partial(srcs[k - 1], true, Seq::empty(), ReadMode::All, (k - 1) as usize);
            (a.0 + embeds_of(it.0, (k - 1) as usize, entry_name), it.1)
        }
    }
}

/// Whether the module URL of item `it` of source `num` parses, where the
/// item is an entry module.
pub open spec fn embed_url_ok(it: ItemView, num: usize, entry_name: Seq<char>) -> bool {
    entry_name.is_suffix_of(it.3) ==> url_parse(
        module_url_text(it.1, num, Seq::empty(), item_base(it), it.3),
    ) is Some
}

/// Whether the module URL of every entry module that a preload of the first
/// `k` embedded sources reaches parses: the items handed on by the sources
/// read before the first whose read stops, and by that one.
pub open spec fn preload_ok(srcs: Seq<Source>, k: int, entry_name: Seq<char>) -> bool
    decreases k,
{
    if k <= 0 {
        true
    } else {
        &&& preload_ok(srcs, k - 1, entry_name)
        &&& preload_from(srcs, k - 1, entry_name).1 ==> {
            let items = source_partial(
                srcs[k - 1],
                true,
                Seq::empty(),
                ReadMode::All,
                (k - 1) as usize,
            ).0;
            forall|j: int|
                0 <= j < items.len() ==> embed_url_ok(#[trigger] items[j], (k - 1) as usize, entry_name)
        }
    }
}

proof fn lemma_preload_ok_items(srcs: Seq<Source>, num: usize, name: Seq<char>, iv: Seq<ItemView>)
    requires
        num < srcs.len(),
        preload_ok(srcs, num + 1, name),
        preload_from(srcs, num as int, name).1,
        source_partial(srcs[num as int], true, Seq::empty(), ReadMode::All, num).0 == iv,
    ensures
        forall|j: int| 0 <= j < iv.len() ==> embed_url_ok(#[trigger] iv[j], num, name),
{
    let k = num + 1;
    assert(k > 0);
    assert(k - 1 == num);
    assert(((k - 1) as usize) == num);
    assert(preload_from(srcs, k - 1, name).1);
    assert(preload_ok(srcs, k - 1, name));
}

proof fn lemma_preload_ok_prefix(srcs: Seq<Source>, k: int, n: int, name: Seq<char>)
    requires
        0 <= k <= n,
        preload_ok(srcs, n, name),
    ensures
        preload_ok(srcs, k, name),
    decreases n - k,
{
    if k < n {
        lemma_preload_ok_prefix(srcs, k, n - 1, name);
    }
}

proof fn lemma_preload_ok_after_stop(srcs: Seq<Source>, k: int, n: int, name: Seq<char>)
    requires
        0 <= k <= n,
        !preload_from(srcs, k, name).1,
    ensures
        preload_ok(srcs, n, name) == preload_ok(srcs, k, name),
    decreases n - k,
{
    if k < n {
        lemma_preload_ok_after_stop(srcs, k, n - 1, name);
        lemma_preload_stops(srcs, k, n - 1, name);
    }
}

/// Once a preload of the first `k` embedded sources stops, preloading more
/// of them adds nothing more.
proof fn lemma_preload_stops(srcs: Seq<Source>, k: int, n: int, name: Seq<char>)
    requires
        0 <= k <= n,
        !preload_from(srcs, k, name).1,
    ensures
        preload_from(srcs, n, name) == preload_from(srcs, k, name),
    decreases n - k,
{
    if k < n {
        lemma_preload_stops(srcs, k, n - 1, name);
    }
}

/// The module URL that a preload records for an entry module names the item
/// it was found as: it is what the URL parser makes of the module URL text
/// with the entry's own scheme (`embed-archive` for a member of an archive),
/// source, folder or archive, and file.
pub proof fn lemma_preload_urls_name_their_items(srcs: Seq<Source>, k: int, name: Seq<char>)
    ensures
        forall|i: int|
            0 <= i < preload_from(srcs, k, name).0.len() ==> {
                let e = #[trigger] preload_from(srcs, k, name).0[i];
                e.4 == url_parse(module_url_text(e.1, e.0, Seq::empty(), e.2, e.3))
            },
    decreases k,
{
    if k > 0 {
        lemma_preload_urls_name_their_items(srcs, k - 1, name);
        let a = preload_from(srcs, k - 1, name);
        if a.1 {
            let num = (k - 1) as usize;
            let items = source_partial(srcs[k - 1], true, Seq::empty(), ReadMode::All, num).0;
            let kept = items.filter(|it: ItemView| name.is_suffix_of(it.3));
            let b = embeds_of(items, num, name);
            assert forall|i: int| 0 <= i < (a.0 + b).len() implies {
                let e = #[trigger] (a.0 + b)[i];
                e.4 == url_parse(module_url_text(e.1, e.0, Seq::empty(), e.2, e.3))
            } by {
                if i < a.0.len() {
                    assert((a.0 + b)[i] == a.0[i]);
                } else {
                    assert((a.0 + b)[i] == b[i - a.0.len()]);
                    assert(b[i - a.0.len()] == embed_of(kept[i - a.0.len()], num));
                }
            }
        }
    }
}

/// Each plugin that `plugins` records from manifest `manifests[i]`, found as
/// item `found[i]`, keeps the manifest's name and entry, records the item's
/// source and its folder or archive as its source and base, and gets as URL
/// what the URL parser makes of the module URL text with the item's own
/// scheme (`static-archive` for a manifest inside an archive), source, the
/// plugin's name, the base and the entry file.
pub proof fn lemma_plugins_record_their_items(
    before: Seq<PluginView>,
    after: Seq<PluginView>,
    found: Seq<SourceItem>,
    manifests: Seq<Plugin>,
)
    requires
        found.len() == manifests.len(),
        after == before + Seq::new(
            found.len(),
            |i: int| plugin_of(found[i]@, plugin_view(manifests[i])),
        ),
    ensures
        after.len() == before.len() + found.len(),
        forall|i: int|
            0 <= i < found.len() ==> {
                let p = #[trigger] after[before.len() + i];
                let base = match found[i].archive {
                    Some(a) => a@,
                    None => found[i].entry@,
                };
                &&& p.0 == manifests[i].name@
                &&& p.4 == manifests[i].entry@
                &&& p.5 == url_parse(
                    module_url_text(
                        found[i].scheme@,
                        found[i].source,
                        manifests[i].name@,
                        base,
                        manifests[i].entry@,
                    ),
                )
                &&& p.6 == Some(found[i].source)
                &&& p.7 == Some(base)
            },
{
    assert forall|i: int| 0 <= i < found.len() implies {
        let p = #[trigger] after[before.len() + i];
        let base = match found[i].archive {
            Some(a) => a@,
            None => found[i].entry@,
        };
        &&& p.0 == manifests[i].name@
        &&& p.4 == manifests[i].entry@
        &&& p.5 == url_parse(
            module_url_text(found[i].scheme@, found[i].source, manifests[i].name@, base, manifests[i].entry@),
        )
        &&& p.6 == Some(found[i].source)
        &&& p.7 == Some(base)
    } by {
        assert(after[before.len() + i] == plugin_of(found[i]@, plugin_view(manifests[i])));
    }
}

/// The items of source on disk `src`, numbered `num` and read as `files`,
/// whose search ends with `plugin_name`, up to where its read stops; and
/// whether it goes to its end.
pub open spec fn source_plugin_items(src: Source, files: Seq<FsFile>, num: usize, plugin_name: Seq<char>) -> (
    Seq<ItemView>,
    bool,
) {
    let it = source_partial(src, false, files, ReadMode::All, num);
    (it.0.filter(|x: ItemView| plugin_name.is_suffix_of(x.3)), it.1)
}

/// The items that the first `k` sources on disk hand on whose search ends
/// with `plugin_name`, and whether every read went to its end; the first
/// source whose read stops ends the read.
pub open spec fn plugin_items_from(
    srcs: Seq<Source>,
    walked: Seq<PluginsFs>,
    k: int,
    plugin_name: Seq<char>,
) -> (Seq<ItemView>, bool)
    decreases k,
{
    if k <= 0 {
        (Seq::empty(), true)
    } else {
        let a = plugin_items_from(srcs, walked, k - 1, plugin_name);
        if !a.1 {
            a
        } else {
            let b = source_plugin_items(srcs[k - 1], walked[k - 1].files@, (k - 1) as usize, plugin_name);
            (a.0 + b.0, b.1)
        }
    }
}

/// Whether every source on disk that a read for manifests reaches can be
/// read, each as the matching walk of `walked`: those after the first whose
/// read stops are not reached.
pub open spec fn plugins_readable(srcs: Seq<Source>, walked: Seq<PluginsFs>, plugin_name: Seq<char>) -> bool {
    &&& walked.len() == srcs.len()
    &&& forall|i: int|
        0 <= i < srcs.len() && plugin_items_from(srcs, walked, i, plugin_name).1 ==> (#[trigger] srcs[i]).readable(
            false,
            walked[i].files@,
        )
}

/// The view of a plugin: name, description, identifier, version, entry,
/// URL, source index and base.
pub type PluginView = (
    Seq<char>,
    Seq<char>,
    Seq<char>,
    Seq<char>,
    Seq<char>,
    Option<UrlView>,
    Option<usize>,
    Option<Seq<char>>,
);

pub open spec fn plugin_view(p: Plugin) -> PluginView {
    (
        p.name@,
        p.description@,
        p.identifier@,
        p.version@,
        p.entry@,
        url_opt_view(p.url),
        p.source,
        opt_str_view(p.base),
    )
}

pub open spec fn plugins_view(v: Seq<Plugin>) -> Seq<PluginView> {
    v.map_values(|p: Plugin| plugin_view(p))
}

/// The plugin that manifest `p`, found as item `it`, becomes: its URL names
/// its entry module in the item's folder or archive, and it records its
/// source and base.
pub open spec fn plugin_of(it: ItemView, p: PluginView) -> PluginView {
    (
        p.0,
        p.1,
        p.2,
        p.3,
        p.4,
        url_parse(module_url_text(it.1, it.0, p.0, item_base(it), p.4)),
        Some(it.0),
        Some(item_base(it)),
    )
}

/// The contents of the last item of `items` at `entry` and `search`.
pub open spec fn scan_items(items: Seq<ItemView>, entry: Seq<char>, search: Seq<char>) -> Option<
    Seq<u8>,
>
    decreases items.len(),
{
    if items.len() == 0 {
        None
    } else if items.last().2 == entry && items.last().3 == search {
        items.last().5
    } else {
        scan_items(items.drop_last(), entry, search)
    }
}

/// Looks a file up in sources `k..`: the first source whose last matching
/// item has contents gives them; a source that cannot be read before that
/// fails the lookup.
pub open spec fn lookup_from(
    srcs: Seq<Source>,
    embedded: bool,
    walked: spec_fn(int) -> Seq<FsFile>,
    mode: ReadMode,
    k: int,
    entry: Seq<char>,
    search: Seq<char>,
) -> Option<Option<Seq<u8>>> {
    lookup_until(srcs, embedded, walked, mode, k, srcs.len() as int, entry, search)
}

/// Looks a file up in sources `k..end`, as `lookup_from` does; reaching
/// `end` without contents gives `Some(None)`.
pub open spec fn lookup_until(
    srcs: Seq<Source>,
    embedded: bool,
    walked: spec_fn(int) -> Seq<FsFile>,
    mode: ReadMode,
    k: int,
    end: int,
    entry: Seq<char>,
    search: Seq<char>,
) -> Option<Option<Seq<u8>>>
    decreases srcs.len() - k,
{
    if k < 0 || k >= end || k >= srcs.len() {
        Some(None)
    } else {
        match source_items(srcs[k], embedded, walked(k), mode, k as usize) {
            None => None,
            Some(items) => {
                let d = scan_items(items, entry, search);
                if d is Some {
                    Some(d)
                } else {
                    lookup_until(srcs, embedded, walked, mode, k + 1, end, entry, search)
                }
            },
        }
    }
}

/// A lookup that the sources before `end1` settle, found or failed to read,
/// gives the same when it may go on to `end2`, the sources before `end1`
/// reading as before.
pub proof fn lemma_lookup_settled(
    srcs: Seq<Source>,
    embedded: bool,
    w1: spec_fn(int) -> Seq<FsFile>,
    w2: spec_fn(int) -> Seq<FsFile>,
    mode: ReadMode,
    k: int,
    end1: int,
    end2: int,
    entry: Seq<char>,
    search: Seq<char>,
)
    requires
        0 <= k,
        end1 <= end2,
        forall|i: int| 0 <= i < end1 ==> #[trigger] w1(i) == w2(i),
        lookup_until(srcs, embedded, w1, mode, k, end1, entry, search) != Some(None::<Seq<u8>>),
    ensures
        lookup_until(srcs, embedded, w2, mode, k, end2, entry, search) == lookup_until(
            srcs,
            embedded,
            w1,
            mode,
            k,
            end1,
            entry,
            search,
        ),
    decreases srcs.len() - k,
{
    if k < end1 && k < srcs.len() {
        assert(w1(k) == w2(k));
        if source_items(srcs[k], embedded, w1(k), mode, k as usize) is Some {
            let items = source_items(srcs[k], embedded, w1(k), mode, k as usize)->0;
            if scan_items(items, entry, search) is None {
                lemma_lookup_settled(srcs, embedded, w1, w2, mode, k + 1, end1, end2, entry, search);
            }
        }
    }
}

/// The message of a lookup that finds nothing.
pub open spec fn not_found_message() -> Seq<char> {
    "data is empty so maybe no file found."@
}

pub open spec fn lookup_matches(r: Result<Vec<u8>>, l: Option<Option<Seq<u8>>>) -> bool {
    match l {
        Some(Some(d)) => r matches Ok(v) && v@ == d,
        Some(None) => r matches Err(PluginError::Unknown(m)) && m@ == not_found_message(),
        None => r is Err,
    }
}

/// What a lookup in the first sources gives: contents where one has them,
/// `None` where none of them has.
pub open spec fn part_lookup_matches(r: Result<Option<Vec<u8>>>, l: Option<Option<Seq<u8>>>) -> bool {
    match l {
        Some(Some(d)) => r matches Ok(Some(v)) && v@ == d,
        Some(None) => r matches Ok(None),
        None => r is Err,
    }
}

pub open spec fn no_walk() -> spec_fn(int) -> Seq<FsFile> {
    |i: int| Seq::<FsFile>::empty()
}

pub open spec fn walks(walked: Seq<PluginsFs>) -> spec_fn(int) -> Seq<FsFile> {
    |i: int| walked[i].files@
}

/// A read for script files never fails, and every item it gives carries its
/// contents.
proof fn lemma_files_mode_reads(id: usize, scheme: Seq<char>, files: Seq<FsFile>)
    ensures
        fs_items(ReadMode::Files, id, scheme, files) is Some,
        forall|j: int|
            0 <= j < fs_items(ReadMode::Files, id, scheme, files)->0.len() ==> (#[trigger] fs_items(
                ReadMode::Files,
                id,
                scheme,
                files,
            )->0[j]).5 is Some,
    decreases files.len(),
{
    if files.len() > 0 {
        lemma_files_mode_reads(id, scheme, files.drop_last());
        let a = fs_items(ReadMode::Files, id, scheme, files.drop_last())->0;
        let b = file_items(ReadMode::Files, id, scheme, files.last())->0;
        assert forall|j: int| 0 <= j < (a + b).len() implies (#[trigger] (a + b)[j]).5 is Some by {
            if j < a.len() {
                assert((a + b)[j] == a[j]);
            } else {
                assert((a + b)[j] == b[j - a.len()]);
            }
        }
    }
}

/// A script file that a full read gives, a read for script files gives too.
proof fn lemma_all_file_in_files(id: usize, scheme: Seq<char>, files: Seq<FsFile>, j: int)
    requires
        fs_items(ReadMode::All, id, scheme, files) matches Some(a) && 0 <= j < a.len() && a[j].4
            is None,
    ensures
        exists|k: int|
            0 <= k < fs_items(ReadMode::Files, id, scheme, files)->0.len() && #[trigger] fs_items(
                ReadMode::Files,
                id,
                scheme,
                files,
            )->0[k] == fs_items(ReadMode::All, id, scheme, files)->0[j],
    decreases files.len(),
{
    lemma_files_mode_reads(id, scheme, files);
    let all = fs_items(ReadMode::All, id, scheme, files)->0;
    let fa = fs_items(ReadMode::All, id, scheme, files.drop_last())->0;
    let ba = file_items(ReadMode::All, id, scheme, files.last())->0;
    let ff = fs_items(ReadMode::Files, id, scheme, files.drop_last())->0;
    let bf = file_items(ReadMode::Files, id, scheme, files.last())->0;
    lemma_files_mode_reads(id, scheme, files.drop_last());
    assert(all == fa + ba);
    let fil = fs_items(ReadMode::Files, id, scheme, files)->0;
    assert(fil == ff + bf);
    if j < fa.len() {
        assert(all[j] == fa[j]);
        lemma_all_file_in_files(id, scheme, files.drop_last(), j);
        let k = choose|k: int| 0 <= k < ff.len() && #[trigger] ff[k] == fa[j];
        assert(fil[k] == ff[k]);
    } else {
        let t = j - fa.len();
        assert(all[j] == ba[t]);
        let p = files.last().path@;
        if first_suffix(file_exts(), p) is Some {
            assert(ba == bf);
            assert(fil[ff.len() + t] == bf[t]);
        } else {
            assert(ba[t].4 is Some);
        }
    }
}

/// A list of items that carry their contents, one of which is at `entry` and
/// `search`, gives contents for them.
proof fn lemma_scan_finds(items: Seq<ItemView>, entry: Seq<char>, search: Seq<char>, j: int)
    requires
        0 <= j < items.len(),
        items[j].2 == entry && items[j].3 == search,
        forall|k: int| 0 <= k < items.len() ==> (#[trigger] items[k]).5 is Some,
    ensures
        scan_items(items, entry, search) is Some,
    decreases items.len(),
{
    if !(items.last().2 == entry && items.last().3 == search) {
        assert(j < items.len() - 1);
        assert(items.drop_last()[j] == items[j]);
        lemma_scan_finds(items.drop_last(), entry, search, j);
    }
}

/// A lookup of script files in embedded sources `k..` finds contents for a
/// folder and name that some script file of a source from `k` on has.
proof fn lemma_lookup_finds(
    srcs: Seq<Source>,
    k: int,
    s: int,
    entry: Seq<char>,
    search: Seq<char>,
    j: int,
)
    requires
        0 <= k <= s < srcs.len(),
        0 <= j < source_items(srcs[s], true, Seq::empty(), ReadMode::Files, s as usize)->0.len(),
        source_items(srcs[s], true, Seq::empty(), ReadMode::Files, s as usize)->0[j].2 == entry,
        source_items(srcs[s], true, Seq::empty(), ReadMode::Files, s as usize)->0[j].3 == search,
    ensures
        lookup_from(srcs, true, no_walk(), ReadMode::Files, k, entry, search) matches Some(d) && d is Some,
    decreases s - k,
{
    let w = no_walk();
    assert(w(k) == Seq::<FsFile>::empty());
    lemma_files_mode_reads(k as usize, reader_scheme(true), source_files(srcs[k], true, Seq::empty()));
    let items = source_items(srcs[k], true, w(k), ReadMode::Files, k as usize)->0;
    if k == s {
        lemma_files_mode_reads(s as usize, reader_scheme(true), source_files(srcs[s], true, Seq::empty()));
        lemma_scan_finds(items, entry, search, j);
    } else if scan_items(items, entry, search) is None {
        lemma_lookup_finds(srcs, k + 1, s, entry, search, j);
    }
}

/// What a read of an embedded source gives from a folder, `elookup` finds
/// again: a script file that a full read of embedded source `num` gives (as
/// `preload` records entry modules from folders) is found by a lookup of the
/// embedded sources' script files under the folder and name it was given.
pub proof fn lemma_embedded_file_found(srcs: Seq<Source>, num: int, j: int)
    requires
        0 <= num < srcs.len(),
        source_items(srcs[num], true, Seq::empty(), ReadMode::All, num as usize) matches Some(items)
            && 0 <= j < items.len() && items[j].4 is None,
    ensures
        ({
            let it = source_items(srcs[num], true, Seq::empty(), ReadMode::All, num as usize)->0[j];
            lookup_from(srcs, true, no_walk(), ReadMode::Files, 0, it.2, it.3) matches Some(d)
                && d is Some
        }),
{
    let files = source_files(srcs[num], true, Seq::empty());
    let sch = reader_scheme(true);
    lemma_all_file_in_files(num as usize, sch, files, j);
    let all = fs_items(ReadMode::All, num as usize, sch, files)->0;
    let fil = fs_items(ReadMode::Files, num as usize, sch, files)->0;
    let k = choose|k: int| 0 <= k < fil.len() && #[trigger] fil[k] == all[j];
    lemma_lookup_finds(srcs, 0, num, all[j].2, all[j].3, k);
}

/// The sources a loader reads.
pub struct SourceHolder {
    pub sources: Vec<Source>,
    pub embedded: Vec<Source>,
}

/// What a loader has found.
pub struct LoadedEntrys {
    pub plugins: Vec<Plugin>,
    pub embedded: Vec<EmbedEntry>,
}

/// Reads plugin sources: the embedded ones for their entry modules, the ones
/// on disk for their `plugin.json` manifests.
pub struct SourceLoader {
    /// File name of an embedded source's entry module.
    pub entry: String,
    /// File name of a plugin's manifest.
    pub plugin: String,
    pub holder: SourceHolder,
    pub loaded: LoadedEntrys,
}

/// Whether every source of `srcs` can be read as embedded.
pub open spec fn embedded_readable(srcs: Seq<Source>) -> bool {
    forall|i: int| 0 <= i < srcs.len() ==> (#[trigger] srcs[i]).readable(true, Seq::empty())
}

/// Whether every source of `srcs` can be read from disk as `walked`.
pub open spec fn static_readable(srcs: Seq<Source>, walked: Seq<PluginsFs>) -> bool {
    &&& walked.len() == srcs.len()
    &&& forall|i: int| 0 <= i < srcs.len() ==> (#[trigger] srcs[i]).readable(false, walked[i].files@)
}

proof fn lemma_scan_step(items: Seq<ItemView>, i: int, entry: Seq<char>, search: Seq<char>)
    requires
        0 <= i < items.len(),
    ensures
        scan_items(items.take(i + 1), entry, search) == (if items[i].2 == entry && items[i].3
            == search {
            items[i].5
        } else {
            scan_items(items.take(i), entry, search)
        }),
{
    assert(items.take(i + 1).drop_last() =~= items.take(i));
    assert(items.take(i + 1).last() == items[i]);
}

/// What a preload does: the sources and plugins stay, and the entry modules
/// that the embedded sources hand on are added, up to the first source whose
/// read stops, where the preload fails.
pub open spec fn preloaded(before: SourceLoader, after: SourceLoader, r: Result<()>) -> bool {
    let p = preload_from(before.holder.embedded@, before.holder.embedded@.len() as int, before.entry@);
    &&& after.holder == before.holder
    &&& after.loaded.plugins == before.loaded.plugins
    &&& after.entry == before.entry
    &&& embeds_view(after.loaded.embedded@) == embeds_view(before.loaded.embedded@) + p.0
    &&& (r is Ok <==> p.1)
}

/// Whether the module URL of the plugin that manifest `p`, found as item
/// `it`, names parses.
pub open spec fn plugin_url_ok(it: ItemView, p: PluginView) -> bool {
    url_parse(module_url_text(it.1, it.0, p.0, item_base(it), p.4)) is Some
}

/// Whether the module URL of every plugin of `found` and `manifests` parses.
pub open spec fn plugin_urls_ok(found: Seq<SourceItem>, manifests: Seq<Plugin>) -> bool {
    forall|i: int|
        0 <= i < found.len() ==> plugin_url_ok(#[trigger] found[i]@, plugin_view(manifests[i]))
}

impl SourceLoader {
    pub fn new() -> (r: Self)
        ensures
            r.entry@ == "entry.ts"@,
            r.plugin@ == "plugin.json"@,
            r.holder.sources@.len() == 0,
            r.holder.embedded@.len() == 0,
            r.loaded.plugins@.len() == 0,
            r.loaded.embedded@.len() == 0,
    {
        Self {
            entry: "entry.ts".to_string(),
            plugin: "plugin.json".to_string(),
            holder: SourceHolder { embedded: Vec::new(), sources: Vec::new() },
            loaded: LoadedEntrys { plugins: Vec::new(), embedded: Vec::new() },
        }
    }

    /// Adds a source on disk.
    pub fn add(&mut self, source: Source)
        ensures
            final(self).holder.sources@ == old(self).holder.sources@.push(source),
            final(self).holder.embedded@ == old(self).holder.embedded@,
            final(self).loaded == old(self).loaded,
            final(self).entry == old(self).entry,
            final(self).plugin == old(self).plugin,
    {
        self.holder.sources.push(source);
    }

    /// Adds an embedded source.
    pub fn add_embed(&mut self, source: Source)
        ensures
            final(self).holder.embedded@ == old(self).holder.embedded@.push(source),
            final(self).holder.sources@ == old(self).holder.sources@,
            final(self).loaded == old(self).loaded,
            final(self).entry == old(self).entry,
            final(self).plugin == old(self).plugin,
    {
        self.holder.embedded.push(source);
    }

    /// Records the entry modules of the embedded sources: each file whose
    /// search ends with the entry name, in its folder or archive.
    pub fn preload(&mut self) -> (r: Result<()>)
        requires
            embedded_readable(old(self).holder.embedded@),
            preload_ok(
                old(self).holder.embedded@,
                old(self).holder.embedded@.len() as int,
                old(self).entry@,
            ),
        ensures
            preloaded(*old(self), *final(self), r),
    {
        let ghost srcs = self.holder.embedded@;
        let ghost start = embeds_view(self.loaded.embedded@);
        let ghost name = self.entry@;
        let mut num: usize = 0;
        assert(start + Seq::<EmbedView>::empty() =~= start);
        while num < self.holder.embedded.len()
            invariant
                num <= srcs.len(),
                srcs == self.holder.embedded@,
                name == self.entry@,
                embedded_readable(srcs),
                preload_ok(srcs, srcs.len() as int, name),
                self.holder == old(self).holder,
                self.loaded.plugins == old(self).loaded.plugins,
                self.entry == old(self).entry,
                start == embeds_view(old(self).loaded.embedded@),
                preload_from(srcs, num as int, name).1,
                embeds_view(self.loaded.embedded@) == start + preload_from(srcs, num as int, name).0,
            decreases srcs.len() - num,
        {
            let mut items: Vec<SourceItem> = Vec::new();
            let res = self.holder.embedded[num].read_embed_all(num, &mut items);
            let ghost iv = items_view(items@);
            assert(iv =~= source_partial(srcs[num as int], true, Seq::empty(), ReadMode::All, num).0);
            let ghost pred = |it: ItemView| name.is_suffix_of(it.3);
            let ghost f = |it: ItemView| embed_of(it, num);
            let ghost base = embeds_view(self.loaded.embedded@);
            proof {
                lemma_preload_ok_prefix(srcs, num as int + 1, srcs.len() as int, name);
                assert(srcs[num as int] == self.holder.embedded@[num as int]);
                lemma_preload_ok_items(srcs, num, name, iv);
            }
            let mut i: usize = 0;
            assert(iv.take(0).filter(pred) =~= Seq::<ItemView>::empty());
            assert(base + Seq::<EmbedView>::empty() =~= base);
            while i < items.len()
                invariant
                    i <= items@.len(),
                    iv == items_view(items@),
                    pred == (|it: ItemView| name.is_suffix_of(it.3)),
                    f == (|it: ItemView| embed_of(it, num)),
                    forall|j: int| 0 <= j < iv.len() ==> embed_url_ok(#[trigger] iv[j], num, name),
                    name == self.entry@,
                    self.holder == old(self).holder,
                    self.loaded.plugins == old(self).loaded.plugins,
                    self.entry == old(self).entry,
                    embeds_view(self.loaded.embedded@) == base + iv.take(i as int).filter(
                        pred,
                    ).map_values(f),
                decreases items.len() - i,
            {
                let item = &items[i];
                proof {
                    reveal_with_fuel(Seq::filter, 1);
                    assert(iv.take(i + 1).drop_last() =~= iv.take(i as int));
                    assert(iv.take(i + 1).last() == iv[i as int]);
                    assert(iv[i as int] == item@);
                }
                let ghost before = embeds_view(self.loaded.embedded@);
                if str_ends_with(item.search.as_str(), self.entry.as_str()) {
                    let entry = match &item.archive {
                        Some(a) => a.clone(),
                        None => item.entry.clone(),
                    };
                    proof {
                        reveal_strlit("");
                        assert(""@ =~= Seq::<char>::empty());
                        assert(embed_url_ok(iv[i as int], num, name));
                    }
                    let url = FileInfo::url_create(
                        item.scheme.as_str(),
                        num,
                        "",
                        entry.as_str(),
                        item.search.as_str(),
                    );
                    self.loaded.embedded.push(
                        EmbedEntry {
                            url: Some(url),
                            source: num,
                            scheme: item.scheme.clone(),
                            entry,
                            search: item.search.clone(),
                        },
                    );
                    proof {
                        assert(embeds_view(self.loaded.embedded@) =~= before.push(f(item@)));
                        assert(iv.take(i + 1).filter(pred) =~= iv.take(i as int).filter(pred).push(
                            iv[i as int],
                        ));
                    }
                } else {
                    proof {
                        assert(iv.take(i + 1).filter(pred) =~= iv.take(i as int).filter(pred));
                    }
                }
                proof {
                    assert(embeds_view(self.loaded.embedded@) =~= base + iv.take(i + 1).filter(
                        pred,
                    ).map_values(f));
                }
                i = i + 1;
            }
            proof {
                assert(iv.take(i as int) =~= iv);
                let a = preload_from(srcs, num as int, name).0;
                assert(srcs[num as int] == self.holder.embedded@[num as int]);
                assert(embeds_of(iv, num, name) == iv.filter(pred).map_values(f));
                assert(start + a + embeds_of(iv, num, name) =~= start + (a + embeds_of(iv, num, name)));
                assert(preload_from(srcs, num + 1, name) == (
                    a + embeds_of(iv, num, name),
                    source_partial(srcs[num as int], true, Seq::empty(), ReadMode::All, num).1,
                ));
            }
            match res {
                Ok(()) => {},
                Err(e) => {
                    proof {
                        lemma_preload_stops(srcs, num as int + 1, srcs.len() as int, name);
                    }
                    return Err(e);
                },
            }
            num = num + 1;
        }
        Ok(())
    }

    /// Hands the items of source on disk `num`, whose directory reads as
    /// `walked`, whose search ends with the manifest's file name, on to
    /// `out`, up to where an archive's read stops.
    pub fn plugin_items_of(&self, num: usize, walked: &PluginsFs, out: &mut Vec<SourceItem>) -> (r:
        Result<()>)
        requires
            num < self.holder.sources@.len(),
            self.holder.sources@[num as int].readable(false, walked.files@),
        ensures
            items_view(final(out)@) == items_view(old(out)@) + source_plugin_items(
                self.holder.sources@[num as int],
                walked.files@,
                num,
                self.plugin@,
            ).0,
            r is Ok <==> source_plugin_items(
                self.holder.sources@[num as int],
                walked.files@,
                num,
                self.plugin@,
            ).1,
    {
        let ghost name = self.plugin@;
        let mut items: Vec<SourceItem> = Vec::new();
        let res = self.holder.sources[num].read_all(num, walked, &mut items);
        let ghost iv = items_view(items@);
        assert(iv =~= source_partial(
            self.holder.sources@[num as int],
            false,
            walked.files@,
            ReadMode::All,
            num,
        ).0);
        let ghost pred = |it: ItemView| name.is_suffix_of(it.3);
        let ghost base = items_view(out@);
        let mut i: usize = 0;
        assert(iv.take(0).filter(pred) =~= Seq::<ItemView>::empty());
        assert(base + Seq::<ItemView>::empty() =~= base);
        let ghost all = items@;
        while i < items.len()
            invariant
                i <= items@.len(),
                items@.len() == all.len(),
                forall|j: int| i <= j < all.len() ==> items@[j] == all[j],
                iv == items_view(all),
                pred == (|it: ItemView| name.is_suffix_of(it.3)),
                name == self.plugin@,
                base == items_view(old(out)@),
                items_view(out@) == base + iv.take(i as int).filter(pred),
            decreases items.len() - i,
        {
            proof {
                reveal_with_fuel(Seq::filter, 1);
                assert(iv.take(i + 1).drop_last() =~= iv.take(i as int));
                assert(iv.take(i + 1).last() == iv[i as int]);
                assert(iv[i as int] == items@[i as int]@);
            }
            let ghost before = items_view(out@);
            if str_ends_with(items[i].search.as_str(), self.plugin.as_str()) {
                let item = take_item(&mut items, i);
                out.push(item);
                proof {
                    assert(items_view(out@) =~= before.push(iv[i as int]));
                    assert(iv.take(i + 1).filter(pred) =~= iv.take(i as int).filter(pred).push(
                        iv[i as int],
                    ));
                }
            } else {
                proof {
                    assert(iv.take(i + 1).filter(pred) =~= iv.take(i as int).filter(pred));
                }
            }
            proof {
                assert(items_view(out@) =~= base + iv.take(i + 1).filter(pred));
            }
            i = i + 1;
        }
        proof {
            assert(iv.take(i as int) =~= iv);
        }
        res
    }

    /// Hands the items of every source on disk, whose directories read as
    /// `walked`, whose search ends with the manifest's file name, on to
    /// `out`, in order, up to the first source whose read stops.
    pub fn plugin_items(&self, walked: &Vec<PluginsFs>, out: &mut Vec<SourceItem>) -> (r: Result<()>)
        requires
            plugins_readable(self.holder.sources@, walked@, self.plugin@),
        ensures
            items_view(final(out)@) == items_view(old(out)@) + plugin_items_from(
                self.holder.sources@,
                walked@,
                self.holder.sources@.len() as int,
                self.plugin@,
            ).0,
            r is Ok <==> plugin_items_from(
                self.holder.sources@,
                walked@,
                self.holder.sources@.len() as int,
                self.plugin@,
            ).1,
    {
        let ghost srcs = self.holder.sources@;
        let ghost name = self.plugin@;
        let ghost o = items_view(out@);
        let mut num: usize = 0;
        assert(o + Seq::<ItemView>::empty() =~= o);
        while num < self.holder.sources.len()
            invariant
                num <= srcs.len(),
                srcs == self.holder.sources@,
                name == self.plugin@,
                plugins_readable(srcs, walked@, name),
                o == items_view(old(out)@),
                plugin_items_from(srcs, walked@, num as int, name).1,
                items_view(out@) == o + plugin_items_from(srcs, walked@, num as int, name).0,
            decreases srcs.len() - num,
        {
            proof {
                assert(srcs[num as int].readable(false, walked@[num as int].files@));
            }
            let res = self.plugin_items_of(num, &walked[num], out);
            proof {
                let a = plugin_items_from(srcs, walked@, num as int, name);
                let b = source_plugin_items(srcs[num as int], walked@[num as int].files@, num, name);
                assert(o + (a.0 + b.0) =~= (o + a.0) + b.0);
                assert(plugin_items_from(srcs, walked@, num + 1, name) == (a.0 + b.0, b.1));
            }
            match res {
                Ok(()) => {},
                Err(e) => {
                    proof {
                        lemma_plugin_items_stop(srcs, walked@, num as int + 1, name);
                    }
                    return Err(e);
                },
            }
            num = num + 1;
        }
        Ok(())
    }

    /// Records the plugins whose manifests were found as `found` and read as
    /// `manifests`: each gets the URL of its entry module, its source and
    /// its base.
    pub fn plugins(&mut self, found: Vec<SourceItem>, manifests: Vec<Plugin>)
        requires
            found@.len() == manifests@.len(),
            plugin_urls_ok(found@, manifests@),
        ensures
            final(self).holder == old(self).holder,
            final(self).loaded.embedded == old(self).loaded.embedded,
            plugins_view(final(self).loaded.plugins@) == plugins_view(old(self).loaded.plugins@)
                + Seq::new(
                found@.len(),
                |i: int| plugin_of(found@[i]@, plugin_view(manifests@[i])),
            ),
    {
        let ghost start = plugins_view(self.loaded.plugins@);
        let mut i: usize = 0;
        assert(start + Seq::new(0, |j: int| plugin_of(found@[j]@, plugin_view(manifests@[j]))) =~= start);
        while i < found.len()
            invariant
                i <= found@.len(),
                found@.len() == manifests@.len(),
                plugin_urls_ok(found@, manifests@),
                self.holder == old(self).holder,
                self.loaded.embedded == old(self).loaded.embedded,
                plugins_view(self.loaded.plugins@) == start + Seq::new(
                    i as nat,
                    |j: int| plugin_of(found@[j]@, plugin_view(manifests@[j])),
                ),
            decreases found.len() - i,
        {
            let item = &found[i];
            let json = &manifests[i];
            let entry = match &item.archive {
                Some(a) => a.clone(),
                None => item.entry.clone(),
            };
            proof {
                assert(plugin_url_ok(found@[i as int]@, plugin_view(manifests@[i as int])));
            }
            let url = Some(
                FileInfo::url_create(
                    item.scheme.as_str(),
                    item.source,
                    json.name.as_str(),
                    entry.as_str(),
                    json.entry.as_str(),
                ),
            );
            let plugin = Plugin {
                name: json.name.clone(),
                description: json.description.clone(),
                identifier: json.identifier.clone(),
                version: json.version.clone(),
                entry: json.entry.clone(),
                url,
                source: Some(item.source),
                base: Some(entry),
            };
            let ghost before = plugins_view(self.loaded.plugins@);
            self.loaded.plugins.push(plugin);
            proof {
                assert(plugins_view(self.loaded.plugins@) =~= before.push(
                    plugin_of(found@[i as int]@, plugin_view(manifests@[i as int])),
                ));
                assert(start + Seq::new(
                    (i + 1) as nat,
                    |j: int| plugin_of(found@[j]@, plugin_view(manifests@[j])),
                ) =~= (start + Seq::new(
                    i as nat,
                    |j: int| plugin_of(found@[j]@, plugin_view(manifests@[j])),
                )).push(plugin_of(found@[i as int]@, plugin_view(manifests@[i as int]))));
            }
            i = i + 1;
        }
    }
}

/// What each source of `srcs` reads as: nothing for an embedded reader, the
/// walked directory for a reader of sources on disk.
pub open spec fn walk_of(embedded: bool, walked: Seq<PluginsFs>) -> spec_fn(int) -> Seq<FsFile> {
    if embedded {
        no_walk()
    } else {
        walks(walked)
    }
}

/// Whether every source of `srcs` can be read, as embedded or from disk.
pub open spec fn sources_readable(srcs: Seq<Source>, embedded: bool, walked: Seq<PluginsFs>) -> bool {
    if embedded {
        embedded_readable(srcs)
    } else {
        static_readable(srcs, walked)
    }
}

/// Whether the first `end` sources of `srcs` can be read, as embedded or
/// from disk, whose directories read as `walked`.
pub open spec fn sources_readable_until(
    srcs: Seq<Source>,
    embedded: bool,
    walked: Seq<PluginsFs>,
    end: int,
) -> bool {
    &&& end <= srcs.len()
    &&& !embedded ==> end <= walked.len()
    &&& forall|i: int|
        0 <= i < end ==> (#[trigger] srcs[i]).readable(embedded, walk_of(embedded, walked)(i))
}

/// The contents of the last item of `items` at `entry` and `search`.
fn scan_found(items: &Vec<SourceItem>, entry: &str, search: &str) -> (r: Option<Vec<u8>>)
    ensures
        opt_bytes_view(r) == scan_items(items_view(items@), entry@, search@),
{
    let ghost iv = items_view(items@);
    let mut data: Option<Vec<u8>> = None;
    let mut i: usize = 0;
    while i < items.len()
        invariant
            i <= items@.len(),
            iv == items_view(items@),
            opt_bytes_view(data) == scan_items(iv.take(i as int), entry@, search@),
        decreases items.len() - i,
    {
        proof {
            lemma_scan_step(iv, i as int, entry@, search@);
            assert(iv[i as int] == items@[i as int]@);
        }
        let item = &items[i];
        if str_eq(item.entry.as_str(), entry) && str_eq(item.search.as_str(), search) {
            data = match &item.content {
                Some(b) => Some(vstd::slice::slice_to_vec(b.as_slice())),
                None => None,
            };
        }
        i = i + 1;
    }
    proof {
        assert(iv.take(i as int) =~= iv);
    }
    data
}

/// Looks `entry` and `search` up in the first `end` sources of `srcs`,
/// source by source, reading each under `mode`.
pub(crate) fn lookup_sources(
    srcs: &Vec<Source>,
    embedded: bool,
    walked: &Vec<PluginsFs>,
    end: usize,
    mode: ReadMode,
    entry: &str,
    search: &str,
) -> (r: Result<Option<Vec<u8>>>)
    requires
        sources_readable_until(srcs@, embedded, walked@, end as int),
    ensures
        part_lookup_matches(
            r,
            lookup_until(srcs@, embedded, walk_of(embedded, walked@), mode, 0, end as int, entry@, search@),
        ),
{
    let ghost w = walk_of(embedded, walked@);
    let empty: Vec<FsFile> = Vec::new();
    let mut num: usize = 0;
    while num < end
        invariant
            num <= end <= srcs@.len(),
            w == walk_of(embedded, walked@),
            empty@ == Seq::<FsFile>::empty(),
            sources_readable_until(srcs@, embedded, walked@, end as int),
            lookup_until(srcs@, embedded, w, mode, 0, end as int, entry@, search@) == lookup_until(
                srcs@,
                embedded,
                w,
                mode,
                num as int,
                end as int,
                entry@,
                search@,
            ),
        decreases end - num,
    {
        let files = if embedded {
            &empty
        } else {
            &walked[num].files
        };
        assert(files@ == w(num as int));
        assert(srcs@[num as int].readable(embedded, files@));
        let mut items: Vec<SourceItem> = Vec::new();
        let res = srcs[num].read_mode(embedded, files, mode, num, &mut items);
        proof {
            lemma_fs_complete(
                mode,
                num,
                reader_scheme(embedded),
                source_files(srcs@[num as int], embedded, files@),
            );
            assert(items_view(items@) =~= source_partial(srcs@[num as int], embedded, files@, mode, num).0);
        }
        match res {
            Ok(()) => {},
            Err(e) => {
                return Err(e);
            },
        }
        let found = scan_found(&items, entry, search);
        match found {
            Some(d) => {
                return Ok(Some(d));
            },
            None => {},
        }
        num = num + 1;
    }
    Ok(None)
}

/// Looks `entry` and `search` up in every source of `srcs`.
fn lookup_all(
    srcs: &Vec<Source>,
    embedded: bool,
    walked: &Vec<PluginsFs>,
    mode: ReadMode,
    entry: &str,
    search: &str,
) -> (r: Result<Vec<u8>>)
    requires
        sources_readable(srcs@, embedded, walked@),
    ensures
        lookup_matches(r, lookup_from(srcs@, embedded, walk_of(embedded, walked@), mode, 0, entry@, search@)),
{
    match lookup_sources(srcs, embedded, walked, srcs.len(), mode, entry, search) {
        Ok(Some(d)) => Ok(d),
        Ok(None) => {
            proof {
                reveal_strlit("data is empty so maybe no file found.");
            }
            Err(PluginError::Unknown("data is empty so maybe no file found.".to_string()))
        },
        Err(e) => Err(e),
    }
}

impl SourceLoader {
    /// The contents of the script file at `fileinfo` in the embedded sources.
    pub fn elookup(&self, fileinfo: FileInfo) -> (r: Result<Vec<u8>>)
        requires
            embedded_readable(self.holder.embedded@),
        ensures
            lookup_matches(
                r,
                lookup_from(
                    self.holder.embedded@,
                    true,
                    no_walk(),
                    ReadMode::Files,
                    0,
                    fileinfo.entry@,
                    fileinfo.search@,
                ),
            ),
    {
        let none: Vec<PluginsFs> = Vec::new();
        lookup_all(
            &self.holder.embedded,
            true,
            &none,
            ReadMode::Files,
            fileinfo.entry.as_str(),
            fileinfo.search.as_str(),
        )
    }

    /// The contents of the script file at `fileinfo` in the sources on disk,
    /// whose directories read as `walked`.
    pub fn lookup(&self, fileinfo: FileInfo, walked: &Vec<PluginsFs>) -> (r: Result<Vec<u8>>)
        requires
            static_readable(self.holder.sources@, walked@),
        ensures
            lookup_matches(
                r,
                lookup_from(
                    self.holder.sources@,
                    false,
                    walks(walked@),
                    ReadMode::Files,
                    0,
                    fileinfo.entry@,
                    fileinfo.search@,
                ),
            ),
    {
        lookup_all(
            &self.holder.sources,
            false,
            walked,
            ReadMode::Files,
            fileinfo.entry.as_str(),
            fileinfo.search.as_str(),
        )
    }

    /// The contents of the archived file at `fileinfo` in the embedded sources.
    pub fn ealookup(&self, fileinfo: FileInfo) -> (r: Result<Vec<u8>>)
        requires
            embedded_readable(self.holder.embedded@),
        ensures
            lookup_matches(
                r,
                lookup_from(
                    self.holder.embedded@,
                    true,
                    no_walk(),
                    ReadMode::Archives,
                    0,
                    fileinfo.entry@,
                    fileinfo.search@,
                ),
            ),
    {
        let none: Vec<PluginsFs> = Vec::new();
        lookup_all(
            &self.holder.embedded,
            true,
            &none,
            ReadMode::Archives,
            fileinfo.entry.as_str(),
            fileinfo.search.as_str(),
        )
    }

    /// The contents of the archived file at `fileinfo` in the sources on disk,
    /// whose directories read as `walked`.
    pub fn alookup(&self, fileinfo: FileInfo, walked: &Vec<PluginsFs>) -> (r: Result<Vec<u8>>)
        requires
            static_readable(self.holder.sources@, walked@),
        ensures
            lookup_matches(
                r,
                lookup_from(
                    self.holder.sources@,
                    false,
                    walks(walked@),
                    ReadMode::Archives,
                    0,
                    fileinfo.entry@,
                    fileinfo.search@,
                ),
            ),
    {
        lookup_all(
            &self.holder.sources,
            false,
            walked,
            ReadMode::Archives,
            fileinfo.entry.as_str(),
            fileinfo.search.as_str(),
        )
    }
}

impl SourceLoader {
    /// Whether the module URL of every entry module that `preload` reaches
    /// parses; the embedded sources are read to find them.
    pub fn preload_check(&self) -> (r: bool)
        requires
            embedded_readable(self.holder.embedded@),
        ensures
            r == preload_ok(self.holder.embedded@, self.holder.embedded@.len() as int, self.entry@),
    {
        let ghost srcs = self.holder.embedded@;
        let ghost name = self.entry@;
        let mut num: usize = 0;
        while num < self.holder.embedded.len()
            invariant
                num <= srcs.len(),
                srcs == self.holder.embedded@,
                name == self.entry@,
                embedded_readable(srcs),
                preload_from(srcs, num as int, name).1,
                preload_ok(srcs, num as int, name),
            decreases srcs.len() - num,
        {
            let mut items: Vec<SourceItem> = Vec::new();
            let res = self.holder.embedded[num].read_embed_all(num, &mut items);
            let ghost iv = items_view(items@);
            assert(iv =~= source_partial(srcs[num as int], true, Seq::empty(), ReadMode::All, num).0);
            proof {
                assert(srcs[num as int] == self.holder.embedded@[num as int]);
            }
            let mut i: usize = 0;
            while i < items.len()
                invariant
                    i <= items@.len(),
                    num < srcs.len(),
                    srcs == self.holder.embedded@,
                    iv == items_view(items@),
                    name == self.entry@,
                    source_partial(srcs[num as int], true, Seq::empty(), ReadMode::All, num).0 == iv,
                    preload_from(srcs, num as int, name).1,
                    preload_ok(srcs, num as int, name),
                    forall|j: int| 0 <= j < i ==> embed_url_ok(#[trigger] iv[j], num, name),
                decreases items.len() - i,
            {
                let item = &items[i];
                proof {
                    assert(iv[i as int] == item@);
                }
                if str_ends_with(item.search.as_str(), self.entry.as_str()) {
                    let entry = match &item.archive {
                        Some(a) => a.as_str(),
                        None => item.entry.as_str(),
                    };
                    proof {
                        reveal_strlit("");
                        assert(""@ =~= Seq::<char>::empty());
                    }
                    if FileInfo::try_url_create(
                        item.scheme.as_str(),
                        num,
                        "",
                        entry,
                        item.search.as_str(),
                    ).is_none() {
                        proof {
                            assert(!embed_url_ok(iv[i as int], num, name));
                            if preload_ok(srcs, srcs.len() as int, name) {
                                lemma_preload_ok_prefix(srcs, num as int + 1, srcs.len() as int, name);
                                lemma_preload_ok_items(srcs, num, name, iv);
                                assert(embed_url_ok(iv[i as int], num, name));
                            }
                        }
                        return false;
                    }
                }
                i = i + 1;
            }
            proof {
                assert(preload_ok(srcs, num as int + 1, name));
            }
            if res.is_err() {
                proof {
                    lemma_preload_ok_after_stop(srcs, num as int + 1, srcs.len() as int, name);
                }
                return true;
            }
            num = num + 1;
        }
        true
    }

    /// `preload` where the module URL of every entry module it reaches
    /// parses; `None`, with nothing changed, where one does not.
    pub fn try_preload(&mut self) -> (r: Option<Result<()>>)
        requires
            embedded_readable(old(self).holder.embedded@),
        ensures
            match r {
                Some(x) => preload_ok(
                    old(self).holder.embedded@,
                    old(self).holder.embedded@.len() as int,
                    old(self).entry@,
                ) && preloaded(*old(self), *final(self), x),
                None => !preload_ok(
                    old(self).holder.embedded@,
                    old(self).holder.embedded@.len() as int,
                    old(self).entry@,
                ) && *final(self) == *old(self),
            },
    {
        if self.preload_check() {
            Some(self.preload())
        } else {
            None
        }
    }

    /// `plugins` where the module URL of every plugin parses; `false`, with
    /// nothing changed, where one does not.
    pub fn try_plugins(&mut self, found: Vec<SourceItem>, manifests: Vec<Plugin>) -> (r: bool)
        requires
            found@.len() == manifests@.len(),
        ensures
            r == plugin_urls_ok(found@, manifests@),
            r ==> final(self).holder == old(self).holder && final(self).loaded.embedded == old(
                self,
            ).loaded.embedded && plugins_view(final(self).loaded.plugins@) == plugins_view(
                old(self).loaded.plugins@,
            ) + Seq::new(
                found@.len(),
                |i: int| plugin_of(found@[i]@, plugin_view(manifests@[i])),
            ),
            !r ==> *final(self) == *old(self),
    {
        let mut i: usize = 0;
        while i < found.len()
            invariant
                i <= found@.len(),
                found@.len() == manifests@.len(),
                forall|j: int|
                    0 <= j < i ==> plugin_url_ok(#[trigger] found@[j]@, plugin_view(manifests@[j])),
            decreases found.len() - i,
        {
            let item = &found[i];
            let entry = match &item.archive {
                Some(a) => a.as_str(),
                None => item.entry.as_str(),
            };
            if FileInfo::try_url_create(
                item.scheme.as_str(),
                item.source,
                manifests[i].name.as_str(),
                entry,
                manifests[i].entry.as_str(),
            ).is_none() {
                assert(!plugin_url_ok(found@[i as int]@, plugin_view(manifests@[i as int])));
                return false;
            }
            i = i + 1;
        }
        self.plugins(found, manifests);
        true
    }
}

/// The URLs of the embedded entries that have one, in order.
pub open spec fn embed_urls(v: Seq<EmbedEntry>) -> Seq<Seq<char>> {
    v.filter(|e: EmbedEntry| e.url is Some).map_values(|e: EmbedEntry| e.url->0.href@)
}

/// The URLs of the plugins that have one, in order.
pub open spec fn plugin_urls(v: Seq<Plugin>) -> Seq<Seq<char>> {
    v.filter(|p: Plugin| p.url is Some).map_values(|p: Plugin| p.url->0.href@)
}

impl SourceLoader {
    /// The modules to evaluate at start-up, in order: the embedded entries,
    /// then the plugins, each that has a URL.
    pub fn loaded_urls(&self) -> (r: Vec<String>)
        ensures
            strings_view(r@) == embed_urls(self.loaded.embedded@) + plugin_urls(self.loaded.plugins@),
    {
        let mut out: Vec<String> = Vec::new();
        let ghost e = self.loaded.embedded@;
        let ghost pe = |x: EmbedEntry| x.url is Some;
        let ghost fe = |x: EmbedEntry| x.url->0.href@;
        let mut i: usize = 0;
        assert(e.take(0).filter(pe) =~= Seq::<EmbedEntry>::empty());
        assert(strings_view(out@) =~= Seq::<Seq<char>>::empty());
        while i < self.loaded.embedded.len()
            invariant
                i <= e.len(),
                e == self.loaded.embedded@,
                pe == (|x: EmbedEntry| x.url is Some),
                fe == (|x: EmbedEntry| x.url->0.href@),
                strings_view(out@) == e.take(i as int).filter(pe).map_values(fe),
            decreases e.len() - i,
        {
            proof {
                reveal_with_fuel(Seq::filter, 1);
                assert(e.take(i + 1).drop_last() =~= e.take(i as int));
                assert(e.take(i + 1).last() == e[i as int]);
            }
            let ghost before = strings_view(out@);
            match &self.loaded.embedded[i].url {
                Some(u) => {
                    out.push(u.href.clone());
                    proof {
                        assert(strings_view(out@) =~= before.push(fe(e[i as int])));
                        assert(e.take(i + 1).filter(pe) =~= e.take(i as int).filter(pe).push(e[i as int]));
                    }
                },
                None => {
                    proof {
                        assert(e.take(i + 1).filter(pe) =~= e.take(i as int).filter(pe));
                    }
                },
            }
            proof {
                assert(strings_view(out@) =~= e.take(i + 1).filter(pe).map_values(fe));
            }
            i = i + 1;
        }
        proof {
            assert(e.take(i as int) =~= e);
        }
        let ghost first = strings_view(out@);
        let ghost p = self.loaded.plugins@;
        let ghost pp = |x: Plugin| x.url is Some;
        let ghost fp = |x: Plugin| x.url->0.href@;
        let mut j: usize = 0;
        assert(p.take(0).filter(pp) =~= Seq::<Plugin>::empty());
        assert(first + Seq::<Seq<char>>::empty() =~= first);
        while j < self.loaded.plugins.len()
            invariant
                j <= p.len(),
                p == self.loaded.plugins@,
                pp == (|x: Plugin| x.url is Some),
                fp == (|x: Plugin| x.url->0.href@),
                strings_view(out@) == first + p.take(j as int).filter(pp).map_values(fp),
            decreases p.len() - j,
        {
            proof {
                reveal_with_fuel(Seq::filter, 1);
                assert(p.take(j + 1).drop_last() =~= p.take(j as int));
                assert(p.take(j + 1).last() == p[j as int]);
            }
            let ghost before = strings_view(out@);
            match &self.loaded.plugins[j].url {
                Some(u) => {
                    out.push(u.href.clone());
                    proof {
                        assert(strings_view(out@) =~= before.push(fp(p[j as int])));
                        assert(p.take(j + 1).filter(pp) =~= p.take(j as int).filter(pp).push(p[j as int]));
                    }
                },
                None => {
                    proof {
                        assert(p.take(j + 1).filter(pp) =~= p.take(j as int).filter(pp));
                    }
                },
            }
            proof {
                assert(strings_view(out@) =~= first + p.take(j + 1).filter(pp).map_values(fp));
            }
            j = j + 1;
        }
        proof {
            assert(p.take(j as int) =~= p);
        }
        out
    }
}

/// Moves item `i` out of `items`, leaving an empty item in its place.
fn take_item(items: &mut Vec<SourceItem>, i: usize) -> (r: SourceItem)
    requires
        i < old(items)@.len(),
    ensures
        r == old(items)@[i as int],
        final(items)@.len() == old(items)@.len(),
        forall|j: int| 0 <= j < final(items)@.len() && j != i ==> final(items)@[j] == old(items)@[j],
{
    let mut blank = SourceItem {
        source: 0,
        scheme: String::new(),
        entry: String::new(),
        search: String::new(),
        archive: None,
        content: None,
    };
    let r = items.remove(i);
    items.insert(i, blank);
    r
}

/// Once a read for manifests of the first `k` sources stops, reading more of
/// them hands on nothing more.
proof fn lemma_plugin_items_stop(srcs: Seq<Source>, walked: Seq<PluginsFs>, k: int, name: Seq<char>)
    requires
        0 <= k <= srcs.len(),
        !plugin_items_from(srcs, walked, k, name).1,
    ensures
        plugin_items_from(srcs, walked, srcs.len() as int, name) == plugin_items_from(srcs, walked, k, name),
    decreases srcs.len() - k,
{
    if k < srcs.len() {
        lemma_plugin_items_stop(srcs, walked, k + 1, name);
    }
}

} // verus!
