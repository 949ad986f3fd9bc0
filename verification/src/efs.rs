//! An in-memory file tree: the files of a plugin directory, embedded in the
//! program or read from disk, with their contents.
use vstd::prelude::*;
use vstd::string::StringSliceAdditionalSpecFns;
use vstd::utf8::valid_utf8;
use crate::text::{
    chars_of, count_char, count_chars, extension, file_name, lemma_count_char_bound,
    path_extension, path_file_name, replace_all, replace_str, str_eq,
};

verus! {

/// `std::str::from_utf8(bytes).ok()`.
///
/// Trusted: as std documents, the bytes are accepted exactly when they are
/// valid UTF-8, and the string returned is those bytes.
#[verifier::external_body]
fn utf8_str(bytes: &[u8]) -> (r: Option<&str>)
    ensures
        r is Some <==> valid_utf8(bytes@),
        r matches Some(s) ==> s.spec_bytes() == bytes@,
{
    std::str::from_utf8(bytes).ok()
}

/// The path of a file: a static string for embedded files, an owned one for
/// files read from disk.
#[derive(Debug, Clone)]
pub enum EFsPath {
    Embed(&'static str),
    Local(String),
}

impl View for EFsPath {
    type V = Seq<char>;

    open spec fn view(&self) -> Seq<char> {
        match self {
            EFsPath::Embed(s) => s@,
            EFsPath::Local(s) => s@,
        }
    }
}

impl EFsPath {
    pub fn to_str(&self) -> (r: &str)
        ensures
            r@ == self@,
    {
        match self {
            EFsPath::Embed(s) => s,
            EFsPath::Local(s) => s.as_str(),
        }
    }

    pub fn to_path_buf(&self) -> (r: String)
        ensures
            r@ == self@,
    {
        self.to_str().to_string()
    }

    /// The last normal component of the path.
    pub fn file_name(&self) -> (r: Option<&str>)
        ensures
            match r {
                Some(n) => path_file_name(self@) == Some(n@),
                None => path_file_name(self@) is None,
            },
    {
        file_name(self.to_str())
    }

    /// The extension of the path's file name.
    pub fn ext(&self) -> (r: Option<&str>)
        ensures
            match r {
                Some(e) => path_extension(self@) == Some(e@),
                None => path_extension(self@) is None,
            },
    {
        extension(self.to_str())
    }

    /// Number of `/`-separated parts in what precedes the file name.
    pub fn depth(&self) -> (r: usize)
        requires
            path_file_name(self@) matches Some(n) && n.is_suffix_of(self@),
        ensures
            r == path_depth(self@),
    {
        let s = self.to_str();
        proof {
            crate::text::lemma_file_name_span(self@);
        }
        let name = self.file_name().unwrap();
        let total = s.unicode_len();
        let n = name.unicode_len();
        let prefix = s.substring_char(0, total - n);
        let c = count_chars(prefix, '/');
        proof {
            lemma_count_char_bound(prefix@, '/');
            assert(prefix@ =~= self@.take(self@.len() - n));
        }
        c + 1
    }
}

/// The contents of a file.
#[derive(Debug, Clone)]
pub enum EFsData {
    Embed(&'static [u8]),
    Local(Vec<u8>),
}

impl View for EFsData {
    type V = Seq<u8>;

    open spec fn view(&self) -> Seq<u8> {
        match self {
            EFsData::Embed(b) => b@,
            EFsData::Local(b) => b@,
        }
    }
}

impl EFsData {
    /// The contents as text, when they are valid UTF-8.
    pub fn to_str(&self) -> (r: Option<&str>)
        ensures
            r is Some <==> valid_utf8(self@),
            r matches Some(s) ==> s.spec_bytes() == self@,
    {
        match self {
            EFsData::Embed(items) => utf8_str(items),
            EFsData::Local(items) => utf8_str(items.as_slice()),
        }
    }

    pub fn data(&self) -> (r: &[u8])
        ensures
            r@ == self@,
    {
        match self {
            EFsData::Embed(items) => items,
            EFsData::Local(items) => items.as_slice(),
        }
    }

    pub fn len(&self) -> (r: usize)
        ensures
            r == self@.len(),
    {
        self.data().len()
    }
}

/// A file with its contents, size, times (seconds since the epoch) and depth.
#[derive(Debug, Clone)]
pub struct FsFile {
    pub path: EFsPath,
    pub content: EFsData,
    pub size: u64,
    pub created: u64,
    pub accessed: u64,
    pub modified: u64,
    pub depth: usize,
}

/// Number of `/`-separated parts in what precedes the file name of `p`.
pub open spec fn path_depth(p: Seq<char>) -> nat {
    count_char(p.take(p.len() - path_file_name(p).unwrap().len()), '/') + 1
}

/// A file that a walk of a directory on disk found: its path as the system
/// shows it, its contents, and its creation, access and modification times
/// in seconds since the epoch.
pub struct DiskFile {
    pub path: String,
    pub data: Vec<u8>,
    pub created: u64,
    pub accessed: u64,
    pub modified: u64,
}

/// The path under which a file found on disk is kept: each `\\` becomes `/`.
pub open spec fn disk_path(p: Seq<char>) -> Seq<char> {
    replace_all(p, seq!['\\'], seq!['/'])
}

/// Whether the kept path of each found file ends with its file name.
pub open spec fn disk_files_named(found: Seq<DiskFile>) -> bool {
    forall|i: int|
        0 <= i < found.len() ==> (path_file_name(disk_path((#[trigger] found[i]).path@)) matches Some(
            n,
        ) && n.is_suffix_of(disk_path(found[i].path@)))
}

/// Total length of the contents of `found`.
pub open spec fn data_sum(found: Seq<DiskFile>) -> int
    decreases found.len(),
{
    if found.len() == 0 {
        0
    } else {
        data_sum(found.drop_last()) + found.last().data@.len()
    }
}

proof fn lemma_data_sum_prefix(found: Seq<DiskFile>, i: int)
    requires
        0 <= i <= found.len(),
    ensures
        data_sum(found.take(i)) <= data_sum(found),
    decreases found.len() - i,
{
    if i < found.len() {
        lemma_data_sum_prefix(found, i + 1);
        assert(found.take(i + 1).drop_last() =~= found.take(i));
    } else {
        assert(found.take(i) =~= found);
    }
}

/// Whether `f` is what a found file `d` is kept as.
pub open spec fn kept_as(f: FsFile, d: DiskFile) -> bool {
    &&& f.path@ == disk_path(d.path@)
    &&& f.content@ == d.data@
    &&& f.size == d.data@.len()
    &&& f.created == d.created
    &&& f.accessed == d.accessed
    &&& f.modified == d.modified
    &&& f.depth == path_depth(disk_path(d.path@))
}

/// A path kept for a file found on disk holds no `\\`.
pub proof fn lemma_disk_path_no_backslash(p: Seq<char>)
    ensures
        forall|i: int| 0 <= i < disk_path(p).len() ==> #[trigger] disk_path(p)[i] != '\\',
{
    crate::text::lemma_replace_removes(p, '\\', seq!['/']);
}

/// A set of files with their total size.
#[derive(Debug, Clone)]
pub struct PluginsFs {
    pub total: u64,
    pub files: Vec<FsFile>,
}

/// Sum of the sizes of `files`.
pub open spec fn sizes_sum(files: Seq<FsFile>) -> int
    decreases files.len(),
{
    if files.len() == 0 {
        0
    } else {
        sizes_sum(files.drop_last()) + files.last().size
    }
}

/// The index of the first file whose path is `path`.
pub open spec fn first_with_path(files: Seq<FsFile>, path: Seq<char>) -> Option<int> {
    if exists|i: int| 0 <= i < files.len() && (#[trigger] files[i]).path@ == path {
        Some(
            choose|i: int|
                0 <= i < files.len() && (#[trigger] files[i]).path@ == path && forall|j: int|
                    0 <= j < i ==> (#[trigger] files[j]).path@ != path,
        )
    } else {
        None
    }
}

impl PluginsFs {
    /// Every file's size is the length of its contents, and the total is
    /// their sum.
    pub open spec fn wf(&self) -> bool {
        &&& forall|i: int|
            0 <= i < self.files@.len() ==> (#[trigger] self.files@[i]).size == self.files@[i].content@.len()
        &&& self.total == sizes_sum(self.files@)
    }

    pub fn size(&self) -> (r: u64)
        ensures
            r == self.total,
    {
        self.total
    }

    pub fn entries(&self) -> (r: &[FsFile])
        ensures
            r@ == self.files@,
    {
        self.files.as_slice()
    }

    pub fn count(&self) -> (r: usize)
        ensures
            r == self.files@.len(),
    {
        self.files.len()
    }

    pub fn is_empty(&self) -> (r: bool)
        ensures
            r == (self.files@.len() == 0),
    {
        self.files.len() == 0
    }

    fn position(&self, path: &str) -> (r: Option<usize>)
        ensures
            match r {
                Some(i) => i < self.files@.len() && self.files@[i as int].path@ == path@
                    && forall|j: int| 0 <= j < i ==> (#[trigger] self.files@[j]).path@ != path@,
                None => forall|j: int|
                    0 <= j < self.files@.len() ==> (#[trigger] self.files@[j]).path@ != path@,
            },
    {
        let mut i: usize = 0;
        while i < self.files.len()
            invariant
                i <= self.files@.len(),
                forall|j: int| 0 <= j < i ==> (#[trigger] self.files@[j]).path@ != path@,
            decreases self.files.len() - i,
        {
            if str_eq(self.files[i].path.to_str(), path) {
                return Some(i);
            }
            i = i + 1;
        }
        None
    }

    /// The first file whose path is `path`.
    pub fn get(&self, path: &str) -> (r: Option<&FsFile>)
        ensures
            match first_with_path(self.files@, path@) {
                Some(i) => r == Some(&self.files@[i]),
                None => r is None,
            },
    {
        match self.position(path) {
            Some(i) => {
                proof {
                    let k = first_with_path(self.files@, path@).unwrap();
                    if k < i {
                        assert(self.files@[k].path@ != path@);
                    }
                    if i < k {
                        assert(self.files@[i as int].path@ != path@);
                    }
                }
                Some(&self.files[i])
            },
            None => None,
        }
    }

    /// The contents of the first file whose path is `path`, as text, when
    /// that file exists and its contents are valid UTF-8.
    pub fn as_str(&self, path: &str) -> (r: Option<&str>)
        ensures
            match first_with_path(self.files@, path@) {
                Some(i) => match r {
                    Some(s) => valid_utf8(self.files@[i].content@) && s.spec_bytes()
                        == self.files@[i].content@,
                    None => !valid_utf8(self.files@[i].content@),
                },
                None => r is None,
            },
    {
        match self.get(path) {
            Some(f) => f.content.to_str(),
            None => None,
        }
    }

    /// The first file whose path is `path`, which must exist.
    pub fn index(&self, path: &str) -> (r: &FsFile)
        requires
            exists|i: int| 0 <= i < self.files@.len() && (#[trigger] self.files@[i]).path@ == path@,
        ensures
            first_with_path(self.files@, path@) matches Some(i) && *r == self.files@[i],
    {
        match self.get(path) {
            Some(f) => f,
            None => {
                proof {
                    lemma_get_agrees_with_exists(*self, path@);
                }
                &self.files[0]
            },
        }
    }

    /// Whether a file with path `path` exists.
    pub fn file_exists(&self, path: &str) -> (r: bool)
        ensures
            r == exists|i: int| 0 <= i < self.files@.len() && (#[trigger] self.files@[i]).path@ == path@,
    {
        self.position(path).is_some()
    }

    /// The files whose path has the extension `ext`, in order.
    pub fn from_ext(&self, ext: &str) -> (r: Vec<&FsFile>)
        ensures
            r@ == self.files@.filter(|f: FsFile| path_extension(f.path@) == Some(ext@)).map_values(
                |f: FsFile| &f,
            ),
    {
        let ghost pred = |f: FsFile| path_extension(f.path@) == Some(ext@);
        let mut r: Vec<&FsFile> = Vec::new();
        let mut i: usize = 0;
        while i < self.files.len()
            invariant
                i <= self.files@.len(),
                pred == (|f: FsFile| path_extension(f.path@) == Some(ext@)),
                r@ == self.files@.take(i as int).filter(pred).map_values(|f: FsFile| &f),
            decreases self.files.len() - i,
        {
            let f = &self.files[i];
            proof {
                reveal_with_fuel(Seq::filter, 1);
                assert(self.files@.take(i + 1).drop_last() =~= self.files@.take(i as int));
            }
            let keep = match f.path.ext() {
                Some(e) => str_eq(e, ext),
                None => false,
            };
            if keep {
                r.push(f);
            }
            proof {
                assert(r@ =~= self.files@.take(i + 1).filter(pred).map_values(|f: FsFile| &f));
            }
            i = i + 1;
        }
        proof {
            assert(self.files@.take(i as int) =~= self.files@);
        }
        r
    }

    /// The files, in order.
    pub fn iter(&self) -> (r: std::slice::Iter<'_, FsFile>)
        ensures
            vstd::std_specs::slice::into_iter_elts(r) == self.files@,
    {
        broadcast use vstd::std_specs::slice::axiom_spec_slice_iter;
        let r = self.files.as_slice().iter();
        assert(self.files@.as_ref().unref() =~= self.files@);
        r
    }

    /// The file tree of the files that a walk of a directory found, in the
    /// order found, each under its path with `\\` turned into `/`.
    pub fn walk(found: &Vec<DiskFile>) -> (r: PluginsFs)
        requires
            disk_files_named(found@),
            data_sum(found@) <= u64::MAX,
        ensures
            r.wf(),
            r.files@.len() == found@.len(),
            forall|i: int| 0 <= i < found@.len() ==> kept_as(#[trigger] r.files@[i], found@[i]),
            r.total == data_sum(found@),
    {
        let mut fs = PluginsFs { total: 0, files: Vec::new() };
        let mut i: usize = 0;
        proof {
            reveal_strlit("\\");
            reveal_strlit("/");
            assert(found@.take(0) =~= Seq::<DiskFile>::empty());
        }
        while i < found.len()
            invariant
                i <= found@.len(),
                fs.wf(),
                fs.files@.len() == i,
                disk_files_named(found@),
                data_sum(found@) <= u64::MAX,
                fs.total == data_sum(found@.take(i as int)),
                forall|j: int| 0 <= j < i ==> kept_as(#[trigger] fs.files@[j], found@[j]),
            decreases found.len() - i,
        {
            let d = &found[i];
            proof {
                reveal_strlit("\\");
                reveal_strlit("/");
                assert("\\"@ =~= seq!['\\']);
                assert("/"@ =~= seq!['/']);
            }
            let path = replace_str(d.path.as_str(), "\\", "/");
            proof {
                assert(found@.take(i + 1).drop_last() =~= found@.take(i as int));
                lemma_data_sum_prefix(found@, i + 1);
                assert(path_file_name(disk_path(found@[i as int].path@)) is Some);
            }
            let ghost before = fs.files@;
            fs.record(
                path,
                vstd::slice::slice_to_vec(d.data.as_slice()),
                d.created,
                d.accessed,
                d.modified,
            );
            proof {
                assert forall|j: int| 0 <= j < i + 1 implies kept_as(#[trigger] fs.files@[j], found@[j]) by {
                    if j < i {
                        assert(fs.files@[j] == fs.files@.drop_last()[j]);
                    }
                }
            }
            i = i + 1;
        }
        proof {
            assert(found@.take(i as int) =~= found@);
        }
        fs
    }

    /// Adds a file read from disk at `path` with contents `data`: its size is
    /// the length of `data`, its depth is that of its path, and the total
    /// grows by that size.
    pub fn record(
        &mut self,
        path: String,
        data: Vec<u8>,
        created: u64,
        accessed: u64,
        modified: u64,
    )
        requires
            old(self).wf(),
            old(self).total + data@.len() <= u64::MAX,
            path_file_name(path@) matches Some(n) && n.is_suffix_of(path@),
        ensures
            final(self).wf(),
            final(self).files@.len() == old(self).files@.len() + 1,
            final(self).files@.drop_last() == old(self).files@,
            final(self).files@.last().path@ == path@,
            final(self).files@.last().content@ == data@,
            final(self).files@.last().created == created,
            final(self).files@.last().accessed == accessed,
            final(self).files@.last().modified == modified,
            final(self).files@.last().depth == path_depth(path@),
            final(self).total == old(self).total + data@.len(),
    {
        let efs_path = EFsPath::Local(path);
        let efs_data = EFsData::Local(data);
        let size = efs_data.len() as u64;
        let depth = efs_path.depth();
        self.files.push(
            FsFile { path: efs_path, content: efs_data, size, created, accessed, modified, depth },
        );
        self.total = self.total + size;
        proof {
            assert(self.files@.drop_last() =~= old(self).files@);
        }
    }
}

impl Default for PluginsFs {
    fn default() -> (r: Self)
        ensures
            r.total == 0,
            r.files@.len() == 0,
    {
        PluginsFs { total: 0, files: Vec::new() }
    }
}

/// A file exists at a path exactly when `get` finds one there; what `get`
/// finds has that path, and no file before it does.
pub proof fn lemma_get_agrees_with_exists(fs: PluginsFs, path: Seq<char>)
    ensures
        (exists|i: int| 0 <= i < fs.files@.len() && (#[trigger] fs.files@[i]).path@ == path)
            <==> first_with_path(fs.files@, path) is Some,
        first_with_path(fs.files@, path) matches Some(i) ==> 0 <= i < fs.files@.len()
            && fs.files@[i].path@ == path && forall|j: int|
            0 <= j < i ==> (#[trigger] fs.files@[j]).path@ != path,
{
    let files = fs.files@;
    if exists|i: int| 0 <= i < files.len() && (#[trigger] files[i]).path@ == path {
        let i0 = choose|i: int| 0 <= i < files.len() && (#[trigger] files[i]).path@ == path;
        lemma_first_path_exists(files, path, i0);
    }
}

proof fn lemma_first_path_exists(files: Seq<FsFile>, path: Seq<char>, i0: int)
    requires
        0 <= i0 < files.len(),
        files[i0].path@ == path,
    ensures
        exists|i: int|
            0 <= i < files.len() && (#[trigger] files[i]).path@ == path && forall|j: int|
                0 <= j < i ==> (#[trigger] files[j]).path@ != path,
    decreases i0,
{
    if exists|j: int| 0 <= j < i0 && (#[trigger] files[j]).path@ == path {
        let j0 = choose|j: int| 0 <= j < i0 && (#[trigger] files[j]).path@ == path;
        lemma_first_path_exists(files, path, j0);
    } else {
        assert(files[i0].path@ == path);
    }
}

} // verus!
