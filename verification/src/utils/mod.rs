//! The file extensions that plugin sources are made of, and the tests of a
//! path against them.
use vstd::prelude::*;
use crate::text::{
    file_name, find_suffix, first_suffix, last_index_of, lemma_first_suffix, lemma_last_index_of,
    path_file_name, strs_view,
};

verus! {

/// Script and data files that a plugin may hold, in the order they are tried.
pub open spec fn file_exts() -> Seq<Seq<char>> {
    seq![".json"@, ".ts"@, ".tsx"@, ".js"@, ".mjs"@, ".cjs"@, ".jsx"@]
}

/// Archive formats that a plugin may come packed in, in the order they are tried.
pub open spec fn archive_exts() -> Seq<Seq<char>> {
    seq![".7z"@, ".zip"@, ".tar"@, ".tar.gz"@, ".tgz"@, ".tar.xz"@, ".txz"@]
}

/// All supported extensions: files first, then archives.
pub open spec fn supported_exts() -> Seq<Seq<char>> {
    file_exts() + archive_exts()
}

/// Whether a path's file name ends with a supported extension.
pub open spec fn is_supported_path(path: Seq<char>) -> bool {
    match path_file_name(path) {
        Some(name) => first_suffix(supported_exts(), name) is Some,
        None => false,
    }
}

pub fn exts_files() -> (r: Vec<&'static str>)
    ensures
        strs_view(r@) == file_exts(),
{
    let r = vec![".json", ".ts", ".tsx", ".js", ".mjs", ".cjs", ".jsx"];
    assert(strs_view(r@) =~= file_exts());
    r
}

pub fn exts_archives() -> (r: Vec<&'static str>)
    ensures
        strs_view(r@) == archive_exts(),
{
    let r = vec![".7z", ".zip", ".tar", ".tar.gz", ".tgz", ".tar.xz", ".txz"];
    assert(strs_view(r@) =~= archive_exts());
    r
}

/// Whether `path` ends with an archive extension, and the first that it ends with.
pub fn check_for_archive(path: String) -> (r: (bool, &'static str))
    ensures
        r.0 == (first_suffix(archive_exts(), path@) is Some),
        r.0 ==> first_suffix(archive_exts(), path@) == Some(r.1@),
        !r.0 ==> r.1@ == Seq::<char>::empty(),
{
    let exts = exts_archives();
    match find_suffix(&exts, path.as_str()) {
        Some(e) => (true, e),
        None => {
            proof {
                reveal_strlit("");
            }
            (false, "")
        },
    }
}

/// Whether `path` ends with a file extension, and the first that it ends with.
pub fn check_for_file(path: String) -> (r: (bool, &'static str))
    ensures
        r.0 == (first_suffix(file_exts(), path@) is Some),
        r.0 ==> first_suffix(file_exts(), path@) == Some(r.1@),
        !r.0 ==> r.1@ == Seq::<char>::empty(),
{
    let exts = exts_files();
    match find_suffix(&exts, path.as_str()) {
        Some(e) => (true, e),
        None => {
            proof {
                reveal_strlit("");
            }
            (false, "")
        },
    }
}

/// Whether the file name of `path` ends with a supported extension.
pub fn is_some(path: &str) -> (r: bool)
    ensures
        r == is_supported_path(path@),
{
    let mut exts = exts_files();
    let mut more = exts_archives();
    exts.append(&mut more);
    assert(strs_view(exts@) =~= supported_exts());
    match file_name(path) {
        Some(name) => find_suffix(&exts, name).is_some(),
        None => false,
    }
}


/// Every file extension has at least three characters, ends in a letter, and
/// holds no `/`.
pub proof fn lemma_file_exts_shape()
    ensures
        forall|i: int|
            0 <= i < file_exts().len() ==> (#[trigger] file_exts()[i]).len() >= 3 && forall|j: int|
                0 <= j < file_exts()[i].len() ==> file_exts()[i][j] != '/',
{
    reveal_strlit(".json");
    reveal_strlit(".ts");
    reveal_strlit(".tsx");
    reveal_strlit(".js");
    reveal_strlit(".mjs");
    reveal_strlit(".cjs");
    reveal_strlit(".jsx");
}

/// No file or archive extension is empty or ends with `/`.
pub proof fn lemma_exts_not_slash()
    ensures
        forall|i: int|
            0 <= i < file_exts().len() ==> (#[trigger] file_exts()[i]).len() > 0
                && file_exts()[i].last() != '/',
        forall|i: int|
            0 <= i < archive_exts().len() ==> (#[trigger] archive_exts()[i]).len() > 0
                && archive_exts()[i].last() != '/',
{
    reveal_strlit(".json");
    reveal_strlit(".ts");
    reveal_strlit(".tsx");
    reveal_strlit(".js");
    reveal_strlit(".mjs");
    reveal_strlit(".cjs");
    reveal_strlit(".jsx");
    reveal_strlit(".7z");
    reveal_strlit(".zip");
    reveal_strlit(".tar");
    reveal_strlit(".tar.gz");
    reveal_strlit(".tgz");
    reveal_strlit(".tar.xz");
    reveal_strlit(".txz");
}

/// A path that ends with `/` ends with no file or archive extension.
pub proof fn lemma_slash_no_ext(s: Seq<char>)
    requires
        "/"@.is_suffix_of(s),
    ensures
        first_suffix(file_exts(), s) is None,
        first_suffix(archive_exts(), s) is None,
{
    reveal_strlit("/");
    lemma_exts_not_slash();
    lemma_first_suffix(file_exts(), s);
    lemma_first_suffix(archive_exts(), s);
    if let Some(e) = first_suffix(file_exts(), s) {
        let i = choose|i: int| 0 <= i < file_exts().len() && file_exts()[i] == e;
        assert(file_exts()[i] == e);
        assert(e.last() == s.last());
        assert(s.last() == "/"@.last());
    }
    if let Some(e) = first_suffix(archive_exts(), s) {
        let i = choose|i: int| 0 <= i < archive_exts().len() && archive_exts()[i] == e;
        assert(archive_exts()[i] == e);
        assert(e.last() == s.last());
        assert(s.last() == "/"@.last());
    }
}

/// A path that ends with a file extension has a file name: the part after its
/// last `/`, which ends the path.
pub proof fn lemma_file_ext_name(s: Seq<char>)
    requires
        first_suffix(file_exts(), s) is Some,
    ensures
        path_file_name(s) == Some(s.subrange(last_index_of(s, '/') + 1, s.len() as int)),
        path_file_name(s)->0.len() >= 3,
        path_file_name(s)->0.is_suffix_of(s),
{
    lemma_first_suffix(file_exts(), s);
    lemma_file_exts_shape();
    lemma_last_index_of(s, '/');
    let e = first_suffix(file_exts(), s)->0;
    let i = choose|i: int| 0 <= i < file_exts().len() && file_exts()[i] == e;
    assert(file_exts()[i] == e);
    let k = last_index_of(s, '/');
    if k >= s.len() - e.len() {
        assert(s[k] == e[k - (s.len() - e.len())]);
    }
    let seg = s.subrange(k + 1, s.len() as int);
    assert(seg.len() >= 3);
    assert(seg != seq!['.']);
    assert(seg != seq!['.', '.']);
}

} // verus!
