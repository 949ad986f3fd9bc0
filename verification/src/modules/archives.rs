//! Archive formats that plugins come packed in, and reading the plugin files
//! they hold.
use vstd::prelude::*;
use crate::archive::{
    archive_partial, complete, entries_view_data, hand_on, lemma_entries_view_append,
    lemma_gather_plugin_files, lemma_tar_plugin_files, plugin_file, plugin_files, sevenz_fetch,
    sevenz_members, sevenz_partial, tar_entries, tar_partial, zip_fetch, zip_members, zip_partial,
    TarCodec,
};
use crate::errors::{PluginError, Result};
use crate::maps::BytesMap;
use crate::text::{file_name, first_suffix, path_extension, path_file_name, str_eq};
use crate::utils::{archive_exts, check_for_archive};
use crate::unpack::{
    entries_view, sevenz_names, tar_gz_members, tar_members, tar_xz_members, zip_names, EntryView,
    RawEntry,
};

verus! {

/// A supported archive format.
#[derive(Debug, Clone, Copy, PartialEq, Eq, Structural)]
pub enum ArchiveType {
    SevenZ,
    Zip,
    Tar,
    TarGz,
    Tgz,
    TarXz,
    Txz,
}

/// The extension of each archive format.
pub open spec fn archive_type_ext(t: ArchiveType) -> Seq<char> {
    match t {
        ArchiveType::SevenZ => ".7z"@,
        ArchiveType::Zip => ".zip"@,
        ArchiveType::Tar => ".tar"@,
        ArchiveType::TarGz => ".tar.gz"@,
        ArchiveType::Tgz => ".tgz"@,
        ArchiveType::TarXz => ".tar.xz"@,
        ArchiveType::Txz => ".txz"@,
    }
}

/// The archive format with extension `e`.
pub open spec fn archive_type_of(e: Seq<char>) -> Option<ArchiveType> {
    if e == ".7z"@ {
        Some(ArchiveType::SevenZ)
    } else if e == ".zip"@ {
        Some(ArchiveType::Zip)
    } else if e == ".tar"@ {
        Some(ArchiveType::Tar)
    } else if e == ".tar.gz"@ {
        Some(ArchiveType::TarGz)
    } else if e == ".tgz"@ {
        Some(ArchiveType::Tgz)
    } else if e == ".tar.xz"@ {
        Some(ArchiveType::TarXz)
    } else if e == ".txz"@ {
        Some(ArchiveType::Txz)
    } else {
        None
    }
}

/// The format of a path: the one named by the archive extension that ends
/// its file name (its last normal component, as `Path::file_name` takes it,
/// so that a trailing `/` or `/.` does not count), so that `x.tar.gz` is a
/// gzip-compressed tar archive.
pub open spec fn archive_type_of_path(p: Seq<char>) -> Option<ArchiveType> {
    match path_file_name(p) {
        Some(name) => match first_suffix(archive_exts(), name) {
            Some(e) => archive_type_of(e),
            None => None,
        },
        None => None,
    }
}

proof fn lemma_archive_exts_distinct()
    ensures
        ".7z"@ != ".zip"@,
        ".7z"@ != ".tar"@,
        ".7z"@ != ".tar.gz"@,
        ".7z"@ != ".tgz"@,
        ".7z"@ != ".tar.xz"@,
        ".7z"@ != ".txz"@,
        ".zip"@ != ".tar"@,
        ".zip"@ != ".tar.gz"@,
        ".zip"@ != ".tgz"@,
        ".zip"@ != ".tar.xz"@,
        ".zip"@ != ".txz"@,
        ".tar"@ != ".tar.gz"@,
        ".tar"@ != ".tgz"@,
        ".tar"@ != ".tar.xz"@,
        ".tar"@ != ".txz"@,
        ".tar.gz"@ != ".tgz"@,
        ".tar.gz"@ != ".tar.xz"@,
        ".tar.gz"@ != ".txz"@,
        ".tgz"@ != ".tar.xz"@,
        ".tgz"@ != ".txz"@,
        ".tar.xz"@ != ".txz"@,
{
    reveal_strlit(".7z");
    reveal_strlit(".zip");
    reveal_strlit(".tar");
    reveal_strlit(".tar.gz");
    reveal_strlit(".tgz");
    reveal_strlit(".tar.xz");
    reveal_strlit(".txz");
    assert(".7z"@.len() != ".zip"@.len());
    assert(".7z"@[1] != ".tar"@[1]);
    assert(".7z"@.len() != ".tar.gz"@.len());
    assert(".7z"@.len() != ".tgz"@.len());
    assert(".7z"@.len() != ".tar.xz"@.len());
    assert(".7z"@.len() != ".txz"@.len());
    assert(".zip"@[1] != ".tar"@[1]);
    assert(".zip"@.len() != ".tar.gz"@.len());
    assert(".zip"@[1] != ".tgz"@[1]);
    assert(".zip"@.len() != ".tar.xz"@.len());
    assert(".zip"@[1] != ".txz"@[1]);
    assert(".tar"@.len() != ".tar.gz"@.len());
    assert(".tar"@[2] != ".tgz"@[2]);
    assert(".tar"@.len() != ".tar.xz"@.len());
    assert(".tar"@[2] != ".txz"@[2]);
    assert(".tar.gz"@.len() != ".tgz"@.len());
    assert(".tar.gz"@[5] != ".tar.xz"@[5]);
    assert(".tar.gz"@.len() != ".txz"@.len());
    assert(".tgz"@.len() != ".tar.xz"@.len());
    assert(".tgz"@[2] != ".txz"@[2]);
    assert(".tar.xz"@.len() != ".txz"@.len());
}

/// Each format is found again from its extension, and an extension names at
/// most one format.
pub proof fn lemma_archive_type_ext_roundtrip(t: ArchiveType, e: Seq<char>)
    ensures
        archive_type_of(archive_type_ext(t)) == Some(t),
        archive_type_of(e) == Some(t) ==> archive_type_ext(t) == e,
{
    lemma_archive_exts_distinct();
}

/// Every archive extension names a format.
pub proof fn lemma_archive_exts_typed(e: Seq<char>)
    requires
        crate::utils::archive_exts().contains(e),
    ensures
        archive_type_of(e) is Some,
{
    let x = crate::utils::archive_exts();
    let i = choose|i: int| 0 <= i < x.len() && x[i] == e;
    assert(x[0] == ".7z"@ && x[1] == ".zip"@ && x[2] == ".tar"@ && x[3] == ".tar.gz"@);
    assert(x[4] == ".tgz"@ && x[5] == ".tar.xz"@ && x[6] == ".txz"@);
}

impl ArchiveType {
    /// The format's extension.
    pub fn ext(self) -> (r: &'static str)
        ensures
            r@ == archive_type_ext(self),
    {
        match self {
            ArchiveType::SevenZ => ".7z",
            ArchiveType::Zip => ".zip",
            ArchiveType::Tar => ".tar",
            ArchiveType::TarGz => ".tar.gz",
            ArchiveType::Tgz => ".tgz",
            ArchiveType::TarXz => ".tar.xz",
            ArchiveType::Txz => ".txz",
        }
    }

    /// The format whose extension is `ext`.
    pub fn from_ext(ext: &str) -> (r: Option<ArchiveType>)
        ensures
            r == archive_type_of(ext@),
    {
        if str_eq(ext, ".7z") {
            Some(ArchiveType::SevenZ)
        } else if str_eq(ext, ".zip") {
            Some(ArchiveType::Zip)
        } else if str_eq(ext, ".tar") {
            Some(ArchiveType::Tar)
        } else if str_eq(ext, ".tar.gz") {
            Some(ArchiveType::TarGz)
        } else if str_eq(ext, ".tgz") {
            Some(ArchiveType::Tgz)
        } else if str_eq(ext, ".tar.xz") {
            Some(ArchiveType::TarXz)
        } else if str_eq(ext, ".txz") {
            Some(ArchiveType::Txz)
        } else {
            None
        }
    }

    /// The format of the archive at `path`, by the archive extension that
    /// ends its file name (`.tar.gz` and `.tar.xz` included); the path must
    /// have an extension.
    pub fn from_path(path: &str) -> (r: Option<ArchiveType>)
        requires
            path_extension(path@) is Some,
        ensures
            r == archive_type_of_path(path@),
    {
        let name = match file_name(path) {
            Some(n) => n,
            None => {
                return None;
            },
        };
        let (is_archive, ext) = check_for_archive(name.to_string());
        if is_archive {
            ArchiveType::from_ext(ext)
        } else {
            None
        }
    }
}

/// The plugin files handed on from an archive of format `t`, up to where the
/// read stops, if it does: tar flavours by their codec, every format keeping
/// only members with a supported file name.
pub open spec fn archive_files_partial(t: ArchiveType, read: bool, data: Seq<u8>) -> (
    Seq<EntryView>,
    bool,
) {
    match t {
        ArchiveType::SevenZ => sevenz_partial(data, read, true),
        ArchiveType::Zip => zip_partial(data, read, true),
        ArchiveType::Tar => tar_partial(tar_members(data, read), true),
        ArchiveType::TarGz | ArchiveType::Tgz => tar_partial(tar_gz_members(data, read), true),
        ArchiveType::TarXz | ArchiveType::Txz => tar_partial(tar_xz_members(data, read), true),
    }
}

/// The plugin files held in an archive of format `t`, where all of them can
/// be read.
pub open spec fn archive_files_listing(t: ArchiveType, read: bool, data: Seq<u8>) -> Option<
    Seq<EntryView>,
> {
    complete(archive_files_partial(t, read, data))
}

/// Hands the plugin files held in the archive `data` of format `ext`, with
/// their contents when `read`, on to `out`, up to where the read stops.
pub fn read_archive(ext: ArchiveType, read: bool, data: &[u8], out: &mut Vec<RawEntry>) -> (r: Result<
    (),
>)
    ensures
        entries_view(final(out)@) == entries_view(old(out)@) + archive_files_partial(ext, read, data@).0,
        entries_view_data(archive_files_partial(ext, read, data@).0, read),
        r is Ok <==> archive_files_partial(ext, read, data@).1,
{
    let got = match ext {
        ArchiveType::SevenZ => sevenz_members(read, data, true),
        ArchiveType::Zip => zip_members(read, data, true),
        ArchiveType::Tar => tar_entries(TarCodec::Plain, read, data, true),
        ArchiveType::TarGz => tar_entries(TarCodec::Gzip, read, data, true),
        ArchiveType::Tgz => tar_entries(TarCodec::Gzip, read, data, true),
        ArchiveType::TarXz => tar_entries(TarCodec::Xz, read, data, true),
        ArchiveType::Txz => tar_entries(TarCodec::Xz, read, data, true),
    };
    proof {
        lemma_entries_view_append(out@, got.0@);
    }
    hand_on(out, got)
}

/// Each archive format is read by its own reader: `.tar.gz` and `.tgz`
/// through gzip, `.tar.xz` and `.txz` through xz, `.tar` as it is. The
/// plugin files that `read_archive` hands on for a format are exactly the
/// plugin files among the members that `archive` hands on for the extension
/// naming that format, and both reads stop at the same place.
pub proof fn lemma_archive_formats_by_reader(read: bool, data: Seq<u8>)
    ensures
        archive_partial(".7z"@, read, data) == sevenz_partial(data, read, false),
        archive_partial(".zip"@, read, data) == zip_partial(data, read, false),
        archive_partial(".tar"@, read, data) == tar_partial(tar_members(data, read), false),
        archive_partial(".tar.gz"@, read, data) == tar_partial(tar_gz_members(data, read), false),
        archive_partial(".tar.xz"@, read, data) == tar_partial(tar_xz_members(data, read), false),
        archive_files_partial(ArchiveType::SevenZ, read, data) == plugin_files(
            sevenz_partial(data, read, false),
        ),
        archive_files_partial(ArchiveType::Zip, read, data) == plugin_files(
            zip_partial(data, read, false),
        ),
        archive_files_partial(ArchiveType::Tar, read, data) == plugin_files(
            tar_partial(tar_members(data, read), false),
        ),
        archive_files_partial(ArchiveType::TarGz, read, data) == plugin_files(
            tar_partial(tar_gz_members(data, read), false),
        ),
        archive_files_partial(ArchiveType::Tgz, read, data) == plugin_files(
            tar_partial(tar_gz_members(data, read), false),
        ),
        archive_files_partial(ArchiveType::TarXz, read, data) == plugin_files(
            tar_partial(tar_xz_members(data, read), false),
        ),
        archive_files_partial(ArchiveType::Txz, read, data) == plugin_files(
            tar_partial(tar_xz_members(data, read), false),
        ),
        archive_files_partial(ArchiveType::TarGz, read, data) == plugin_files(
            archive_partial(".tar.gz"@, read, data),
        ),
        archive_files_partial(ArchiveType::TarXz, read, data) == plugin_files(
            archive_partial(".tar.xz"@, read, data),
        ),
{
    lemma_archive_exts_distinct();
    lemma_tar_plugin_files(tar_members(data, read));
    lemma_tar_plugin_files(tar_gz_members(data, read));
    lemma_tar_plugin_files(tar_xz_members(data, read));
    assert(Seq::<EntryView>::empty().filter(plugin_file()) =~= Seq::<EntryView>::empty()) by {
        reveal_with_fuel(Seq::filter, 1);
    }
    match zip_names(data) {
        Some(names) => lemma_gather_plugin_files(names, zip_fetch(data, read)),
        None => {},
    }
    match sevenz_names(data) {
        Some(names) => lemma_gather_plugin_files(names, sevenz_fetch(data, read)),
        None => {},
    }
}

/// The map that a listing's members make, later members winning.
pub open spec fn listing_map(l: Seq<EntryView>) -> Map<Seq<char>, Seq<u8>>
    decreases l.len(),
{
    if l.len() == 0 {
        Map::empty()
    } else {
        listing_map(l.drop_last()).insert(l.last().0, l.last().1.unwrap())
    }
}

/// The map that a listing makes holds exactly the paths listed, each with
/// the contents of the last member listed at it.
pub proof fn lemma_listing_map_members(l: Seq<EntryView>, p: Seq<char>)
    ensures
        listing_map(l).contains_key(p) <==> exists|i: int| 0 <= i < l.len() && (#[trigger] l[i]).0 == p,
        forall|i: int|
            0 <= i < l.len() && (#[trigger] l[i]).0 == p && (forall|j: int|
                i < j < l.len() ==> (#[trigger] l[j]).0 != p) ==> listing_map(l)[p] == l[i].1.unwrap(),
    decreases l.len(),
{
    if l.len() > 0 {
        let k = l.len() - 1;
        let front = l.drop_last();
        lemma_listing_map_members(front, p);
        assert forall|i: int| 0 <= i < front.len() implies #[trigger] front[i] == l[i] by {}
        if l[k].0 == p {
            assert forall|i: int|
                0 <= i < l.len() && (#[trigger] l[i]).0 == p && (forall|j: int|
                    i < j < l.len() ==> (#[trigger] l[j]).0 != p) implies listing_map(l)[p]
                == l[i].1.unwrap() by {
                if i < k {
                    assert(l[k].0 != p);
                }
            }
        } else {
            if exists|i: int| 0 <= i < l.len() && (#[trigger] l[i]).0 == p {
                let i = choose|i: int| 0 <= i < l.len() && (#[trigger] l[i]).0 == p;
                assert(front[i].0 == p);
            }
            assert forall|i: int|
                0 <= i < l.len() && (#[trigger] l[i]).0 == p && (forall|j: int|
                    i < j < l.len() ==> (#[trigger] l[j]).0 != p) implies listing_map(l)[p]
                == l[i].1.unwrap() by {
                assert(front[i] == l[i]);
                assert forall|j: int| i < j < front.len() implies (#[trigger] front[j]).0 != p by {
                    assert(front[j] == l[j]);
                }
            }
        }
    }
}

/// What `get_archive_files` gives is what `read_archive` reads: the archive's
/// files by path, each path with the contents of the last member read at it,
/// and no other path.
pub proof fn lemma_archive_files_are_read(t: ArchiveType, data: Seq<u8>, p: Seq<char>)
    requires
        archive_files_listing(t, true, data) is Some,
    ensures
        ({
            let l = archive_files_listing(t, true, data)->0;
            &&& listing_map(l).contains_key(p) <==> exists|i: int| 0 <= i < l.len() && (#[trigger] l[i]).0 == p
            &&& forall|i: int|
                0 <= i < l.len() && (#[trigger] l[i]).0 == p && (forall|j: int|
                    i < j < l.len() ==> (#[trigger] l[j]).0 != p) ==> listing_map(l)[p] == l[i].1.unwrap()
        }),
{
    lemma_listing_map_members(archive_files_listing(t, true, data)->0, p);
}

/// The plugin files of the archive `data`, by path.
pub fn get_archive_files(ext: ArchiveType, data: &[u8]) -> (r: Result<BytesMap>)
    ensures
        match archive_files_listing(ext, true, data@) {
            Some(l) => r matches Ok(m) && m@ == listing_map(l),
            None => r is Err,
        },
{
    let mut items: Vec<RawEntry> = Vec::new();
    read_archive(ext, true, data, &mut items)?;
    assert(entries_view(items@) =~= archive_files_partial(ext, true, data@).0);
    let ghost l = entries_view(items@);
    let mut map = BytesMap::new();
    let mut i: usize = 0;
    assert(l.take(0) =~= Seq::<EntryView>::empty());
    while i < items.len()
        invariant
            l == entries_view(items@),
            entries_view_data(l, true),
            i <= items@.len(),
            map@ == listing_map(l.take(i as int)),
        decreases items.len() - i,
    {
        proof {
            assert(l.take(i + 1).drop_last() =~= l.take(i as int));
            assert(l[i as int].1 is Some);
        }
        match &items[i].1 {
            Some(bytes) => {
                map.insert(items[i].0.clone(), vstd::slice::slice_to_vec(bytes.as_slice()));
            },
            None => {},
        }
        i = i + 1;
    }
    proof {
        assert(l.take(i as int) =~= l);
    }
    Ok(map)
}

} // verus!
