//! The archive readers: listings and file contents of zip, tar (plain, gzip,
//! xz) and 7z archives held in memory.
use vstd::prelude::*;

verus! {

#[verifier::external_type_specification]
#[verifier::external_body]
pub struct ExZipError(zip::result::ZipError);

#[verifier::external_type_specification]
#[verifier::external_body]
pub struct ExIoError(std::io::Error);

#[verifier::external_type_specification]
#[verifier::external_body]
pub struct ExSevenZError(sevenz_rust2::Error);

/// An archive member: its path and, when it was read, its contents.
pub type RawEntry = (String, Option<Vec<u8>>);

/// The view of an archive member.
pub type EntryView = (Seq<char>, Option<Seq<u8>>);

pub open spec fn opt_bytes_view(o: Option<Vec<u8>>) -> Option<Seq<u8>> {
    match o {
        Some(v) => Some(v@),
        None => None,
    }
}

pub open spec fn entries_view(s: Seq<RawEntry>) -> Seq<EntryView> {
    s.map_values(|e: RawEntry| (e.0@, opt_bytes_view(e.1)))
}

/// Whether every member of `l` carries contents exactly when `read`.
pub open spec fn entries_view_data(l: Seq<EntryView>, read: bool) -> bool {
    forall|i: int| 0 <= i < l.len() ==> ((#[trigger] l[i]).1 is Some <==> read)
}

pub open spec fn strings_view(s: Seq<String>) -> Seq<Seq<char>> {
    s.map_values(|e: String| e@)
}

/// The member names that `zip::ZipArchive` lists for the archive `data`, or
/// none when it refuses the archive or a name.
pub uninterp spec fn zip_names(data: Seq<u8>) -> Option<Seq<Seq<char>>>;

/// Opens `data` with `zip::ZipArchive::new` and collects `file_names`.
///
/// Trusted: the names are those the zip crate reads from the central
/// directory, in its order, named `zip_names`.
#[verifier::external_body]
pub(crate) fn zip_file_names(data: &[u8]) -> (r: Result<Vec<String>, zip::result::ZipError>)
    ensures
        match r {
            Ok(v) => zip_names(data@) == Some(strings_view(v@)),
            Err(_) => zip_names(data@) is None,
        },
{
    let archive = zip::ZipArchive::new(std::io::Cursor::new(data))?;
    archive.file_names().map(|n| n.map(|n| n.into_owned())).collect()
}

/// Whether `zip::ZipArchive::by_path` finds the member `name` in `data`.
pub uninterp spec fn zip_member_found(data: Seq<u8>, name: Seq<char>) -> bool;

/// Opens `data` with `zip::ZipArchive::new` and looks `name` up with `by_path`.
///
/// Trusted: success is what the zip crate decides, named `zip_member_found`.
#[verifier::external_body]
pub(crate) fn zip_find(data: &[u8], name: &str) -> (r: Result<(), zip::result::ZipError>)
    ensures
        r is Ok <==> zip_member_found(data@, name@),
{
    let mut archive = zip::ZipArchive::new(std::io::Cursor::new(data))?;
    archive.by_path(name).map(|_| ())
}

/// The contents that the zip crate decompresses for member `name` of `data`.
pub uninterp spec fn zip_member(data: Seq<u8>, name: Seq<char>) -> Option<Seq<u8>>;

/// Opens `data` with `zip::ZipArchive::new`, looks `name` up with `by_path`
/// and reads the member's `size()` bytes with `read_exact`.
///
/// Trusted: the bytes are what the zip crate decompresses, named
/// `zip_member`; a member it reads is one it finds.
#[verifier::external_body]
pub(crate) fn zip_read(data: &[u8], name: &str) -> (r: Result<Vec<u8>, zip::result::ZipError>)
    ensures
        match r {
            Ok(v) => zip_member(data@, name@) == Some(v@),
            Err(_) => zip_member(data@, name@) is None,
        },
{
    let mut archive = zip::ZipArchive::new(std::io::Cursor::new(data))?;
    let mut file = archive.by_path(name)?;
    let mut buf = vec![0u8; file.size() as usize];
    std::io::Read::read_exact(&mut file, &mut buf)?;
    Ok(buf)
}

/// The members of the tar archive `data` read before the first error, if
/// any: raw paths and, when `read`, each member's bytes; and whether the
/// archive was read to its end without an error.
pub uninterp spec fn tar_members(data: Seq<u8>, read: bool) -> (Seq<EntryView>, bool);

/// The members of the gzip-compressed tar archive `data`, as `tar_members`.
pub uninterp spec fn tar_gz_members(data: Seq<u8>, read: bool) -> (Seq<EntryView>, bool);

/// The members of the xz-compressed tar archive `data`, as `tar_members`.
pub uninterp spec fn tar_xz_members(data: Seq<u8>, read: bool) -> (Seq<EntryView>, bool);

/// The members of the tar archive `data`, read through a `BufReader`: walks
/// `tar::Archive::entries`, and for each member, when `read`, fills a buffer
/// of the member's size with `read_exact`, then takes its path. The first
/// error stops the walk and comes back beside the members read before it.
///
/// Trusted: the members and the error are what the tar crate's entry
/// iterator gives, named `tar_members`; paths that are not UTF-8 are
/// converted lossily.
#[verifier::external_body]
pub(crate) fn tar_list(data: &[u8], read: bool) -> (r: (Vec<RawEntry>, Option<std::io::Error>))
    ensures
        tar_members(data@, read) == (entries_view(r.0@), r.1 is None),
        entries_view_data(entries_view(r.0@), read),
{
    let mut out = Vec::new();
    let mut walk = || -> std::io::Result<()> {
        for entry in tar::Archive::new(std::io::BufReader::new(data)).entries()? {
            let mut entry = entry?;
            let mut buf = vec![0u8; entry.size() as usize];
            let content = if read { std::io::Read::read_exact(&mut entry, &mut buf).map(|_| Some(buf))? } else { None };
            out.push((entry.path()?.to_string_lossy().into_owned(), content));
        }
        Ok(())
    };
    let stop = walk().err();
    (out, stop)
}

/// The members of the gzip-compressed tar archive `data`, decompressed with
/// `flate2::read::GzDecoder`, as `tar_list` reads them.
///
/// Trusted: the members and the error are what flate2 and the tar crate
/// give, named `tar_gz_members`.
#[verifier::external_body]
pub(crate) fn tar_gz_list(data: &[u8], read: bool) -> (r: (Vec<RawEntry>, Option<std::io::Error>))
    ensures
        tar_gz_members(data@, read) == (entries_view(r.0@), r.1 is None),
        entries_view_data(entries_view(r.0@), read),
{
    let mut out = Vec::new();
    let mut walk = || -> std::io::Result<()> {
        for entry in tar::Archive::new(flate2::read::GzDecoder::new(std::io::BufReader::new(data))).entries()? {
            let mut entry = entry?;
            let mut buf = vec![0u8; entry.size() as usize];
            let content = if read { std::io::Read::read_exact(&mut entry, &mut buf).map(|_| Some(buf))? } else { None };
            out.push((entry.path()?.to_string_lossy().into_owned(), content));
        }
        Ok(())
    };
    let stop = walk().err();
    (out, stop)
}

/// The members of the xz-compressed tar archive `data`, decompressed with
/// `xz2::read::XzDecoder`, as `tar_list` reads them.
///
/// Trusted: the members and the error are what xz2 and the tar crate give,
/// named `tar_xz_members`.
#[verifier::external_body]
pub(crate) fn tar_xz_list(data: &[u8], read: bool) -> (r: (Vec<RawEntry>, Option<std::io::Error>))
    ensures
        tar_xz_members(data@, read) == (entries_view(r.0@), r.1 is None),
        entries_view_data(entries_view(r.0@), read),
{
    let mut out = Vec::new();
    let mut walk = || -> std::io::Result<()> {
        for entry in tar::Archive::new(xz2::read::XzDecoder::new(std::io::BufReader::new(data))).entries()? {
            let mut entry = entry?;
            let mut buf = vec![0u8; entry.size() as usize];
            let content = if read { std::io::Read::read_exact(&mut entry, &mut buf).map(|_| Some(buf))? } else { None };
            out.push((entry.path()?.to_string_lossy().into_owned(), content));
        }
        Ok(())
    };
    let stop = walk().err();
    (out, stop)
}

/// The member names that `sevenz_rust2::ArchiveReader` lists for `data`.
pub uninterp spec fn sevenz_names(data: Seq<u8>) -> Option<Seq<Seq<char>>>;

/// Opens `data` with `sevenz_rust2::ArchiveReader::new` (no password) and
/// takes the names of `archive().files`.
///
/// Trusted: the names are those sevenz-rust2 reads from the archive header,
/// in its order, named `sevenz_names`.
#[verifier::external_body]
pub(crate) fn sevenz_file_names(data: &[u8]) -> (r: Result<Vec<String>, sevenz_rust2::Error>)
    ensures
        match r {
            Ok(v) => sevenz_names(data@) == Some(strings_view(v@)),
            Err(_) => sevenz_names(data@) is None,
        },
{
    let reader = sevenz_rust2::ArchiveReader::new(std::io::Cursor::new(data), sevenz_rust2::Password::empty())?;
    Ok(reader.archive().files.iter().map(|e| e.name().to_string()).collect())
}

/// The contents that `ArchiveReader::read_file` gives for `name` in `data`.
pub uninterp spec fn sevenz_member(data: Seq<u8>, name: Seq<char>) -> Option<Seq<u8>>;

/// Opens `data` with `sevenz_rust2::ArchiveReader::new` (no password) and
/// calls `read_file(name)`.
///
/// Trusted: the bytes are what sevenz-rust2 decodes, named `sevenz_member`.
#[verifier::external_body]
pub(crate) fn sevenz_read(data: &[u8], name: &str) -> (r: Result<Vec<u8>, sevenz_rust2::Error>)
    ensures
        match r {
            Ok(v) => sevenz_member(data@, name@) == Some(v@),
            Err(_) => sevenz_member(data@, name@) is None,
        },
{
    let mut reader = sevenz_rust2::ArchiveReader::new(std::io::Cursor::new(data), sevenz_rust2::Password::empty())?;
    reader.read_file(name)
}

} // verus!
