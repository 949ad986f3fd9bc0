use std::io::Write;

use plugins_rs::archive::{archive, archive_7z, archive_tar, archive_tar_gz, archive_tar_xz, archive_zip};
use plugins_rs::errors::PluginError;
use plugins_rs::modules::archives::{get_archive_files, read_archive, ArchiveType};

type Entries = Vec<(String, Option<Vec<u8>>)>;

/// What a read hands on, where it reads to the end.
fn collected(read: impl FnOnce(&mut Entries) -> Result<(), PluginError>) -> Result<Entries, PluginError> {
    let mut out = Vec::new();
    read(&mut out).map(|_| out)
}

fn zip_of(members: &[(&str, &[u8])]) -> Vec<u8> {
    let mut w = zip::ZipWriter::new(std::io::Cursor::new(Vec::new()));
    let options = zip::write::SimpleFileOptions::default();
    for (name, data) in members {
        if name.ends_with('/') {
            w.add_directory(*name, options).unwrap();
        } else {
            w.start_file(*name, options).unwrap();
            w.write_all(data).unwrap();
        }
    }
    w.finish().unwrap().into_inner()
}

fn tar_of(members: &[(&str, &[u8])]) -> Vec<u8> {
    let mut b = tar::Builder::new(Vec::new());
    for (name, data) in members {
        let mut h = tar::Header::new_gnu();
        let bytes = name.as_bytes();
        h.as_mut_bytes()[..bytes.len()].copy_from_slice(bytes);
        h.set_size(data.len() as u64);
        h.set_mode(0o644);
        if name.ends_with('/') {
            h.set_entry_type(tar::EntryType::Directory);
        } else {
            h.set_entry_type(tar::EntryType::Regular);
        }
        h.set_cksum();
        b.append(&h, *data).unwrap();
    }
    b.into_inner().unwrap()
}

fn gz_of(data: &[u8]) -> Vec<u8> {
    let mut e = flate2::write::GzEncoder::new(Vec::new(), flate2::Compression::default());
    e.write_all(data).unwrap();
    e.finish().unwrap()
}

fn xz_of(data: &[u8]) -> Vec<u8> {
    let mut e = xz2::write::XzEncoder::new(Vec::new(), 6);
    e.write_all(data).unwrap();
    e.finish().unwrap()
}

fn sevenz_of(members: &[(&str, &[u8])]) -> Vec<u8> {
    let mut w = sevenz_rust2::ArchiveWriter::new(std::io::Cursor::new(Vec::new())).unwrap();
    for (name, data) in members {
        w.push_archive_entry(sevenz_rust2::ArchiveEntry::new_file(name), Some(*data)).unwrap();
    }
    w.finish().unwrap().into_inner()
}

fn plugin_zip() -> Vec<u8> {
    zip_of(&[
        ("plugin/index.js", b"export default 1;"),
        ("plugin/plugin.json", b"{\"name\":\"demo\"}"),
        ("plugin/README.md", b"# demo"),
    ])
}

fn plugin_tar() -> Vec<u8> {
    tar_of(&[
        ("./", b""),
        ("./plugin.json", b"{\"name\":\"demo\"}"),
        ("./lib/", b""),
        ("./lib/index.ts", b"export const a = 1;"),
        ("./notes.txt", b"notes"),
    ])
}

fn names(v: &[(String, Option<Vec<u8>>)]) -> Vec<&str> {
    v.iter().map(|e| e.0.as_str()).collect()
}

#[test]
fn zip_lists_every_member_with_contents() {
    let data = plugin_zip();
    let all = collected(|o| archive_zip(true, &data, o)).unwrap();
    assert_eq!(names(&all), vec!["plugin/index.js", "plugin/plugin.json", "plugin/README.md"]);
    assert_eq!(all[0].1, Some(b"export default 1;".to_vec()));
    assert_eq!(all[2].1, Some(b"# demo".to_vec()));
}

#[test]
fn zip_with_a_folder_member_is_refused() {
    let data = zip_of(&[("plugin/", b""), ("plugin/index.js", b"1")]);
    assert!(matches!(collected(|o| archive_zip(true, &data, o)), Err(PluginError::Archive(_))));
    assert!(matches!(collected(|o| archive_zip(false, &data, o)), Err(PluginError::Archive(_))));
}

#[test]
fn zip_listing_without_contents() {
    let data = plugin_zip();
    let all = collected(|o| archive_zip(false, &data, o)).unwrap();
    assert_eq!(all.len(), 3);
    assert!(all.iter().all(|e| e.1.is_none()));
}

#[test]
fn zip_refuses_garbage() {
    assert!(matches!(collected(|o| archive_zip(true, b"not a zip archive", o)), Err(PluginError::Archive(_))));
}

#[test]
fn tar_members_lose_their_leading_dot() {
    let data = plugin_tar();
    let all = collected(|o| archive_tar(true, &data, o)).unwrap();
    assert_eq!(names(&all), vec!["plugin.json", "lib", "lib/index.ts", "notes.txt"]);
    assert_eq!(all[0].1, Some(b"{\"name\":\"demo\"}".to_vec()));
    assert_eq!(all[2].1, Some(b"export const a = 1;".to_vec()));
    let listed = collected(|o| archive_tar(false, &data, o)).unwrap();
    assert_eq!(names(&listed), names(&all));
    assert!(listed.iter().all(|e| e.1.is_none()));
}

#[test]
fn tar_member_without_leading_dot_fails() {
    let data = tar_of(&[("plugin.json", b"{}")]);
    assert!(collected(|o| archive_tar(true, &data, o)).is_err());
    assert!(collected(|o| read_archive(ArchiveType::Tar, true, &data, o)).is_err());
}

#[test]
fn compressed_tars_read_like_plain_ones() {
    let raw = plugin_tar();
    let gz = gz_of(&raw);
    let xz = xz_of(&raw);
    let plain = collected(|o| archive_tar(true, &raw, o)).unwrap();
    assert_eq!(collected(|o| archive_tar_gz(true, &gz, o)).unwrap(), plain);
    assert_eq!(collected(|o| archive_tar_xz(true, &xz, o)).unwrap(), plain);
    assert!(collected(|o| archive_tar_gz(true, &raw, o)).is_err());
    assert!(collected(|o| archive_tar_xz(true, &gz, o)).is_err());
}

#[test]
fn sevenz_lists_members_with_contents() {
    let data = sevenz_of(&[("plugin/index.js", b"let x = 1;"), ("plugin/plugin.json", b"{}")]);
    let all = collected(|o| archive_7z(true, &data, o)).unwrap();
    assert_eq!(names(&all), vec!["plugin/index.js", "plugin/plugin.json"]);
    assert_eq!(all[0].1, Some(b"let x = 1;".to_vec()));
    let listed = collected(|o| archive_7z(false, &data, o)).unwrap();
    assert_eq!(names(&listed), names(&all));
    assert!(listed.iter().all(|e| e.1.is_none()));
    assert!(collected(|o| archive_7z(true, b"garbage", o)).is_err());
}

#[test]
fn archive_dispatches_by_extension() {
    let z = plugin_zip();
    assert_eq!(collected(|o| archive(".zip", true, &z, o)).unwrap(), collected(|o| archive_zip(true, &z, o)).unwrap());
    let t = plugin_tar();
    assert_eq!(collected(|o| archive(".tar", false, &t, o)).unwrap(), collected(|o| archive_tar(false, &t, o)).unwrap());
    assert_eq!(collected(|o| archive(".tar.gz", true, &gz_of(&t), o)).unwrap(), collected(|o| archive_tar(true, &t, o)).unwrap());
    assert_eq!(collected(|o| archive(".tgz", true, &z, o)).unwrap(), Vec::new());
    assert_eq!(collected(|o| archive(".rar", true, b"whatever", o)).unwrap(), Vec::new());
}

#[test]
fn read_archive_keeps_plugin_files_only() {
    let z = plugin_zip();
    let kept = collected(|o| read_archive(ArchiveType::Zip, true, &z, o)).unwrap();
    assert_eq!(names(&kept), vec!["plugin/index.js", "plugin/plugin.json"]);
    let t = plugin_tar();
    let kept = collected(|o| read_archive(ArchiveType::Tar, true, &t, o)).unwrap();
    assert_eq!(names(&kept), vec!["plugin.json", "lib/index.ts"]);
    let kept_gz = collected(|o| read_archive(ArchiveType::Tgz, true, &gz_of(&t), o)).unwrap();
    assert_eq!(kept_gz, kept);
    let kept_xz = collected(|o| read_archive(ArchiveType::Txz, false, &xz_of(&t), o)).unwrap();
    assert_eq!(names(&kept_xz), vec!["plugin.json", "lib/index.ts"]);
    assert!(kept_xz.iter().all(|e| e.1.is_none()));
    let s = sevenz_of(&[("a/notes.txt", b"n"), ("a/index.tsx", b"<a/>")]);
    let kept = collected(|o| read_archive(ArchiveType::SevenZ, true, &s, o)).unwrap();
    assert_eq!(names(&kept), vec!["a/index.tsx"]);
}

#[test]
fn archive_files_by_path() {
    let z = plugin_zip();
    let map = get_archive_files(ArchiveType::Zip, &z).unwrap();
    assert_eq!(map.len(), 2);
    assert_eq!(map.get("plugin/index.js"), Some(&b"export default 1;".to_vec()));
    assert_eq!(map.get("plugin/README.md"), None);
    assert!(get_archive_files(ArchiveType::Zip, b"nope").is_err());
}

#[test]
fn archive_map_keeps_the_last_member_at_each_path() {
    let data = tar_of(&[("./a.js", b"first"), ("./b.ts", b"other"), ("./a.js", b"second")]);
    let read = collected(|o| read_archive(ArchiveType::Tar, true, &data, o)).unwrap();
    assert_eq!(names(&read), vec!["a.js", "b.ts", "a.js"]);
    let map = get_archive_files(ArchiveType::Tar, &data).unwrap();
    assert_eq!(map.len(), 2);
    assert_eq!(map.get("a.js"), Some(&b"second".to_vec()));
    assert_eq!(map.get("b.ts"), Some(&b"other".to_vec()));
    assert_eq!(map.get("c.js"), None);
}

#[test]
fn tar_hands_on_the_members_before_one_outside_the_root() {
    let data = tar_of(&[("./a.js", b"x"), ("b.js", b"y"), ("./c.js", b"z")]);
    let mut out: Entries = vec![("earlier".to_string(), None)];
    assert!(matches!(archive_tar(true, &data, &mut out), Err(PluginError::Unknown(_))));
    assert_eq!(names(&out), vec!["earlier", "a.js"]);
    assert_eq!(out[1].1, Some(b"x".to_vec()));
    let mut gz_out: Entries = Vec::new();
    assert!(archive_tar_gz(false, &gz_of(&data), &mut gz_out).is_err());
    assert_eq!(names(&gz_out), vec!["a.js"]);
    let mut kept: Entries = Vec::new();
    assert!(read_archive(ArchiveType::Txz, true, &xz_of(&data), &mut kept).is_err());
    assert_eq!(names(&kept), vec!["a.js"]);
}

#[test]
fn zip_hands_on_the_members_before_one_that_cannot_be_read() {
    let data = zip_of(&[("a/index.js", b"1"), ("plugin/", b""), ("b.js", b"2")]);
    let mut out: Entries = Vec::new();
    assert!(matches!(archive_zip(true, &data, &mut out), Err(PluginError::Archive(_))));
    assert_eq!(names(&out), vec!["a/index.js"]);
    let mut garbage: Entries = Vec::new();
    assert!(archive(".zip", true, b"not a zip", &mut garbage).is_err());
    assert!(garbage.is_empty());
}

#[test]
fn tar_reads_large_members_whole() {
    let big: Vec<u8> = (0..40_000u32).map(|i| (i % 251) as u8 + 1).collect();
    let data = tar_of(&[("./small.js", b"s"), ("./big.js", &big)]);
    let all = collected(|o| archive_tar(true, &data, o)).unwrap();
    assert_eq!(names(&all), vec!["small.js", "big.js"]);
    assert_eq!(all[1].1.as_ref().unwrap(), &big);
    let gz = collected(|o| archive_tar_gz(true, &gz_of(&data), o)).unwrap();
    assert_eq!(gz, all);
}
