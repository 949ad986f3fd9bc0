use plugins_rs::efs::{DiskFile, EFsData, EFsPath, FsFile, PluginsFs};
use plugins_rs::maps::BytesMap;

fn disk(path: &str, data: &[u8], t: u64) -> DiskFile {
    DiskFile { path: path.to_string(), data: data.to_vec(), created: t, accessed: t + 1, modified: t + 2 }
}

fn sample() -> PluginsFs {
    PluginsFs::walk(&vec![
        disk("plugins\\demo\\plugin.json", b"{\"name\":\"demo\"}", 10),
        disk("plugins/demo/index.ts", b"export {}", 20),
        disk("plugins/other/index.js", &[0xff, 0xfe], 30),
    ])
}

#[test]
fn paths_and_their_parts() {
    let p = EFsPath::Local("plugins/demo/index.ts".to_string());
    assert_eq!(p.to_str(), "plugins/demo/index.ts");
    assert_eq!(p.to_path_buf(), "plugins/demo/index.ts");
    assert_eq!(p.file_name(), Some("index.ts"));
    assert_eq!(p.ext(), Some("ts"));
    assert_eq!(p.depth(), 3);
    let e = EFsPath::Embed("entry.ts");
    assert_eq!(e.depth(), 1);
    assert_eq!(e.ext(), Some("ts"));
    assert_eq!(EFsPath::Embed("dir/.hidden").ext(), None);
}

#[test]
fn contents_as_bytes_and_text() {
    let d = EFsData::Local(b"hello".to_vec());
    assert_eq!(d.data(), b"hello");
    assert_eq!(d.len(), 5);
    assert_eq!(d.to_str(), Some("hello"));
    let bad = EFsData::Embed(&[0xc3, 0x28]);
    assert_eq!(bad.to_str(), None);
    assert_eq!(bad.len(), 2);
}

#[test]
fn walk_keeps_files_in_order_with_slashes() {
    let fs = sample();
    assert_eq!(fs.count(), 3);
    assert!(!fs.is_empty());
    let paths: Vec<&str> = fs.iter().map(|f| f.path.to_str()).collect();
    assert_eq!(paths, vec!["plugins/demo/plugin.json", "plugins/demo/index.ts", "plugins/other/index.js"]);
    assert!(paths.iter().all(|p| !p.contains('\\')));
    assert_eq!(fs.size(), 15 + 9 + 2);
    let f = &fs.entries()[0];
    assert_eq!(f.size, 15);
    assert_eq!((f.created, f.accessed, f.modified), (10, 11, 12));
    assert_eq!(f.depth, 3);
}

#[test]
fn empty_walk() {
    let fs = PluginsFs::walk(&Vec::new());
    assert!(fs.is_empty());
    assert_eq!(fs.size(), 0);
    let d = PluginsFs::default();
    assert_eq!(d.count(), 0);
    assert_eq!(d.size(), 0);
}

#[test]
fn lookups_by_path() {
    let fs = sample();
    assert!(fs.file_exists("plugins/demo/index.ts"));
    assert!(!fs.file_exists("plugins/demo/missing.ts"));
    assert!(fs.get("plugins/demo/index.ts").is_some());
    assert!(fs.get("plugins\\demo\\plugin.json").is_none());
    assert_eq!(fs.index("plugins/demo/index.ts").content.data(), b"export {}");
    assert_eq!(fs.as_str("plugins/demo/plugin.json"), Some("{\"name\":\"demo\"}"));
    assert_eq!(fs.as_str("plugins/other/index.js"), None);
    assert_eq!(fs.as_str("nowhere"), None);
}

#[test]
fn exists_agrees_with_get() {
    let fs = sample();
    for p in ["plugins/demo/index.ts", "plugins/other/index.js", "x", ""] {
        assert_eq!(fs.file_exists(p), fs.get(p).is_some());
    }
}

#[test]
fn first_file_with_a_path_wins() {
    let fs = PluginsFs::walk(&vec![disk("a/x.js", b"first", 0), disk("a/x.js", b"second", 0)]);
    assert_eq!(fs.get("a/x.js").unwrap().content.data(), b"first");
    assert_eq!(fs.size(), 11);
}

#[test]
fn files_by_extension() {
    let fs = sample();
    let ts: Vec<&str> = fs.from_ext("ts").iter().map(|f| f.path.to_str()).collect();
    assert_eq!(ts, vec!["plugins/demo/index.ts"]);
    let js: Vec<&str> = fs.from_ext("js").iter().map(|f| f.path.to_str()).collect();
    assert_eq!(js, vec!["plugins/other/index.js"]);
    assert!(fs.from_ext(".ts").is_empty());
}

#[test]
fn record_adds_one_file() {
    let mut fs = PluginsFs::default();
    fs.record("a/b/c.json".to_string(), b"{}".to_vec(), 1, 2, 3);
    assert_eq!(fs.count(), 1);
    assert_eq!(fs.size(), 2);
    let f: &FsFile = &fs.entries()[0];
    assert_eq!(f.depth, 3);
    assert_eq!(f.path.to_str(), "a/b/c.json");
}

#[test]
fn bytes_map_reads_back_what_was_written() {
    let mut m = BytesMap::new();
    assert_eq!(m.len(), 0);
    m.insert("embed://a".to_string(), vec![1, 2]);
    m.insert("embed://b".to_string(), vec![3]);
    assert_eq!(m.get("embed://a"), Some(&vec![1, 2]));
    m.insert("embed://a".to_string(), vec![9]);
    assert_eq!(m.get("embed://a"), Some(&vec![9]));
    assert_eq!(m.get("embed://b"), Some(&vec![3]));
    assert_eq!(m.get("embed://c"), None);
    assert_eq!(m.len(), 2);
}
