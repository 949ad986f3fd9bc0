use std::io::Write;

use plugins_rs::errors::PluginError;
use plugins_rs::find::url_create;
use plugins_rs::loader::Loader;
use plugins_rs::reader::Reader;
use plugins_rs::script::ModuleKind;
use plugins_rs::sources::{DirItem, Source, SourceRes, Sources, TopItem};

type Found = Vec<SourceRes>;

/// What a read hands on, where it reads to the end.
fn whole(read: impl FnOnce(&mut Found) -> Result<(), PluginError>) -> Result<Found, PluginError> {
    let mut out = Vec::new();
    read(&mut out).map(|_| out)
}

fn zipped(members: &[(&str, &[u8])]) -> Vec<u8> {
    let mut w = zip::ZipWriter::new(std::io::Cursor::new(Vec::new()));
    for (name, data) in members {
        w.start_file(*name, zip::write::SimpleFileOptions::default()).unwrap();
        w.write_all(data).unwrap();
    }
    w.finish().unwrap().into_inner()
}

fn item(path: &str, is_dir: bool, contents: &[u8]) -> DirItem {
    DirItem { path: path.to_string(), is_dir, contents: contents.to_vec() }
}

fn top(path: &str, is_dir: bool, contents: &[u8], inner: Vec<DirItem>) -> TopItem {
    TopItem { path: path.to_string(), is_dir, contents: contents.to_vec(), inner }
}

fn embedded_tree() -> Vec<TopItem> {
    vec![
        top(
            "demo",
            true,
            b"",
            vec![
                item("demo/plugin.json", false, b"{\"name\":\"demo\"}"),
                item("demo/index.ts", false, b"const a: number = 1; export default a;"),
                item("demo/sub", true, b""),
                item("demo/README.md", false, b"# demo"),
            ],
        ),
        top("pack.zip", false, &zipped(&[("plugin.json", b"{\"name\":\"pack\"}"), ("index.js", b"export default 2;")]), vec![]),
        top("loose.js", false, b"1", vec![]),
    ]
}

fn disk_listing() -> Vec<TopItem> {
    vec![top(
        "root/demo",
        true,
        b"",
        vec![
            item("root/demo", true, b""),
            item("root/demo\\plugin.json", false, b"{\"name\":\"disk\"}"),
            item("root/demo\\lib", true, b""),
            item("root/demo\\lib\\util.js", false, b"export const u = 1;"),
        ],
    )]
}

fn view(r: &SourceRes) -> (&str, &str, bool, Option<&str>, &str, &str) {
    (r.entry.as_str(), r.search.as_str(), r.archive, r.archive_ext.as_deref(), r.ext.as_str(), r.scheme)
}

#[test]
fn embedded_tree_gives_folder_files_and_archive_members() {
    let src = Source::Embed(embedded_tree());
    let found = whole(|o| src.read_source(true, &Vec::new(), o)).unwrap();
    let views: Vec<_> = found.iter().map(view).collect();
    assert_eq!(
        views,
        vec![
            ("demo", "demo/plugin.json", false, None, ".json", "embed"),
            ("demo", "demo/index.ts", false, None, ".ts", "embed"),
            ("pack.zip", "plugin.json", true, Some(".zip"), ".json", "embed"),
            ("pack.zip", "index.js", true, Some(".zip"), ".js", "embed"),
        ]
    );
    assert_eq!(found[0].data, Some(b"{\"name\":\"demo\"}".to_vec()));
    assert_eq!(found[3].data, Some(b"export default 2;".to_vec()));
    let listed = whole(|o| src.read_source(false, &Vec::new(), o)).unwrap();
    assert_eq!(listed.len(), 4);
    assert!(listed.iter().all(|r| r.data.is_none()));
    assert_eq!(src.scheme(), "embed");
}

#[test]
fn directory_on_disk_is_searched_without_its_folder() {
    let src = Source::Static("root".to_string());
    assert_eq!(src.scheme(), "static");
    let found = whole(|o| src.read_source(true, &disk_listing(), o)).unwrap();
    let views: Vec<_> = found.iter().map(view).collect();
    assert_eq!(
        views,
        vec![
            ("root/demo", "plugin.json", false, None, ".json", "static"),
            ("root/demo", "lib\\util.js", false, None, ".js", "static"),
        ]
    );
}

#[test]
fn unreadable_directories_are_reported() {
    let linux_style = vec![top("root/demo", true, b"", vec![item("root/demo/index.ts", false, b"x")])];
    let src = Source::Static("root".to_string());
    assert!(!src.is_readable(true, &linux_style));
    assert!(src.try_read_source(true, &linux_style, &mut Vec::new()).is_none());
    assert!(src.is_readable(true, &disk_listing()));
    let bad_zip = vec![top("pack.zip", false, &zipped(&[("notes.txt", b"n")]), vec![])];
    let emb = Source::Embed(bad_zip);
    assert!(!emb.is_readable(true, &Vec::new()));
    assert!(emb.try_read_source(false, &Vec::new(), &mut Vec::new()).is_none());
    let file_as_folder = Source::Embed(vec![top("README", false, b"x", vec![])]);
    assert!(!file_as_folder.is_readable(false, &Vec::new()));
    let ok = Source::Embed(embedded_tree());
    assert!(ok.is_readable(true, &Vec::new()));
    let mut got = Vec::new();
    assert!(ok.try_read_source(true, &Vec::new(), &mut got).unwrap().is_ok());
    assert_eq!(got.len(), 4);
}

#[test]
fn broken_archive_fails_the_read() {
    let src = Source::Embed(vec![top("pack.zip", false, b"not a zip", vec![])]);
    assert!(src.is_readable(true, &Vec::new()));
    assert!(src.read_source(true, &Vec::new(), &mut Vec::new()).is_err());
}

#[test]
fn find_matches_file_names() {
    let src = Source::Embed(embedded_tree());
    assert_eq!(src.find("demo", "index.ts", &Vec::new()).unwrap(), b"const a: number = 1; export default a;".to_vec());
    assert_eq!(src.find("x/demo", "y/index.ts", &Vec::new()).unwrap(), b"const a: number = 1; export default a;".to_vec());
    assert_eq!(src.find("pack.zip", "index.js", &Vec::new()).unwrap(), b"export default 2;".to_vec());
    assert_eq!(src.find("demo", "missing.ts", &Vec::new()).unwrap(), Vec::<u8>::new());
    assert_eq!(src.find("/", "index.ts", &Vec::new()).unwrap(), Vec::<u8>::new());
}

#[test]
fn exsits_agrees_with_find() {
    let src = Source::Embed(embedded_tree());
    assert!(src.exsits("pack.zip", "plugin.json", &Vec::new()).unwrap());
    assert!(src.exsits("demo", "plugin.json", &Vec::new()).unwrap());
    assert!(!src.exsits("demo", "missing.ts", &Vec::new()).unwrap());
    assert!(!src.exsits("other", "index.ts", &Vec::new()).unwrap());
}

#[test]
fn sources_find_in_the_directory_asked_for() {
    let mut sources = Sources::new();
    sources.set(Source::Embed(embedded_tree()));
    sources.set(Source::Static("root".to_string()));
    assert_eq!(sources.0.len(), 2);
    assert_eq!(sources.find(1, "root/demo", "lib\\util.js", &disk_listing()).unwrap(), b"export const u = 1;".to_vec());
    assert_eq!(sources.find(0, "demo", "plugin.json", &Vec::new()).unwrap(), b"{\"name\":\"demo\"}".to_vec());
}

#[test]
fn reader_loads_the_manifests() {
    let mut reader = Reader::new();
    reader.sources.set(Source::Embed(embedded_tree()));
    reader.sources.set(Source::Static("root".to_string()));
    let disks = vec![Vec::new(), disk_listing()];
    let mut manifests = Vec::new();
    reader.load_plugins(&disks, &mut manifests).unwrap();
    let got: Vec<(usize, &str, &str)> = manifests.iter().map(|(i, r)| (*i, r.entry.as_str(), r.search.as_str())).collect();
    assert_eq!(got, vec![(0, "demo", "demo/plugin.json"), (0, "pack.zip", "plugin.json"), (1, "root/demo", "plugin.json")]);
    assert_eq!(manifests[2].1.data, Some(b"{\"name\":\"disk\"}".to_vec()));
    let all = whole(|o| reader.load_base(&disks, o)).unwrap();
    assert_eq!(all.len(), 6);
    assert!(all.iter().all(|r| r.data.is_none()));
    assert_eq!(reader.find(0, "demo", "index.ts", &Vec::new()).unwrap().len(), 38);
}

#[test]
fn loader_loads_and_transpiles_modules() {
    let mut reader = Reader::new();
    reader.sources.set(Source::Embed(embedded_tree()));
    let mut loader = Loader::new(reader);
    let u = url_create("embed", "com.test.demo", "index.ts", 0, "demo").unwrap();
    let (kind, code) = loader.load(&u, &Vec::new()).unwrap();
    assert_eq!(kind, ModuleKind::JavaScript);
    assert!(code.contains("const a = 1"));
    assert!(!code.contains(": number"));
    assert!(loader.get_source_map(&u.href).is_some());
    let j = url_create("embed", "com.test.demo", "index.js", 0, "pack.zip").unwrap();
    let (kind, code) = loader.load(&j, &Vec::new()).unwrap();
    assert_eq!(kind, ModuleKind::JavaScript);
    assert_eq!(code, "export default 2;");
    assert!(loader.get_source_map(&j.href).is_none());
    let missing = url_create("embed", "com.test.demo", "missing.json", 0, "demo").unwrap();
    let (kind, code) = loader.load(&missing, &Vec::new()).unwrap();
    assert_eq!(kind, ModuleKind::Json);
    assert_eq!(code, "");
}

fn stopping_tree() -> Vec<TopItem> {
    vec![
        top("demo", true, b"", vec![item("demo/index.ts", false, b"x")]),
        top("broken.zip", false, &zipped(&[("a.js", b"1"), ("dir/", b""), ("b.js", b"2")]), vec![]),
        top("later.zip", false, &zipped(&[("notes.txt", b"n")]), vec![]),
    ]
}

#[test]
fn a_read_hands_on_what_comes_before_a_broken_archive() {
    let src = Source::Embed(stopping_tree());
    assert!(src.is_readable(true, &Vec::new()));
    let mut out = Vec::new();
    assert!(src.read_source(true, &Vec::new(), &mut out).is_err());
    let views: Vec<_> = out.iter().map(view).collect();
    assert_eq!(
        views,
        vec![("demo", "demo/index.ts", false, None, ".ts", "embed"), ("broken.zip", "a.js", true, Some(".zip"), ".js", "embed")]
    );
    assert_eq!(out[1].data, Some(b"1".to_vec()));
}

#[test]
fn a_reader_stops_at_the_first_directory_whose_read_stops() {
    let mut reader = Reader::new();
    reader.sources.set(Source::Embed(stopping_tree()));
    reader.sources.set(Source::Embed(vec![top("x.zip", false, &zipped(&[("notes.txt", b"n")]), vec![])]));
    let disks = vec![Vec::new(), Vec::new()];
    let mut files = Vec::new();
    assert!(reader.load_base(&disks, &mut files).is_err());
    let names: Vec<&str> = files.iter().map(|r| r.search.as_str()).collect();
    assert_eq!(names, vec!["demo/index.ts", "a.js"]);
    assert!(files.iter().all(|r| r.data.is_none()));
    let mut manifests = Vec::new();
    assert!(reader.load_plugins(&disks, &mut manifests).is_err());
    assert!(manifests.is_empty());
}
