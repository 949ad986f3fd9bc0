use std::io::Write;

use plugins_rs::efs::{EFsData, EFsPath, FsFile, PluginsFs};
use plugins_rs::errors::PluginError;
use plugins_rs::modules::module::ModuleLoader;
use plugins_rs::modules::source::{ReadMode, Source, SourceLoader};
use plugins_rs::modules::types::{Plugin, SourceEntry, SourceItem};
use plugins_rs::modules::utils::FileInfo;
use plugins_rs::script::ModuleKind;

/// What a read hands on, where it reads to the end.
fn whole(read: impl FnOnce(&mut Vec<SourceItem>) -> Result<(), PluginError>) -> Result<Vec<SourceItem>, PluginError> {
    let mut out = Vec::new();
    read(&mut out).map(|_| out)
}

fn zip_members(members: &[(&str, &[u8])]) -> Vec<u8> {
    let mut w = zip::ZipWriter::new(std::io::Cursor::new(Vec::new()));
    for (name, data) in members {
        w.start_file(*name, zip::write::SimpleFileOptions::default()).unwrap();
        w.write_all(data).unwrap();
    }
    w.finish().unwrap().into_inner()
}

fn file(path: &str, data: &[u8]) -> FsFile {
    FsFile {
        path: EFsPath::Local(path.to_string()),
        content: EFsData::Local(data.to_vec()),
        size: data.len() as u64,
        created: 0,
        accessed: 0,
        modified: 0,
        depth: 1,
    }
}

fn tree(files: Vec<FsFile>) -> PluginsFs {
    let total = files.iter().map(|f| f.size).sum();
    PluginsFs { total, files }
}

fn embedded() -> PluginsFs {
    tree(vec![
        file("embed/entry.ts", b"const e: string = 'e';"),
        file("embed/lib/util.js", b"export const u = 1;"),
        file(
            "embed/pack.zip",
            &zip_members(&[("inner/entry.ts", b"export {};"), ("inner/notes.txt", b"skip"), ("inner/data.json", b"{}")]),
        ),
        file("embed/data.json", b"{\"k\":1}"),
    ])
}

fn on_disk() -> PluginsFs {
    tree(vec![
        file("root/demo/plugin.json", b"{\"name\":\"demo\"}"),
        file("root/demo/index.ts", b"let n: number = 2;"),
    ])
}

fn manifest(name: &str, entry: &str) -> Plugin {
    Plugin {
        name: name.to_string(),
        description: "Test Plugin".to_string(),
        identifier: "com.test.plugin".to_string(),
        version: "1.0.0".to_string(),
        entry: entry.to_string(),
        url: None,
        source: None,
        base: None,
    }
}

fn info(scheme: &str, entry: &str, search: &str) -> FileInfo {
    FileInfo { scheme: scheme.to_string(), entry: entry.to_string(), search: search.to_string(), source: 0, plugin: String::new() }
}

fn short(i: &SourceItem) -> (&str, &str, &str, Option<&str>) {
    (i.scheme.as_str(), i.entry.as_str(), i.search.as_str(), i.archive.as_deref())
}

#[test]
fn embedded_source_reads_by_mode() {
    let src = Source::from_embed(embedded());
    let all = whole(|o| src.read_embed_all(0, o)).unwrap();
    let got: Vec<_> = all.iter().map(short).collect();
    assert_eq!(
        got,
        vec![
            ("embed", "embed/", "entry.ts", None),
            ("embed", "embed/lib/", "util.js", None),
            ("embed-archive", "embed/pack.zip", "inner/entry.ts", Some("embed/pack.zip")),
            ("embed-archive", "embed/pack.zip", "inner/data.json", Some("embed/pack.zip")),
            ("embed", "embed/", "data.json", None),
        ]
    );
    assert_eq!(all[2].content, Some(b"export {};".to_vec()));
    assert_eq!(whole(|o| src.read_embed_files(0, o)).unwrap().len(), 3);
    assert_eq!(whole(|o| src.read_embed_archives(5, o)).unwrap().iter().map(|i| i.source).collect::<Vec<_>>(), vec![5, 5]);
    assert!(whole(|o| src.read_all(0, &on_disk(), o)).unwrap().is_empty());
}

#[test]
fn source_on_disk_reads_its_walk() {
    let src = Source::from_static("root".to_string());
    let walked = on_disk();
    let files = whole(|o| src.read_files(2, &walked, o)).unwrap();
    let got: Vec<_> = files.iter().map(short).collect();
    assert_eq!(got, vec![("static", "root/demo/", "plugin.json", None), ("static", "root/demo/", "index.ts", None)]);
    assert_eq!(files[1].source, 2);
    assert!(whole(|o| src.read_archives(2, &walked, o)).unwrap().is_empty());
    assert!(whole(|o| src.read_embed_all(0, o)).unwrap().is_empty());
    let mut one = Vec::new();
    src.get_files(1, "static", &walked.files[0], &mut one).unwrap();
    assert_eq!(one.len(), 1);
    let mut none = Vec::new();
    src.get_archive_files(1, "static", &walked.files[0], &mut none).unwrap();
    assert!(none.is_empty());
    src.get_all_files(1, "static", &walked.files[1], &mut one).unwrap();
    assert_eq!(one.len(), 2);
    assert_eq!(one[1].search, "index.ts");
    assert_eq!(whole(|o| src.read_mode(false, &walked.files, ReadMode::All, 0, o)).unwrap().len(), 2);
}

#[test]
fn broken_embedded_archive_fails_the_read() {
    let src = Source::from_embed(tree(vec![file("embed/pack.zip", b"broken")]));
    assert!(matches!(whole(|o| src.read_embed_all(0, o)), Err(PluginError::Archive(_))));
    assert!(whole(|o| src.read_embed_files(0, o)).unwrap().is_empty());
}

fn loader() -> SourceLoader {
    let mut l = SourceLoader::new();
    l.add_embed(Source::from_embed(embedded()));
    l.add(Source::from_static("root".to_string()));
    l
}

#[test]
fn preload_records_the_entry_modules() {
    let mut l = loader();
    l.preload().unwrap();
    let got: Vec<(&str, &str, &str)> =
        l.loaded.embedded.iter().map(|e| (e.scheme.as_str(), e.entry.as_str(), e.search.as_str())).collect();
    assert_eq!(got, vec![("embed", "embed/", "entry.ts"), ("embed-archive", "embed/pack.zip", "inner/entry.ts")]);
    let url = l.loaded.embedded[0].url.as_ref().unwrap();
    assert_eq!(url.scheme, "embed+0");
    assert_eq!(url.username, "entry.ts");
    assert_eq!(url.path, "/embed/");
    let back = FileInfo::from_url(url).unwrap();
    assert_eq!((back.entry.as_str(), back.search.as_str()), ("embed/", "entry.ts"));
}

#[test]
fn plugins_take_their_url_source_and_base() {
    let mut l = loader();
    let walked = vec![on_disk()];
    let found = whole(|o| l.plugin_items(&walked, o)).unwrap();
    assert_eq!(found.len(), 1);
    assert_eq!(found[0].search, "plugin.json");
    l.plugins(found, vec![manifest("demo", "index.ts")]);
    let p = &l.loaded.plugins[0];
    assert_eq!(p.source, Some(0));
    assert_eq!(p.base.as_deref(), Some("root/demo/"));
    let url = p.url.as_ref().unwrap();
    assert_eq!(url.scheme, "static+0");
    assert_eq!(url.password.as_deref(), Some("demo"));
    let back = FileInfo::from_url(url).unwrap();
    assert_eq!((back.scheme.as_str(), back.entry.as_str(), back.search.as_str(), back.plugin.as_str()), ("static", "root/demo/", "index.ts", "demo"));
}

#[test]
fn urls_to_evaluate_come_embedded_first() {
    let mut l = loader();
    l.preload().unwrap();
    let found = whole(|o| l.plugin_items(&vec![on_disk()], o)).unwrap();
    l.plugins(found, vec![manifest("demo", "index.ts")]);
    let urls = l.loaded_urls();
    assert_eq!(urls.len(), 3);
    assert_eq!(urls[0], l.loaded.embedded[0].url.as_ref().unwrap().href);
    assert_eq!(urls[2], l.loaded.plugins[0].url.as_ref().unwrap().href);
}

#[test]
fn lookups_find_files_by_folder_and_name() {
    let l = loader();
    let walked = vec![on_disk()];
    assert_eq!(l.elookup(info("embed", "embed/lib/", "util.js")).unwrap(), b"export const u = 1;".to_vec());
    assert_eq!(l.lookup(info("static", "root/demo/", "index.ts"), &walked).unwrap(), b"let n: number = 2;".to_vec());
    assert_eq!(l.ealookup(info("embed-archive", "embed/pack.zip", "inner/data.json")).unwrap(), b"{}".to_vec());
    assert!(l.alookup(info("static-archive", "root/demo.zip", "index.js"), &walked).is_err());
    assert!(matches!(
        l.elookup(info("embed", "embed/", "missing.ts")),
        Err(PluginError::Unknown(msg)) if msg == "data is empty so maybe no file found."
    ));
    assert!(matches!(l.ealookup(info("embed-archive", "embed/", "entry.ts")), Err(PluginError::Unknown(_))));
}

#[test]
fn module_loader_loads_from_the_scheme_sources() {
    let mut m = ModuleLoader::new(loader());
    let walked = vec![on_disk()];
    let u = FileInfo::url_create("static", 0, "demo", "root/demo/", "index.ts");
    let (kind, code) = m.load(&u, &walked).unwrap().unwrap();
    assert_eq!(kind, ModuleKind::JavaScript);
    assert!(code.contains("let n = 2"));
    assert!(m.get_source_map(&u.href).is_some());
    let j = FileInfo::url_create("embed", 0, "", "embed/", "data.json");
    assert_eq!(m.load(&j, &Vec::new()).unwrap(), Some((ModuleKind::Json, "{\"k\":1}".to_string())));
    assert!(m.get_source_map(&j.href).is_none());
    let missing = FileInfo::url_create("embed", 0, "", "embed/", "nothing.js");
    assert!(matches!(m.load(&missing, &Vec::new()), Err(PluginError::Unknown(msg)) if msg == "data is empty so maybe no file found."));
    let css = FileInfo::url_create("embed", 0, "", "embed/", "style.css");
    assert!(matches!(m.load(&css, &Vec::new()), Err(PluginError::Unknown(_))));
}

#[test]
fn module_loader_asks_for_one_directory_at_a_time() {
    let mut l = SourceLoader::new();
    l.add(Source::from_static("root".to_string()));
    l.add(Source::from_static("gone".to_string()));
    let mut m = ModuleLoader::new(l);
    let u = FileInfo::url_create("static", 0, "demo", "root/demo/", "index.ts");
    assert_eq!(m.load(&u, &Vec::new()).unwrap(), None);
    assert!(m.get_source_map(&u.href).is_none());
    let (kind, code) = m.load(&u, &vec![on_disk()]).unwrap().unwrap();
    assert_eq!(kind, ModuleKind::JavaScript);
    assert!(code.contains("let n = 2"));
    let later = FileInfo::url_create("static", 1, "demo", "gone/", "late.js");
    assert_eq!(m.load(&later, &vec![on_disk()]).unwrap(), None);
    let second = tree(vec![file("gone/late.js", b"export const l = 3;")]);
    assert_eq!(
        m.load(&later, &vec![on_disk(), second.clone()]).unwrap(),
        Some((ModuleKind::JavaScript, "export const l = 3;".to_string()))
    );
    let nowhere = FileInfo::url_create("static", 0, "demo", "root/demo/", "nowhere.js");
    assert!(matches!(
        m.load(&nowhere, &vec![on_disk(), second]),
        Err(PluginError::Unknown(msg)) if msg == "data is empty so maybe no file found."
    ));
}

#[test]
fn module_text_that_is_not_utf8_is_read_lossily() {
    let mut l = SourceLoader::new();
    l.add_embed(Source::from_embed(tree(vec![file("e/x.js", &[b'a', 0xff, b'b'])])));
    let mut m = ModuleLoader::new(l);
    let u = FileInfo::url_create("embed", 0, "", "e/", "x.js");
    assert_eq!(m.load(&u, &Vec::new()).unwrap().unwrap().1, "a\u{fffd}b");
}

#[test]
fn sources_keep_what_they_were_made_from() {
    let s = Source::from_static("root".to_string());
    let e = Source::from_embed(PluginsFs::default());
    let _ = (s, e);
    let entry = SourceEntry::Static("x".to_string());
    assert!(matches!(entry, SourceEntry::Static(p) if p == "x"));
}

#[test]
fn preload_check_refuses_an_entry_whose_url_does_not_parse() {
    let mut l = SourceLoader::new();
    l.add_embed(Source::from_embed(tree(vec![file("embed/pack.zip", &zip_members(&[("a:b/entry.ts", b"1")]))])));
    assert!(!l.preload_check());
    assert!(l.try_preload().is_none());
    assert!(l.loaded.embedded.is_empty());
    let mut ok = loader();
    assert!(ok.preload_check());
    assert!(matches!(ok.try_preload(), Some(Ok(()))));
    assert_eq!(ok.loaded.embedded.len(), 2);
}

#[test]
fn try_plugins_refuses_a_name_that_breaks_the_url() {
    let mut l = loader();
    let found = whole(|o| l.plugin_items(&vec![on_disk()], o)).unwrap();
    assert!(!l.try_plugins(found, vec![manifest("de/mo", "index.ts")]));
    assert!(l.loaded.plugins.is_empty());
    let found = whole(|o| l.plugin_items(&vec![on_disk()], o)).unwrap();
    assert!(l.try_plugins(found, vec![manifest("demo", "index.ts")]));
    assert_eq!(l.loaded.plugins.len(), 1);
}

#[test]
fn preloaded_entry_is_found_by_elookup() {
    let mut l = loader();
    l.preload().unwrap();
    let e = &l.loaded.embedded[0];
    let back = FileInfo::from_url(e.url.as_ref().unwrap()).unwrap();
    let data = l.elookup(FileInfo { scheme: back.scheme, entry: back.entry, search: back.search, source: back.source, plugin: back.plugin }).unwrap();
    assert_eq!(data, b"const e: string = 'e';".to_vec());
}

#[test]
fn a_module_url_points_to_one_place() {
    let u = FileInfo::url_create("static", 7, "demo", "root/demo/", "index.ts");
    let a = FileInfo::from_url(&u).unwrap();
    let b = FileInfo::from_url(&u).unwrap();
    assert_eq!((a.scheme, a.entry, a.search, a.source, a.plugin), (b.scheme, b.entry, b.search, b.source, b.plugin));
}

#[test]
fn the_file_lister_hands_on_the_members_before_a_broken_one() {
    let src = Source::from_embed(PluginsFs::default());
    let pack = file(
        "embed/pack.zip",
        &zip_members(&[("inner/a.js", b"1"), ("inner/", b""), ("inner/b.js", b"2")]),
    );
    let mut out = Vec::new();
    assert!(matches!(src.get_all_files(4, "embed", &pack, &mut out), Err(PluginError::Archive(_))));
    let got: Vec<_> = out.iter().map(short).collect();
    assert_eq!(got, vec![("embed-archive", "embed/pack.zip", "inner/a.js", Some("embed/pack.zip"))]);
    assert_eq!(out[0].content, Some(b"1".to_vec()));
    assert_eq!(out[0].source, 4);
    let mut scripts = Vec::new();
    assert!(src.get_files(4, "embed", &pack, &mut scripts).is_ok());
    assert!(scripts.is_empty());
}

#[test]
fn preload_keeps_the_entries_before_a_broken_archive() {
    let mut l = SourceLoader::new();
    l.add_embed(Source::from_embed(tree(vec![
        file("embed/entry.ts", b"export {};"),
        file("embed/pack.zip", &zip_members(&[("inner/entry.ts", b"1"), ("inner/", b""), ("other/entry.ts", b"2")])),
    ])));
    l.add_embed(Source::from_embed(tree(vec![file("second/entry.ts", b"export {};")])));
    assert!(matches!(l.preload(), Err(PluginError::Archive(_))));
    let got: Vec<(usize, &str, &str)> =
        l.loaded.embedded.iter().map(|e| (e.source, e.entry.as_str(), e.search.as_str())).collect();
    assert_eq!(got, vec![(0, "embed/", "entry.ts"), (0, "embed/pack.zip", "inner/entry.ts")]);
}

#[test]
fn manifests_are_handed_on_up_to_a_broken_archive() {
    let mut l = SourceLoader::new();
    l.add(Source::from_static("root".to_string()));
    l.add(Source::from_static("gone".to_string()));
    let broken = tree(vec![
        file("root/demo/plugin.json", b"{}"),
        file("root/pack.zip", &zip_members(&[("p/plugin.json", b"{}"), ("p/", b""), ("q/plugin.json", b"{}")])),
    ]);
    let mut found = Vec::new();
    assert!(l.plugin_items(&vec![broken.clone(), on_disk()], &mut found).is_err());
    let got: Vec<_> = found.iter().map(short).collect();
    assert_eq!(
        got,
        vec![("static", "root/demo/", "plugin.json", None), ("static-archive", "root/pack.zip", "p/plugin.json", Some("root/pack.zip"))]
    );
    let mut one = Vec::new();
    assert!(l.plugin_items_of(1, &on_disk(), &mut one).is_ok());
    assert_eq!(one.len(), 1);
}
