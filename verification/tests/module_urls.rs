use deno_ast::MediaType;
use plugins_rs::errors::PluginError;
use plugins_rs::find::{mediatype, url_create, url_info};
use plugins_rs::maps::BytesMap;
use plugins_rs::modules::module::{extract_plugin_name, resolve_target, try_resolve_target};
use plugins_rs::modules::utils::{transpile, FileInfo, MediaInfo};
use plugins_rs::script::ModuleKind;

#[test]
fn module_url_of_an_entry_in_a_folder() {
    let u = FileInfo::url_create("embed", 0, "", "plugins/demo/", "entry.ts");
    assert_eq!(u.scheme, "embed+0");
    assert_eq!(u.username, "entry.ts");
    assert_eq!(u.path, "/plugins/demo/");
    let info = FileInfo::from_url(&u).unwrap();
    assert_eq!(info.scheme, "embed");
    assert_eq!(info.source, 0);
    assert_eq!(info.plugin, "");
    assert_eq!(info.entry, "plugins/demo/");
    assert_eq!(info.search, "entry.ts");
}

#[test]
fn module_url_of_a_plugin_entry_reads_back() {
    let u = FileInfo::url_create("static", 12, "demo", "javascript/plugins/demo/", "index.ts");
    assert_eq!(u.password, Some("demo".to_string()));
    let info = FileInfo::from_url(&u).unwrap();
    assert_eq!(
        (info.scheme.as_str(), info.source, info.plugin.as_str(), info.entry.as_str(), info.search.as_str()),
        ("static", 12, "demo", "javascript/plugins/demo/", "index.ts")
    );
    assert_eq!(info.info().search, "index.ts");
}

#[test]
fn module_url_of_an_archive_reads_back() {
    let u = FileInfo::url_create("static-archive", 3, "", "plugins/demo.zip", "index.js");
    let info = FileInfo::from_url(&u).unwrap();
    assert_eq!(info.scheme, "static-archive");
    assert_eq!(info.source, 3);
    assert_eq!(info.entry, "plugins/demo.zip");
    assert_eq!(info.search, "index.js");
}

#[test]
fn module_url_with_a_script_path_is_split() {
    let u = FileInfo::url_create("static", 1, "", "a/b/index.ts", "ignored");
    let info = FileInfo::from_url(&u).unwrap();
    assert_eq!(info.entry, "a/b/");
    assert_eq!(info.search, "index.ts");
}

#[test]
fn module_url_folder_gains_a_trailing_slash() {
    let u = FileInfo::url_create("embed", 2, "", "plugins/demo", "entry.ts");
    let info = FileInfo::from_url(&u).unwrap();
    assert_eq!(info.entry, "plugins/demo/");
}

#[test]
fn try_url_create_refuses_what_the_parser_refuses() {
    assert!(FileInfo::try_url_create("embed", 0, "", "a/", "entry.ts").is_some());
    assert!(FileInfo::try_url_create("1bad", 0, "", "a/", "entry.ts").is_none());
}

#[test]
fn file_info_create_writes_the_source_as_password() {
    let info = FileInfo {
        scheme: "static".to_string(),
        entry: "plugins/demo/".to_string(),
        search: "index.ts".to_string(),
        source: 4,
        plugin: "demo".to_string(),
    };
    let u = info.create();
    assert_eq!(u.scheme, "static");
    assert_eq!(u.username, "index.ts");
    assert_eq!(u.password, Some("4".to_string()));
    assert_eq!(u.path, "/plugins/demo/");
    assert!(info.try_create().is_some());
}

#[test]
fn url_info_reads_back_url_create() {
    let u = url_create("static", "com.test.plugin", "index.ts", 3, "plugins/demo/index.ts").unwrap();
    assert!(u.href.contains("@plugin.test.com/"));
    let info = url_info(&u).unwrap();
    assert_eq!(info.scheme, "static");
    assert_eq!(info.entry, "plugins/demo/index.ts");
    assert_eq!(info.search, "index.ts");
    assert_eq!(info.source, 3);
}

#[test]
fn url_create_reports_a_refused_url() {
    assert!(matches!(url_create("2static", "com.a", "x.ts", 0, "y"), Err(PluginError::UrlParse)));
}

#[test]
fn plugin_names_of_imports() {
    assert_eq!(extract_plugin_name("@demo/lib/util.ts"), Some(("demo".to_string(), "lib/util.ts")));
    assert_eq!(extract_plugin_name("@a@b/c"), Some(("ab".to_string(), "c")));
    assert_eq!(extract_plugin_name("@/x"), Some(("".to_string(), "x")));
    assert_eq!(extract_plugin_name("demo/lib.ts"), None);
    assert_eq!(extract_plugin_name("@noslash"), None);
    assert_eq!(extract_plugin_name("/x"), None);
}

#[test]
fn plugin_name_round_trip() {
    for (name, path) in [("demo", "index.ts"), ("x", "a/b/c.js"), ("long-name", "")] {
        let import = format!("@{}/{}", name, path);
        assert_eq!(extract_plugin_name(&import), Some((name.to_string(), path)));
    }
}

#[test]
fn imports_of_plugins_resolve_under_the_plugin_host() {
    let (spec, refer) = resolve_target("@demo/lib/util.ts", "embed+0://entry.ts@assets.serve/plugins/demo/");
    assert_eq!(spec, "lib/util.ts");
    assert_eq!(refer, "embed+0://entry.ts@plugin_name.demo/plugins/demo/");
    let (spec, refer) = resolve_target("./util.ts", "embed+0://x@assets.serve/a/");
    assert_eq!(spec, "./util.ts");
    assert_eq!(refer, "embed+0://x@assets.serve/a/");
    assert_eq!(try_resolve_target("@demo/x.ts", "not a url"), None);
    assert_eq!(try_resolve_target("./x.ts", "not a url"), Some(("./x.ts".to_string(), "not a url".to_string())));
}

#[test]
fn media_types_of_module_paths() {
    assert_eq!(mediatype("a/index.ts").unwrap(), (MediaType::TypeScript, ModuleKind::JavaScript, true));
    assert_eq!(mediatype("a/index.js").unwrap(), (MediaType::JavaScript, ModuleKind::JavaScript, false));
    assert_eq!(mediatype("a/index.mjs").unwrap(), (MediaType::Mjs, ModuleKind::JavaScript, false));
    assert_eq!(mediatype("a/index.cjs").unwrap(), (MediaType::Cjs, ModuleKind::JavaScript, false));
    assert_eq!(mediatype("a/view.jsx").unwrap(), (MediaType::Jsx, ModuleKind::JavaScript, true));
    assert_eq!(mediatype("a/view.tsx").unwrap(), (MediaType::Tsx, ModuleKind::JavaScript, true));
    assert_eq!(mediatype("a/data.json").unwrap(), (MediaType::Json, ModuleKind::Json, false));
    assert!(matches!(mediatype("a/readme.md"), Err(PluginError::Unknown(_))));
    let info = MediaInfo::from_path("plugins/demo/index.ts").unwrap();
    assert_eq!(info.media_type, MediaType::TypeScript);
    assert_eq!(info.module_type, ModuleKind::JavaScript);
    assert!(info.transpile);
    assert!(matches!(MediaInfo::from_path("plugins/demo/style.css"), Err(PluginError::Unknown(_))));
}

#[test]
fn transpile_strips_types_and_keeps_the_source_map() {
    let u = FileInfo::url_create("embed", 0, "", "plugins/demo/", "entry.ts");
    let mut maps = BytesMap::new();
    let out = transpile("const a: number = 1;\nexport default a;\n".to_string(), &mut maps, &u, MediaType::TypeScript, true).unwrap();
    assert!(out.contains("const a = 1"));
    assert!(!out.contains(": number"));
    assert_eq!(maps.len(), 1);
    let map = maps.get(&u.href).unwrap();
    assert!(String::from_utf8(map.clone()).unwrap().contains("\"mappings\""));
}

#[test]
fn transpile_passes_plain_scripts_through() {
    let u = FileInfo::url_create("embed", 0, "", "plugins/demo/", "entry.js");
    let mut maps = BytesMap::new();
    let code = "const a: number = 1;".to_string();
    assert_eq!(transpile(code.clone(), &mut maps, &u, MediaType::JavaScript, false).unwrap(), code);
    assert_eq!(maps.len(), 0);
}

#[test]
fn transpile_reports_source_it_cannot_parse() {
    let u = FileInfo::url_create("embed", 0, "", "plugins/demo/", "entry.ts");
    let mut maps = BytesMap::new();
    let r = transpile("const = ;".to_string(), &mut maps, &u, MediaType::TypeScript, true);
    assert!(matches!(r, Err(PluginError::Transpile(_))));
    assert_eq!(maps.len(), 0);
}
