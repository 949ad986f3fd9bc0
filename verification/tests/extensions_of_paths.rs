use plugins_rs::find::{
    exts_archives as scan_archives, exts_files as scan_files, get_ext, get_type, is_archive,
    is_file, is_supported, FindType,
};
use plugins_rs::modules::archives::ArchiveType;
use plugins_rs::modules::source::SourceType;
use plugins_rs::modules::utils::EntryType;
use plugins_rs::utils::{check_for_archive, check_for_file, exts_archives, exts_files, is_some};

#[test]
fn extension_lists() {
    assert_eq!(exts_files(), vec![".json", ".ts", ".tsx", ".js", ".mjs", ".cjs", ".jsx"]);
    assert_eq!(
        exts_archives(),
        vec![".7z", ".zip", ".tar", ".tar.gz", ".tgz", ".tar.xz", ".txz"]
    );
    assert_eq!(scan_files(), vec![".js", ".mjs", ".cjs", ".jsx", ".ts", ".tsx", ".json"]);
    assert_eq!(scan_archives(), vec![".7z", ".zip", ".tar", ".tar.gz", ".tar.xz"]);
}

#[test]
fn check_for_file_and_archive() {
    assert_eq!(check_for_file("a/index.ts".to_string()), (true, ".ts"));
    assert_eq!(check_for_file("a/readme.md".to_string()), (false, ""));
    assert_eq!(check_for_archive("a/demo.tar.gz".to_string()), (true, ".tar.gz"));
    assert_eq!(check_for_archive("a/demo.tgz".to_string()), (true, ".tgz"));
    assert_eq!(check_for_archive("a/index.ts".to_string()), (false, ""));
}

#[test]
fn is_some_looks_at_the_file_name() {
    assert!(is_some("plugins/demo/index.ts"));
    assert!(is_some("demo.zip"));
    assert!(!is_some("plugins/README.md"));
    assert!(!is_some("/"));
}

#[test]
fn scan_classification() {
    assert_eq!(get_type("plugins/demo"), Some(FindType::Folder));
    assert_eq!(get_type("x/index.ts"), Some(FindType::File(".ts".to_string())));
    assert_eq!(get_type("x/demo.zip"), Some(FindType::Archive(".zip".to_string())));
    assert_eq!(get_type("x/demo.tar.xz"), Some(FindType::Archive(".tar.xz".to_string())));
    assert_eq!(get_type("x/demo.tgz"), Some(FindType::Folder));
    assert_eq!(get_type("x/index.ts/"), None);
    assert_eq!(get_ext("demo.tar.gz"), Some(".tar.gz"));
    assert_eq!(get_ext("readme"), None);
    assert_eq!(is_file("a.jsx"), (true, ".jsx"));
    assert_eq!(is_archive("a.7z"), (true, ".7z"));
    assert!(is_supported("dir/a.json"));
    assert!(!is_supported("dir/a.md"));
}

#[test]
fn find_type_extension_and_mime() {
    assert_eq!(FindType::File(".ts".to_string()).ext(), Some(".ts".to_string()));
    assert_eq!(FindType::Folder.ext(), None);
    assert_eq!(FindType::Unknown.ext(), None);
    assert_eq!(FindType::File("js".to_string()).try_mime(), Some("application/javascript".to_string()));
    assert_eq!(FindType::Archive("zip".to_string()).try_mime(), Some("application/zip".to_string()));
    assert_eq!(FindType::File(".js".to_string()).try_mime(), None);
    assert_eq!(FindType::Folder.try_mime(), None);
    assert_eq!(FindType::File("json".to_string()).mime(), Some("application/json".to_string()));
}

#[test]
fn entry_type_classification() {
    assert_eq!(EntryType::from_path("plugins/demo"), EntryType::Folder);
    assert_eq!(EntryType::from_str("demo/plugin.json"), EntryType::File(".json".to_string()));
    assert_eq!(EntryType::from_str("demo.txz"), EntryType::Archive(".txz".to_string()));
    assert_eq!(EntryType::from_str("demo.ts/"), EntryType::Unknown);
    assert_eq!(EntryType::Archive(".zip".to_string()).ext(), Some(".zip".to_string()));
    assert_eq!(EntryType::Unknown.ext(), None);
}

#[test]
fn source_type_classification() {
    assert!(matches!(SourceType::get("a/index.ts", false), Some(SourceType::File(e)) if e == ".ts"));
    assert!(matches!(SourceType::get("a/demo.zip", false), Some(SourceType::Archive(ArchiveType::Zip))));
    assert!(matches!(SourceType::get("a/demo", true), Some(SourceType::Folder)));
    assert!(SourceType::get("a/readme.md", false).is_none());
    let a = SourceType::File(".ts".to_string());
    let b = SourceType::File(".ts".to_string());
    let c = SourceType::Archive(ArchiveType::Tgz);
    assert!(a.check(&b));
    assert!(b.check(&a));
    assert!(a.check(&a));
    assert!(!a.check(&c));
    assert!(SourceType::Folder.check(&SourceType::Folder));
}

#[test]
fn archive_type_extensions_round_trip() {
    let all = [
        ArchiveType::SevenZ,
        ArchiveType::Zip,
        ArchiveType::Tar,
        ArchiveType::TarGz,
        ArchiveType::Tgz,
        ArchiveType::TarXz,
        ArchiveType::Txz,
    ];
    for t in all {
        assert_eq!(ArchiveType::from_ext(t.ext()), Some(t));
    }
    assert_eq!(ArchiveType::from_ext(".rar"), None);
    assert_eq!(ArchiveType::from_path("dir/demo.zip"), Some(ArchiveType::Zip));
    assert_eq!(ArchiveType::from_path("dir/demo.tgz"), Some(ArchiveType::Tgz));
    assert_eq!(ArchiveType::from_path("dir/demo.tar.gz"), Some(ArchiveType::TarGz));
    assert_eq!(ArchiveType::from_path("plugins/p.tar.xz"), Some(ArchiveType::TarXz));
    assert_eq!(ArchiveType::from_path("plugins/p.txz"), Some(ArchiveType::Txz));
    assert_eq!(ArchiveType::from_path("plugins/p.gz"), None);
    assert_eq!(ArchiveType::from_path("plugins/p.ts"), None);
}

#[test]
fn archive_type_of_a_path_goes_by_its_file_name() {
    assert_eq!(ArchiveType::from_path("plugins/p.zip/"), Some(ArchiveType::Zip));
    assert_eq!(ArchiveType::from_path("plugins/p.zip/."), Some(ArchiveType::Zip));
    assert_eq!(ArchiveType::from_path("p.7z//"), Some(ArchiveType::SevenZ));
    assert_eq!(ArchiveType::from_path("plugins/p.tar.gz/"), Some(ArchiveType::TarGz));
    assert_eq!(ArchiveType::from_path("a.zip/p.ts"), None);
    assert_eq!(ArchiveType::from_path("a.tar/p.gz"), None);
}
