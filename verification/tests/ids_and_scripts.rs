use plugins_rs::extensions::{nid, nid_custom, nid_safe, random, uid};
use plugins_rs::modules::source::Source;
use plugins_rs::PluginSystem;

fn safe(c: char) -> bool {
    c == '_' || c == '-' || c.is_ascii_alphanumeric()
}

#[test]
fn random_gives_zero_bytes() {
    assert_eq!(random(0), Vec::<u8>::new());
    assert_eq!(random(4), vec![0, 0, 0, 0]);
}

#[test]
fn nid_has_the_size_asked_for() {
    for size in [1usize, 5, 21, 64] {
        let id = nid(size).data;
        assert_eq!(id.chars().count(), size);
        assert!(id.chars().all(safe));
    }
}

#[test]
fn nid_custom_draws_from_the_alphabet() {
    let id = nid_custom(30, "ab").data;
    assert_eq!(id.chars().count(), 30);
    assert!(id.chars().all(|c| c == 'a' || c == 'b'));
    let one = nid_custom(3, "z").data;
    assert_eq!(one, "zzz");
}

#[test]
fn nid_safe_with_zero_bytes() {
    assert_eq!(nid_safe(1).data, "_");
    assert_eq!(nid_safe(5).data, "_____");
}

#[test]
fn uid_is_a_version_four_uuid() {
    let u = uid().data;
    let c: Vec<char> = u.chars().collect();
    assert_eq!(c.len(), 36);
    for i in [8, 13, 18, 23] {
        assert_eq!(c[i], '-');
    }
    assert_eq!(c[14], '4');
    assert!(matches!(c[19], '8' | '9' | 'a' | 'b'));
    assert!(c.iter().enumerate().all(|(i, ch)| [8, 13, 18, 23].contains(&i) || ch.is_ascii_hexdigit() && !ch.is_ascii_uppercase()));
    assert_ne!(uid().data, u);
}

#[test]
fn script_that_reads_a_plugin_key() {
    assert_eq!(
        PluginSystem::execute_script("base", "exec()"),
        "globalThis.Plugins.loadPlugin(\"base\").exec()"
    );
    assert_eq!(
        PluginSystem::execute_script("base", "demo.title"),
        "globalThis.Plugins.loadPlugin(\"base\").demo.title"
    );
}

#[test]
fn builder_collects_sources() {
    let system = PluginSystem::builder()
        .add_source(Source::from_static("javascript/plugins".to_string()))
        .add_embed(Source::from_embed(plugins_rs::efs::PluginsFs::default()))
        .add_source(Source::from_static("more".to_string()));
    assert_eq!(system.sources.holder.sources.len(), 2);
    assert_eq!(system.sources.holder.embedded.len(), 1);
    assert_eq!(system.sources.entry, "entry.ts");
    assert_eq!(system.sources.plugin, "plugin.json");
    assert!(system.sources.loaded.plugins.is_empty());
}
