use flint::config::{Config, ConfigValue, FlintConfig};
use flint::logs::{LogKind, Logs};
use flint::plugin::Plugin;
use flint::registry::{list_plugins, PluginRegistry};

fn metadata_script(id: &str, extensions: &[&str]) -> String {
    let exts = extensions
        .iter()
        .map(|e| format!("\"{}\"", e))
        .collect::<Vec<String>>()
        .join(", ");
    format!(
        "function Details() return {{ id = \"{}\", extensions = {{ {} }}, version = \"0.1\", author = \"someone\", category = \"lint\" }} end",
        id, exts
    )
}

fn bundle(path: &str, source: String) -> (String, String) {
    (String::from(path), source)
}

fn discover(bundles: &Vec<(String, String)>) -> (Vec<Plugin>, Logs) {
    let mut logs = Logs::new();
    let plugins = list_plugins(bundles, &mut logs);
    (plugins, logs)
}

#[test]
fn discovery_parses_descriptor_fields() {
    let bundles = vec![bundle("plugins/lint/eslint", metadata_script("eslint", &["js", "ts"]))];
    let (plugins, logs) = discover(&bundles);
    assert_eq!(plugins.len(), 1);
    assert_eq!(logs.get_logs().len(), 0);
    let p = &plugins[0];
    assert_eq!(p.details.id, "eslint");
    assert_eq!(p.details.extensions, vec![String::from("js"), String::from("ts")]);
    assert_eq!(p.details.version, "0.1");
    assert_eq!(p.details.author, "someone");
    assert_eq!(p.details.category, "lint");
    assert_eq!(p.path, "plugins/lint/eslint");
}

#[test]
fn discovery_skips_malformed_bundle_and_logs_one_error() {
    // Three bundles on disk, one with a metadata script that fails to parse:
    // the plugin set has exactly two entries and one discovery-error entry is
    // recorded.
    let bundles = vec![
        bundle("plugins/lint/eslint", metadata_script("eslint", &["js"])),
        bundle("plugins/lint/broken", String::from("function Details( return")),
        bundle("plugins/lint/clippy", metadata_script("clippy", &["rs"])),
    ];
    let (plugins, logs) = discover(&bundles);
    assert_eq!(plugins.len(), 2);
    assert_eq!(plugins[0].details.id, "eslint");
    assert_eq!(plugins[1].details.id, "clippy");
    let entries = logs.get_logs();
    assert_eq!(entries.len(), 1);
    assert_eq!(entries[0].0, LogKind::Error);
    assert!(entries[0].1.contains("plugins/lint/broken"));
}

#[test]
fn discovery_skips_bundle_with_bad_descriptor_record() {
    let bundles = vec![
        bundle("plugins/lint/noid", String::from("function Details() return { id = 42 } end")),
        bundle("plugins/lint/nodetails", String::from("x = 1")),
        bundle("plugins/lint/ok", metadata_script("ok", &[])),
    ];
    let (plugins, logs) = discover(&bundles);
    assert_eq!(plugins.len(), 1);
    assert_eq!(plugins[0].details.id, "ok");
    assert_eq!(logs.get_logs().len(), 2);
}

#[test]
fn registry_drops_later_duplicate_ids() {
    let bundles = vec![
        bundle("a", metadata_script("eslint", &["js"])),
        bundle("b", metadata_script("eslint", &["ts"])),
        bundle("c", metadata_script("clippy", &["rs"])),
    ];
    let (plugins, _) = discover(&bundles);
    let mut registry = PluginRegistry::new();
    registry.get_plugin_map(plugins);
    let backing = registry.plugins();
    assert_eq!(backing.len(), 2);
    // the backing set ascends by id; the first-discovered eslint bundle won
    assert_eq!(backing[0].details.id, "clippy");
    assert_eq!(backing[1].details.id, "eslint");
    assert_eq!(backing[1].path, "a");
}

#[test]
fn backing_set_is_ordered_by_id() {
    let bundles = vec![
        bundle("a", metadata_script("zeta", &["z"])),
        bundle("b", metadata_script("alpha", &["a"])),
        bundle("c", metadata_script("mid", &["m"])),
    ];
    let (plugins, _) = discover(&bundles);
    let mut registry = PluginRegistry::new();
    registry.get_plugin_map(plugins);
    let ids: Vec<&str> = registry.plugins().iter().map(|p| p.details.id.as_str()).collect();
    assert_eq!(ids, vec!["alpha", "mid", "zeta"]);
}

#[test]
fn index_buckets_plugins_by_extension() {
    let bundles = vec![
        bundle("a", metadata_script("eslint", &["js", "ts"])),
        bundle("b", metadata_script("tsc", &["ts"])),
    ];
    let (plugins, _) = discover(&bundles);
    let mut registry = PluginRegistry::new();
    let index = registry.get_plugin_map(plugins).clone();
    assert_eq!(index.len(), 2);
    let js = index.iter().find(|pair| pair.0.as_str() == "js").unwrap();
    assert_eq!(js.1, vec![0]);
    let ts = index.iter().find(|pair| pair.0.as_str() == "ts").unwrap();
    assert_eq!(ts.1, vec![0, 1]);
}

#[test]
fn index_lists_a_twice_claimed_extension_once() {
    let bundles = vec![bundle("a", metadata_script("eslint", &["js", "js"]))];
    let (plugins, _) = discover(&bundles);
    let mut registry = PluginRegistry::new();
    let index = registry.get_plugin_map(plugins).clone();
    assert_eq!(index.len(), 1);
    assert_eq!(index[0].0, "js");
    assert_eq!(index[0].1, vec![0]);
}

#[test]
fn registry_build_is_memoized() {
    // Discovering twice in the same process leaves the plugin set and the
    // extension index identical: the second build returns the first's state.
    let bundles1 = vec![bundle("a", metadata_script("eslint", &["js"]))];
    let bundles2 = vec![
        bundle("b", metadata_script("clippy", &["rs"])),
        bundle("c", metadata_script("tsc", &["ts"])),
    ];
    let (plugins1, _) = discover(&bundles1);
    let (plugins2, _) = discover(&bundles2);
    let mut registry = PluginRegistry::new();
    let first = registry.get_plugin_map(plugins1).clone();
    let second = registry.get_plugin_map(plugins2).clone();
    assert_eq!(first, second);
    assert_eq!(registry.plugins().len(), 1);
    assert_eq!(registry.plugins()[0].details.id, "eslint");
}

fn config_with_sections(ids: &[&str]) -> Config {
    Config {
        flint: FlintConfig { version: 1, plugins_branch: String::from("main") },
        common: vec![],
        linters: ids
            .iter()
            .map(|id| (String::from(*id), vec![(String::from("k"), ConfigValue::Bool(true))]))
            .collect(),
    }
}

#[test]
fn selection_takes_configured_plugins_with_extensions() {
    let bundles = vec![
        bundle("a", metadata_script("eslint", &["js"])),
        bundle("b", metadata_script("clippy", &["rs"])),
        bundle("c", metadata_script("extensionless", &[])),
    ];
    let (plugins, _) = discover(&bundles);
    let mut registry = PluginRegistry::new();
    registry.get_plugin_map(plugins);
    // clippy has no config section; extensionless has one but claims no
    // extension, so it appears in no index bucket and is never selected.
    let config = config_with_sections(&["eslint", "extensionless", "unknown"]);
    let selected = registry.select_active(&config);
    assert_eq!(selected.len(), 1);
    assert_eq!(selected[0].details.id, "eslint");
}
