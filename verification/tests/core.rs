use mpf_dev::compose::compose_environment;
use mpf_dev::config::{
    component_category, current_link, current_pointer_path, dev_config_path, is_known_component,
    plugin_key, version_dir, ComponentCategory, ComponentConfig, ComponentMode, DevConfig,
};
use mpf_dev::errors::DevError;
use mpf_dev::links::{link, link_component, link_host, link_plugin, unlink, UnlinkOutcome};
use mpf_dev::paths::{
    clean_dot_segments, derive_host_paths, derive_library_paths, derive_plugin_paths, join_path,
};
use mpf_dev::version::{
    current_version, installed_versions, is_version_name, last_path_segment, normalize_version,
    use_version,
};

#[test]
fn normalize_adds_marker() {
    assert_eq!(normalize_version("1.0.0"), "v1.0.0");
    assert_eq!(normalize_version("v1.0.0"), "v1.0.0");
    assert_eq!(normalize_version("1.0.0"), normalize_version("v1.0.0"));
}

#[test]
fn normalize_is_idempotent() {
    let once = normalize_version("2.3.4");
    let twice = normalize_version(&once);
    assert_eq!(once, twice);
    assert_eq!(normalize_version(""), "v");
}

#[test]
fn version_names_filtered() {
    assert!(is_version_name("v1.2.3"));
    assert!(is_version_name("1.2.3"));
    assert!(!is_version_name("current"));
    assert!(!is_version_name(""));
    let entries = vec![
        "v1.0.0".to_string(),
        "current".to_string(),
        "2.0.0".to_string(),
        "dev.json".to_string(),
    ];
    let versions = installed_versions(&entries);
    assert_eq!(versions, vec!["v1.0.0".to_string(), "2.0.0".to_string()]);
}

#[test]
fn current_version_from_pointer() {
    assert_eq!(
        current_version(&Some("  v2.1.0\n".to_string()), &None),
        Some("v2.1.0".to_string())
    );
    assert_eq!(current_version(&Some("   \n".to_string()), &None), None);
    assert_eq!(current_version(&None, &None), None);
}

#[test]
fn current_version_trims_unicode_whitespace() {
    assert_eq!(
        current_version(&Some("\u{b}\u{a0}v1.0.0\u{2028}\u{3000}".to_string()), &None),
        Some("v1.0.0".to_string())
    );
    assert_eq!(
        current_version(&Some("\u{85}\u{2003}\u{205f}".to_string()), &None),
        None
    );
}

#[test]
fn current_version_from_legacy_link() {
    assert_eq!(
        current_version(&None, &Some("/home/dev/.mpf-sdk/v1.2.3".to_string())),
        Some("v1.2.3".to_string())
    );
    assert_eq!(current_version(&None, &Some("/".to_string())), None);
    assert_eq!(last_path_segment("/a/b/"), Some("b".to_string()));
    assert_eq!(last_path_segment("/a/.."), None);
    assert_eq!(last_path_segment("v9"), Some("v9".to_string()));
}

#[test]
fn last_path_segment_skips_trailing_dot_segments() {
    assert_eq!(last_path_segment("/sdk/v1/."), Some("v1".to_string()));
    assert_eq!(last_path_segment("a/./"), Some("a".to_string()));
    assert_eq!(last_path_segment("a/././."), Some("a".to_string()));
    assert_eq!(last_path_segment("."), None);
    assert_eq!(last_path_segment("./"), None);
    assert_eq!(last_path_segment("/a/../."), None);
    assert_eq!(last_path_segment("a/..b"), Some("..b".to_string()));
    assert_eq!(
        current_version(&None, &Some("/home/dev/.mpf-sdk/v1.2.3/.".to_string())),
        Some("v1.2.3".to_string())
    );
}

#[test]
fn use_version_requires_installed() {
    let mut config = DevConfig::new();
    let err = use_version(&mut config, "9.9.9", false);
    assert_eq!(err, Err(DevError::NotFound));
    assert_eq!(config.sdk_version, None);

    let ok = use_version(&mut config, "2.1.0", true);
    assert_eq!(ok, Ok("v2.1.0".to_string()));
    assert_eq!(config.sdk_version, Some("v2.1.0".to_string()));
}

#[test]
fn paths_under_root() {
    assert_eq!(dev_config_path("/r"), "/r/dev.json");
    assert_eq!(current_pointer_path("/r"), "/r/current.txt");
    assert_eq!(version_dir("/r", "v1"), "/r/v1");
    assert_eq!(current_link("/r", &Some("v1".to_string())), "/r/v1");
    assert_eq!(current_link("/r", &None), "/r/current");
    assert_eq!(join_path("/a", "b"), "/a/b");
}

#[test]
fn known_components_and_categories() {
    assert!(is_known_component("host"));
    assert!(is_known_component("plugin-orders"));
    assert!(!is_known_component("orders"));
    assert_eq!(component_category("host"), ComponentCategory::Host);
    assert_eq!(component_category("plugin-orders"), ComponentCategory::Plugin);
    assert_eq!(component_category("my-plugin-x"), ComponentCategory::Plugin);
    assert_eq!(component_category("ui-components"), ComponentCategory::Library);
    assert_eq!(plugin_key("orders"), "plugin-orders");
    assert_eq!(plugin_key("plugin-orders"), "plugin-orders");
}

#[test]
fn plugin_derivation_prefers_nested_output() {
    let with_nested = derive_plugin_paths("/build/orders", true);
    assert!(with_nested.lib.ends_with("/plugins/mpf"));
    assert_eq!(with_nested.lib, "/build/orders/plugins/mpf");
    assert_eq!(with_nested.qml, "/build/orders/qml");
    assert_eq!(with_nested.plugin, "/build/orders");

    let without = derive_plugin_paths("/build/orders", false);
    assert!(without.lib.ends_with("/plugins"));
    assert_eq!(without.lib, "/build/orders/plugins");
}

#[test]
fn host_derivation_probes_executable() {
    let in_bin = derive_host_paths("/b", true, false, true);
    assert_eq!(in_bin.bin, "/b/bin");
    assert_eq!(in_bin.qml, "/b/qml");
    let at_root = derive_host_paths("/b", false, true, false);
    assert_eq!(at_root.bin, "/b");
    assert_eq!(at_root.qml, "/b");
    let not_built = derive_host_paths("/b", false, false, false);
    assert_eq!(not_built.bin, "/b/bin");
}

#[test]
fn library_derivation_probes_layout() {
    let with_lib = derive_library_paths("/c", true, true, true, true);
    assert_eq!(with_lib.lib, "/c/lib");
    assert_eq!(with_lib.qml, Some("/c/qml".to_string()));
    assert_eq!(with_lib.headers, Some("/c/include".to_string()));
    let dlls_in_bin = derive_library_paths("/c", false, true, false, false);
    assert_eq!(dlls_in_bin.lib, "/c/bin");
    assert_eq!(dlls_in_bin.qml, None);
    assert_eq!(dlls_in_bin.headers, None);
    let bare = derive_library_paths("/c", false, false, false, false);
    assert_eq!(bare.lib, "/c");
}

#[test]
fn clean_dot_segments_collapses() {
    assert_eq!(clean_dot_segments("/a/./b"), "/a/b");
    assert_eq!(clean_dot_segments("C:\\x\\.\\y"), "C:\\x\\y");
    assert_eq!(clean_dot_segments("/plain/path"), "/plain/path");
}

#[test]
fn link_plugin_stores_prefixed_entry() {
    let mut config = DevConfig::new();
    let key = link_plugin(&mut config, "orders", "/build/orders", true);
    assert_eq!(key, "plugin-orders");
    assert_eq!(config.components.len(), 1);
    let entry = &config.components[0];
    assert_eq!(entry.name, "plugin-orders");
    assert_eq!(entry.config.mode, ComponentMode::Source);
    assert_eq!(entry.config.lib, Some("/build/orders/plugins/mpf".to_string()));
    assert_eq!(entry.config.qml, Some("/build/orders/qml".to_string()));
    assert_eq!(entry.config.plugin, Some("/build/orders".to_string()));
    assert_eq!(entry.config.bin, None);

    let key2 = link_plugin(&mut config, "orders", "/build/orders", false);
    assert_eq!(key2, "plugin-orders");
    assert_eq!(config.components.len(), 1);
    assert_eq!(
        config.components[0].config.lib,
        Some("/build/orders/plugins".to_string())
    );
}

#[test]
fn link_host_stores_reserved_entry() {
    let mut config = DevConfig::new();
    link_host(&mut config, "/build/host", true, false, true);
    assert_eq!(config.components.len(), 1);
    let entry = &config.components[0];
    assert_eq!(entry.name, "host");
    assert_eq!(entry.config.bin, Some("/build/host/bin".to_string()));
    assert_eq!(entry.config.qml, Some("/build/host/qml".to_string()));
    assert_eq!(entry.config.lib, None);
}

#[test]
fn link_component_stores_literal_name() {
    let mut config = DevConfig::new();
    link_component(&mut config, "ui-components", "/build/ui", true, false, true, false);
    let entry = &config.components[0];
    assert_eq!(entry.name, "ui-components");
    assert_eq!(entry.config.lib, Some("/build/ui/lib".to_string()));
    assert_eq!(entry.config.qml, Some("/build/ui/qml".to_string()));
    assert_eq!(entry.config.headers, None);
}

#[test]
fn manual_link_explicit_beats_derived() {
    let mut config = DevConfig::new();
    let warnings = link(
        &mut config,
        "plugin-orders",
        Some("/explicit/lib".to_string()),
        None,
        Some("/build/orders".to_string()),
        None,
        None,
        None,
        true,
        false,
        false,
        false,
    );
    assert!(!warnings.unknown_component);
    assert!(!warnings.bin_outside_host);
    let entry = &config.components[0];
    assert_eq!(entry.config.lib, Some("/explicit/lib".to_string()));
    assert_eq!(entry.config.qml, Some("/build/orders/qml".to_string()));
    assert_eq!(entry.config.plugin, Some("/build/orders".to_string()));

    let env = compose_environment(
        &config,
        "/r",
        &Some("v1.0.0".to_string()),
        true,
        ":",
        "mpf-host",
    )
    .unwrap();
    assert!(env.lib_search_path.contains("/explicit/lib"));
    assert!(!env.lib_search_path.contains("/build/orders/plugins/mpf"));
}

#[test]
fn manual_link_warns() {
    let mut config = DevConfig::new();
    let warnings = link(
        &mut config,
        "mystery",
        None,
        None,
        None,
        None,
        Some("/somewhere/bin".to_string()),
        None,
        false,
        false,
        false,
        false,
    );
    assert!(warnings.unknown_component);
    assert!(warnings.bin_outside_host);
}

#[test]
fn unlink_falls_back_to_plugin_prefix() {
    let mut config = DevConfig::new();
    link_plugin(&mut config, "orders", "/build/orders", false);
    assert_eq!(unlink(&mut config, "orders"), UnlinkOutcome::RemovedPrefixed);
    assert_eq!(config.components.len(), 0);
    assert_eq!(unlink(&mut config, "orders"), UnlinkOutcome::NotLinked);
}

#[test]
fn unlink_exact_match_first() {
    let mut config = DevConfig::new();
    link_component(&mut config, "orders", "/build/orders", false, false, false, false);
    link_plugin(&mut config, "orders", "/build/orders", false);
    assert_eq!(config.components.len(), 2);
    assert_eq!(unlink(&mut config, "orders"), UnlinkOutcome::RemovedExact);
    assert_eq!(config.components.len(), 1);
    assert_eq!(config.components[0].name, "plugin-orders");
}

#[test]
fn unlink_all_reports_count() {
    let mut config = DevConfig::new();
    link_plugin(&mut config, "orders", "/build/orders", false);
    link_host(&mut config, "/build/host", false, false, false);
    assert_eq!(unlink(&mut config, "all"), UnlinkOutcome::ClearedAll { removed: 2 });
    assert_eq!(config.components.len(), 0);
    assert_eq!(unlink(&mut config, "all"), UnlinkOutcome::ClearedAll { removed: 0 });
}

#[test]
fn compose_fails_without_current_version() {
    let config = DevConfig::new();
    let none = compose_environment(&config, "/r", &None, true, ":", "mpf-host");
    assert_eq!(none.err(), Some(DevError::NotConfigured));
    let gone = compose_environment(
        &config,
        "/r",
        &Some("v2.1.0".to_string()),
        false,
        ":",
        "mpf-host",
    );
    assert_eq!(gone.err(), Some(DevError::NotConfigured));
}

#[test]
fn compose_baseline_only() {
    let config = DevConfig::new();
    let env = compose_environment(
        &config,
        "/r",
        &Some("v1.0.0".to_string()),
        true,
        ":",
        "mpf-host",
    )
    .unwrap();
    assert_eq!(env.sdk_root, "/r/v1.0.0");
    assert_eq!(env.lib_search_path, "/r/v1.0.0/lib");
    assert_eq!(env.qml_search_path, "/r/v1.0.0/qml");
    assert_eq!(env.plugin_search_path, "/r/v1.0.0/plugins");
    assert_eq!(env.mpf_plugin_search_path, "");
    assert_eq!(env.host_executable_path, "/r/v1.0.0/bin/mpf-host");
}

#[test]
fn compose_linked_paths_shadow_baseline() {
    let mut config = DevConfig::new();
    link_plugin(&mut config, "orders", "/build/orders", true);
    let env = compose_environment(
        &config,
        "/r",
        &Some("v1.0.0".to_string()),
        true,
        ":",
        "mpf-host",
    )
    .unwrap();
    assert_eq!(
        env.lib_search_path,
        "/build/orders/plugins/mpf:/r/v1.0.0/lib"
    );
    assert_eq!(env.qml_search_path, "/build/orders/qml:/r/v1.0.0/qml");
    assert_eq!(
        env.plugin_search_path,
        "/build/orders:/r/v1.0.0/plugins"
    );
    assert_eq!(env.mpf_plugin_search_path, "/build/orders/plugins/mpf");
    let lib_pos = env.lib_search_path.find("/build/orders/plugins/mpf").unwrap();
    let baseline_pos = env.lib_search_path.find("/r/v1.0.0/lib").unwrap();
    assert!(lib_pos < baseline_pos);
}

#[test]
fn compose_honors_host_override_and_skips_host_in_plugin_path() {
    let mut config = DevConfig::new();
    link_host(&mut config, "/build/host", true, false, false);
    link_component(&mut config, "sdk", "/build/sdk", true, false, false, false);
    link_plugin(&mut config, "rules", "/build/rules", false);
    let env = compose_environment(
        &config,
        "/r",
        &Some("v1.0.0".to_string()),
        true,
        ":",
        "mpf-host",
    )
    .unwrap();
    assert_eq!(env.host_executable_path, "/build/host/bin/mpf-host");
    assert_eq!(env.mpf_plugin_search_path, "/build/rules/plugins");
    assert_eq!(
        env.lib_search_path,
        "/build/sdk/lib:/build/rules/plugins:/r/v1.0.0/lib"
    );
}

#[test]
fn binary_mode_components_are_ignored_by_composition() {
    let mut config = DevConfig::new();
    config.set_component(
        "ui-components".to_string(),
        ComponentConfig {
            mode: ComponentMode::Binary,
            lib: Some("/binary/lib".to_string()),
            qml: None,
            plugin: None,
            headers: None,
            bin: None,
        },
    );
    let env = compose_environment(
        &config,
        "/r",
        &Some("v1.0.0".to_string()),
        true,
        ":",
        "mpf-host",
    )
    .unwrap();
    assert_eq!(env.lib_search_path, "/r/v1.0.0/lib");
    assert_eq!(env.mpf_plugin_search_path, "");
}

#[test]
fn compose_uses_given_separator_and_executable_name() {
    let mut config = DevConfig::new();
    link_component(&mut config, "ui-components", "/build/ui", true, false, false, false);
    let env = compose_environment(
        &config,
        "C:/mpf",
        &Some("v1.0.0".to_string()),
        true,
        ";",
        "mpf-host.exe",
    )
    .unwrap();
    assert_eq!(env.lib_search_path, "/build/ui/lib;C:/mpf/v1.0.0/lib");
    assert_eq!(env.host_executable_path, "C:/mpf/v1.0.0/bin/mpf-host.exe");
}

#[test]
fn switch_and_lose_version_scenario() {
    let mut config = DevConfig::new();
    let installed = use_version(&mut config, "v2.1.0", true).unwrap();
    assert_eq!(installed, "v2.1.0");
    let current = current_version(&Some(installed.clone()), &None);
    assert_eq!(current, Some("v2.1.0".to_string()));
    let env = compose_environment(&config, "/r", &current, true, ":", "mpf-host").unwrap();
    assert_eq!(env.sdk_root, "/r/v2.1.0");
    let lost = compose_environment(&config, "/r", &current, false, ":", "mpf-host");
    assert_eq!(lost.err(), Some(DevError::NotConfigured));
}
