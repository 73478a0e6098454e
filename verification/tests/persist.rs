use mpf_dev::codec::parse_dev_config;
use mpf_dev::config::{ComponentConfig, ComponentMode, DevConfig};
use mpf_dev::errors::DevError;
use mpf_dev::links::{link_host, link_plugin};

#[test]
fn save_empty_config() {
    let config = DevConfig::new();
    assert_eq!(config.save(), "{\"sdk_version\":null,\"components\":{}}");
}

#[test]
fn save_is_deterministic_and_ordered() {
    let mut config = DevConfig::new();
    config.sdk_version = Some("v1.0.0".to_string());
    link_plugin(&mut config, "orders", "/build/orders", true);
    let text = config.save();
    let expected = "{\"sdk_version\":\"v1.0.0\",\"components\":{\"plugin-orders\":{\"mode\":\"source\",\"lib\":\"/build/orders/plugins/mpf\",\"qml\":\"/build/orders/qml\",\"plugin\":\"/build/orders\"}}}";
    assert_eq!(text, expected);
    assert_eq!(text, config.save());
}

#[test]
fn load_absent_text_is_empty_default() {
    let config = DevConfig::load(None).unwrap();
    assert_eq!(config.sdk_version, None);
    assert_eq!(config.components.len(), 0);
}

#[test]
fn load_rejects_malformed_text() {
    assert_eq!(DevConfig::load(Some("garbage")).err(), Some(DevError::Parse));
    assert_eq!(DevConfig::load(Some("")).err(), Some(DevError::Parse));
    assert_eq!(
        DevConfig::load(Some("{\"sdk_version\":null,\"components\":{}")).err(),
        Some(DevError::Parse)
    );
    assert_eq!(
        parse_dev_config("{\"sdk_version\":null,\"components\":{}}trailing").err(),
        Some(DevError::Parse)
    );
}

#[test]
fn load_rejects_duplicate_names() {
    let text = "{\"sdk_version\":null,\"components\":{\"a\":{\"mode\":\"source\"},\"a\":{\"mode\":\"binary\"}}}";
    assert_eq!(DevConfig::load(Some(text)).err(), Some(DevError::Parse));
}

#[test]
fn load_reads_fields_back() {
    let text = "{\"sdk_version\":\"v2.0.0\",\"components\":{\"host\":{\"mode\":\"source\",\"qml\":\"/h/qml\",\"bin\":\"/h/bin\"},\"ui-components\":{\"mode\":\"binary\",\"lib\":\"/u/lib\"}}}";
    let config = DevConfig::load(Some(text)).unwrap();
    assert_eq!(config.sdk_version, Some("v2.0.0".to_string()));
    assert_eq!(config.components.len(), 2);
    assert_eq!(config.components[0].name, "host");
    assert_eq!(config.components[0].config.mode, ComponentMode::Source);
    assert_eq!(config.components[0].config.bin, Some("/h/bin".to_string()));
    assert_eq!(config.components[0].config.lib, None);
    assert_eq!(config.components[1].name, "ui-components");
    assert_eq!(config.components[1].config.mode, ComponentMode::Binary);
    assert_eq!(config.components[1].config.lib, Some("/u/lib".to_string()));
}

#[test]
fn save_load_round_trip_is_byte_identical() {
    let mut config = DevConfig::new();
    config.sdk_version = Some("v1.2.3".to_string());
    link_plugin(&mut config, "orders", "/build/orders", false);
    link_host(&mut config, "/build/host", true, false, true);
    let first = config.save();
    let reloaded = DevConfig::load(Some(&first)).unwrap();
    let second = reloaded.save();
    assert_eq!(first, second);
    let reloaded_again = DevConfig::load(Some(&second)).unwrap();
    assert_eq!(reloaded_again.save(), second);
}

#[test]
fn load_rejects_unknown_escape() {
    let text = "{\"sdk_version\":\"a\\nb\",\"components\":{}}";
    assert_eq!(DevConfig::load(Some(text)).err(), Some(DevError::Parse));
}

#[test]
fn round_trip_keeps_non_ascii_path() {
    let mut config = DevConfig::new();
    config.sdk_version = Some("v1.0.0".to_string());
    config.set_component(
        "http-client".to_string(),
        ComponentConfig {
            mode: ComponentMode::Source,
            lib: Some("/b\u{fc}ild/caf\u{e9}/lib".to_string()),
            qml: None,
            plugin: None,
            headers: None,
            bin: None,
        },
    );
    let text = config.save();
    let reloaded = DevConfig::load(Some(&text)).unwrap();
    assert_eq!(
        reloaded.components[0].config.lib,
        Some("/b\u{fc}ild/caf\u{e9}/lib".to_string())
    );
    assert_eq!(reloaded.save(), text);
}

#[test]
fn round_trip_escapes_path_characters() {
    let mut config = DevConfig::new();
    config.set_component(
        "ui-components".to_string(),
        ComponentConfig {
            mode: ComponentMode::Source,
            lib: Some("C:\\builds\\\"odd\" name".to_string()),
            qml: None,
            plugin: None,
            headers: None,
            bin: None,
        },
    );
    let text = config.save();
    let reloaded = DevConfig::load(Some(&text)).unwrap();
    assert_eq!(
        reloaded.components[0].config.lib,
        Some("C:\\builds\\\"odd\" name".to_string())
    );
    assert_eq!(reloaded.save(), text);
}
