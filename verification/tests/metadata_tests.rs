use phira_mp_plugin::config::PluginConfig;
use phira_mp_plugin::error::Error;
use phira_mp_plugin::metadata::PluginMetadata;
use phira_mp_plugin::wasm_runtime::WasmRuntime;

fn sample() -> PluginMetadata {
    PluginMetadata {
        name: "test-plugin".to_string(),
        version: "1.0.0".to_string(),
        author: "Test Author".to_string(),
        description: Some("A test plugin".to_string()),
        abi_version: "1.0.0".to_string(),
        dependencies: Some(vec!["dependency1".to_string(), "dependency2".to_string()]),
        permissions: Some(vec!["read_users".to_string(), "write_config".to_string()]),
        category: Some("utility".to_string()),
        tags: Some(vec!["test".to_string(), "example".to_string()]),
        ..PluginMetadata::default()
    }
}

fn refusal(r: Result<(), Error>) -> String {
    match r {
        Err(Error::InvalidManifest(m)) => m,
        other => panic!("expected an invalid manifest, got {:?}", other),
    }
}

#[test]
fn valid_metadata_is_accepted_and_read_back() {
    let metadata = sample();
    assert!(metadata.validate().is_ok());
    assert_eq!(metadata.name(), "test-plugin");
    assert_eq!(metadata.version(), "1.0.0");
    assert_eq!(metadata.author(), "Test Author");
    assert_eq!(metadata.description(), Some("A test plugin"));
    assert_eq!(metadata.abi_version(), "1.0.0");
    assert!(metadata.depends_on("dependency1"));
    assert!(!metadata.depends_on("dependency3"));
    assert!(metadata.requires_permission("read_users"));
    assert!(!metadata.requires_permission("read"));
    assert_eq!(metadata.category(), Some("utility"));
    assert!(metadata.has_tag("test"));
    assert!(!metadata.has_tag("tes"));
    assert_eq!(metadata.dependencies().map(|d| d.len()), Some(2));
    assert_eq!(metadata.permissions().map(|d| d.len()), Some(2));
    assert_eq!(metadata.tags().map(|d| d.len()), Some(2));
}

#[test]
fn metadata_is_refused_for_the_first_thing_that_is_wrong() {
    let mut metadata = sample();
    metadata.name = String::new();
    metadata.version = String::new();
    assert_eq!(refusal(metadata.validate()), "Plugin name cannot be empty");
    metadata.name = "n".to_string();
    assert_eq!(refusal(metadata.validate()), "Plugin version cannot be empty");
    metadata.version = "1".to_string();
    metadata.author = String::new();
    assert_eq!(refusal(metadata.validate()), "Plugin author cannot be empty");
    metadata.author = "a".to_string();
    metadata.abi_version = String::new();
    assert_eq!(refusal(metadata.validate()), "ABI version cannot be empty");
    metadata.abi_version = "1".to_string();
    assert_eq!(
        refusal(metadata.validate()),
        "ABI version must be in semver format (e.g., 1.0.0)"
    );
    metadata.abi_version = ".".to_string();
    assert!(metadata.validate().is_ok());
}

#[test]
fn default_metadata_declares_nothing_and_is_not_valid() {
    let metadata = PluginMetadata::default();
    assert_eq!(metadata.abi_version(), "1.0.0");
    assert!(metadata.description().is_none());
    assert!(metadata.dependencies().is_none());
    assert!(!metadata.depends_on("x"));
    assert!(!metadata.has_tag("x"));
    assert!(!metadata.requires_permission("x"));
    assert!(metadata.validate().is_err());
}

#[test]
fn test_config_creation() {
    let config = PluginConfig::new();
    assert!(config.values.is_empty());
    assert!(config.path.is_none());
}

#[test]
fn configuration_keeps_one_value_per_key() {
    let mut config = PluginConfig::new();
    assert!(!config.has_key("a"));
    config.set_value("a", toml::Value::Integer(1));
    config.set_value("b", toml::Value::String("two".to_string()));
    config.set_value("a", toml::Value::Boolean(true));
    assert_eq!(config.keys(), vec!["a".to_string(), "b".to_string()]);
    assert_eq!(config.get_value("a"), Some(&toml::Value::Boolean(true)));
    assert_eq!(config.get_value("b"), Some(&toml::Value::String("two".to_string())));
    assert_eq!(config.get_value("c"), None);
    assert_eq!(config.remove("a"), Some(toml::Value::Boolean(true)));
    assert_eq!(config.remove("a"), None);
    assert!(config.has_key("b"));
    config.clear();
    assert!(config.keys().is_empty());
    assert!(PluginConfig::default().values.is_empty());
}

#[test]
fn the_engine_at_hand_accepts_every_module() {
    let runtime = WasmRuntime::new().unwrap();
    assert!(runtime.load_module("plugins/a/plugin.wasm").is_ok());
    assert!(runtime.instantiate_plugin("plugins/a/plugin.wasm").is_ok());
}
