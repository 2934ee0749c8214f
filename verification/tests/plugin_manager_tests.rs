use phira_mp_plugin::config::PluginConfig;
use phira_mp_plugin::error::Error;
use phira_mp_plugin::metadata::PluginMetadata;
use phira_mp_plugin::plugin_manager::{Plugin, PluginManager, PluginState};
use phira_mp_plugin::wasm_runtime::{PluginInstance, WasmRuntime};

fn metadata(name: &str, deps: &[&str]) -> PluginMetadata {
    PluginMetadata {
        name: name.to_string(),
        version: "1.0.0".to_string(),
        author: "a".to_string(),
        dependencies: if deps.is_empty() {
            None
        } else {
            Some(deps.iter().map(|s| s.to_string()).collect())
        },
        ..PluginMetadata::default()
    }
}

fn load(manager: &mut PluginManager<u32>, name: &str, deps: &[&str]) -> Result<(), Error> {
    manager.load_plugin(metadata(name, deps), PluginConfig::new(), format!("plugins/{}/plugin.wasm", name))
}

#[test]
fn a_plugin_moves_through_its_states() {
    let mut plugin: Plugin<PluginInstance> =
        Plugin::new(metadata("p", &["q"]), PluginConfig::new(), "plugins/p.wasm".to_string());
    assert_eq!(plugin.state, PluginState::Loaded);
    assert!(plugin.instance.is_none());
    assert_eq!(plugin.dependencies, vec!["q".to_string()]);
    assert!(plugin.dependents.is_empty());

    match plugin.start() {
        Err(Error::Runtime(m)) => assert_eq!(m, "Plugin p is not in Initialized state"),
        other => panic!("unexpected result {:?}", other),
    }
    let runtime = WasmRuntime::new().unwrap();
    plugin.initialize(runtime.instantiate_plugin(&plugin.path).unwrap()).unwrap();
    assert_eq!(plugin.state, PluginState::Initialized);
    assert!(plugin.instance.is_some());
    match plugin.initialize(runtime.instantiate_plugin(&plugin.path).unwrap()) {
        Err(Error::Runtime(m)) => assert_eq!(m, "Plugin p is not in Loaded state"),
        other => panic!("unexpected result {:?}", other),
    }
    plugin.start().unwrap();
    assert_eq!(plugin.state, PluginState::Running);
    plugin.stop().unwrap();
    assert_eq!(plugin.state, PluginState::Initialized);
    assert!(plugin.unload().is_some());
    assert_eq!(plugin.state, PluginState::Unloading);
    assert!(plugin.instance.is_none());
}

#[test]
fn loading_refuses_duplicates_and_missing_dependencies() {
    let mut manager: PluginManager<u32> = PluginManager::new("plugins".to_string());
    assert_eq!(manager.plugin_dir(), "plugins");
    load(&mut manager, "base", &[]).unwrap();
    match load(&mut manager, "base", &[]) {
        Err(Error::AlreadyLoaded(m)) => assert_eq!(m, "base"),
        other => panic!("unexpected result {:?}", other),
    }
    match load(&mut manager, "app", &["base", "lib"]) {
        Err(Error::Dependency(m)) => assert_eq!(m, "Missing dependencies for app: [\"lib\"]"),
        other => panic!("unexpected result {:?}", other),
    }
    assert!(manager.get_plugin("app").is_none());
    assert_eq!(manager.get_all_plugins().len(), 1);
    load(&mut manager, "lib", &[]).unwrap();
    load(&mut manager, "app", &["base", "lib"]).unwrap();
    assert_eq!(manager.get_plugin("app").unwrap().state, PluginState::Loaded);
    assert_eq!(manager.plugin_path("app").unwrap(), "plugins/app/plugin.wasm");
    match manager.plugin_path("nobody") {
        Err(Error::NotFound(m)) => assert_eq!(m, "nobody"),
        other => panic!("unexpected result {:?}", other),
    }
    let order = manager.dependency_graph().get_load_order().unwrap();
    let place = |n: &str| order.iter().position(|x| x == n).unwrap();
    assert!(place("base") < place("app"));
    assert!(place("lib") < place("app"));
}

#[test]
fn plugins_are_initialized_started_and_unloaded_through_the_manager() {
    let mut manager: PluginManager<u32> = PluginManager::new("plugins".to_string());
    load(&mut manager, "a", &[]).unwrap();
    load(&mut manager, "b", &["a"]).unwrap();
    assert_eq!(manager.pending_initialization(), vec!["a".to_string(), "b".to_string()]);
    assert!(manager.pending_start().is_empty());

    manager.initialize_plugin("a", 11).unwrap();
    match manager.initialize_plugin("a", 12) {
        Err(Error::Runtime(m)) => assert_eq!(m, "Plugin a is not in Loaded state"),
        other => panic!("unexpected result {:?}", other),
    }
    match manager.initialize_plugin("zz", 12) {
        Err(Error::NotFound(m)) => assert_eq!(m, "zz"),
        other => panic!("unexpected result {:?}", other),
    }
    assert_eq!(manager.get_plugin("a").unwrap().instance, Some(11));
    assert_eq!(manager.pending_initialization(), vec!["b".to_string()]);
    assert_eq!(manager.pending_start(), vec!["a".to_string()]);

    // A plugin that is not initialized gives no instance to start.
    assert_eq!(manager.begin_start("b").unwrap(), None);
    assert_eq!(manager.get_plugin("b").unwrap().state, PluginState::Loaded);
    let instance = manager.begin_start("a").unwrap();
    assert_eq!(instance, Some(11));
    assert!(manager.get_plugin("a").unwrap().instance.is_none());
    manager.finish_start("a", 11).unwrap();
    assert_eq!(manager.get_plugin("a").unwrap().state, PluginState::Running);
    assert!(manager.begin_start("zz").is_err());
    assert!(manager.finish_start("zz", 1).is_err());

    let stats = manager.stats();
    assert_eq!(stats.total_plugins, 2);
    assert_eq!(stats.loaded_plugins, 1);
    assert_eq!(stats.initialized_plugins, 0);
    assert_eq!(stats.running_plugins, 1);

    let unloaded = manager.unload_plugin("a").unwrap();
    assert_eq!(unloaded.name, "a");
    assert!(unloaded.should_stop);
    assert_eq!(unloaded.instance, Some(11));
    // Off the map at once, off the graph when the host is done.
    assert!(manager.get_plugin("a").is_none());
    assert!(manager.dependency_graph().plugin_names().contains(&"a".to_string()));
    manager.finish_unload("a");
    assert!(!manager.dependency_graph().plugin_names().contains(&"a".to_string()));
    match manager.unload_plugin("a") {
        Err(Error::NotFound(m)) => assert_eq!(m, "a"),
        Ok(_) => panic!("a plugin cannot be unloaded twice"),
        Err(other) => panic!("unexpected error {:?}", other),
    }
    let unloaded = manager.unload_plugin("b").unwrap();
    assert!(!unloaded.should_stop);
    assert_eq!(unloaded.instance, None);
    // A plugin can be loaded again from the same path, as a reload does.
    load(&mut manager, "a", &[]).unwrap();
    assert_eq!(manager.get_plugin("a").unwrap().state, PluginState::Loaded);
}

#[test]
fn initialize_all_initializes_the_loaded_plugins_until_the_engine_fails() {
    let mut manager: PluginManager<u32> = PluginManager::new("plugins".to_string());
    load(&mut manager, "a", &[]).unwrap();
    load(&mut manager, "b", &[]).unwrap();
    load(&mut manager, "c", &[]).unwrap();
    manager.initialize_plugin("a", 1).unwrap();

    let refuse_c = |path: &str| -> Result<u32, Error> {
        if path.contains("/c/") {
            Err(Error::Runtime("no engine for c".to_string()))
        } else {
            Ok(path.len() as u32)
        }
    };
    match manager.initialize_all(refuse_c) {
        Err(Error::Runtime(m)) => assert_eq!(m, "no engine for c"),
        other => panic!("unexpected result {:?}", other),
    }
    assert_eq!(manager.get_plugin("a").unwrap().instance, Some(1));
    assert_eq!(manager.get_plugin("b").unwrap().state, PluginState::Initialized);
    assert_eq!(
        manager.get_plugin("b").unwrap().instance,
        Some("plugins/b/plugin.wasm".len() as u32)
    );
    assert_eq!(manager.get_plugin("c").unwrap().state, PluginState::Loaded);

    assert!(manager.initialize_all(|_path: &str| -> Result<u32, Error> { Ok(7) }).is_ok());
    assert_eq!(manager.get_plugin("c").unwrap().instance, Some(7));
    assert_eq!(manager.get_plugin("b").unwrap().instance, Some("plugins/b/plugin.wasm".len() as u32));
    assert!(manager.pending_initialization().is_empty());
    assert_eq!(manager.stats().initialized_plugins, 3);
}
