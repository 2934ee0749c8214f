use phira_mp_plugin::hot_reload::{
    change_kind, classify_extension, decision_event, glob_match, outcome_events, plan_changes,
    reload_required_event, ChangeKind, ChangePlan, ChangedFile, HotReloadConfig, HotReloadEvent,
    HotReloadManager, PendingChanges, PluginHotReloadState, ReloadDecision, RestartTracker,
};
use std::time::Duration;

const SEC: u64 = 1_000_000_000;

fn file(path: &str) -> ChangedFile {
    let name = path.rsplit('/').next().map(|s| s.to_string());
    let extension = match &name {
        Some(n) if n.contains('.') && !n.starts_with('.') => {
            n.rsplit('.').next().map(|s| s.to_string())
        }
        _ => None,
    };
    ChangedFile { path: path.to_string(), file_name: name, extension }
}

#[test]
fn test_glob_match() {
    assert!(glob_match("plugin.wasm", "*.wasm"));
    assert!(glob_match("config.toml", "*.toml"));
    assert!(glob_match("data.json", "*.json"));
    assert!(!glob_match("plugin.wasm", "*.toml"));
    assert!(glob_match("anything", "*"));
}

#[test]
fn test_hot_reload_config() {
    let config = HotReloadConfig::default();
    assert!(config.enabled);
    assert_eq!(config.poll_interval_secs, 1);
    assert_eq!(config.debounce_delay_ms, 500);
    assert!(config.restart_on_config_change);
    assert!(config.restart_on_wasm_change);
    assert_eq!(config.max_restart_attempts, 3);
    assert_eq!(config.restart_cooldown_secs, 5);
}

#[test]
fn test_plugin_hot_reload_state() {
    let mut state = PluginHotReloadState::new(true);
    assert!(state.enabled);
    assert_eq!(state.reload_count, 0);
    assert!(state.last_reload.is_none());
    assert!(state.last_error.is_none());

    state.record_reload();
    assert_eq!(state.reload_count, 1);
    assert!(state.last_reload.is_some());
    assert!(state.last_error.is_none());

    state.record_failed_reload("test error".to_string());
    assert_eq!(state.reload_count, 2);
    assert_eq!(state.last_error, Some("test error".to_string()));
}

#[test]
fn default_config_lists_its_patterns() {
    let config = HotReloadConfig::default();
    assert_eq!(config.watch_directories, vec![".".to_string()]);
    assert_eq!(
        config.watch_patterns,
        vec!["*.wasm".to_string(), "*.toml".to_string(), "*.json".to_string()]
    );
    assert_eq!(
        config.ignore_patterns,
        vec!["*.log".to_string(), "*.tmp".to_string(), "*.bak".to_string()]
    );
}

#[test]
fn glob_has_three_forms_only() {
    assert!(glob_match("a.b.wasm", "*.wasm"));
    assert!(!glob_match("wasm", "*.wasm"));
    assert!(!glob_match("log", "*.log"));
    assert!(glob_match(".wasm", "*.wasm"));
    assert!(glob_match("a.b", "a.b"));
    assert!(!glob_match("plugin.wasm.bak", "*.wasm"));
    assert!(!glob_match("plugin.WASM", "*.wasm"));
    assert!(glob_match("trailing.", "*."));
    assert!(glob_match("exact.txt", "exact.txt"));
    assert!(!glob_match("exact.txt", "exact"));
    assert!(!glob_match("abc", "a*"));
    assert!(!glob_match("x", "**"));
    assert!(glob_match("", "*"));
    assert!(glob_match("", ""));
    assert!(glob_match("x.tar.gz", "*.gz"));
    assert!(!glob_match("x.tar.gz", "*.tar.gz"));
}

#[test]
fn ignored_files_match_an_ignore_pattern_or_no_watch_pattern() {
    let config = HotReloadConfig::default();
    assert!(!config.should_ignore_file(Some("plugin.wasm")));
    assert!(!config.should_ignore_file(Some("config.toml")));
    assert!(config.should_ignore_file(Some("server.log")));
    assert!(config.should_ignore_file(Some("notes.txt")));
    assert!(!config.should_ignore_file(None));

    let mut all = HotReloadConfig::default();
    all.watch_patterns = Vec::new();
    assert!(!all.should_ignore_file(Some("notes.txt")));
    assert!(all.should_ignore_file(Some("x.tmp")));

    let mut both = HotReloadConfig::default();
    both.ignore_patterns = vec!["*.wasm".to_string()];
    assert!(both.should_ignore_file(Some("plugin.wasm")));
}

#[test]
fn extensions_are_classified_whatever_their_case() {
    assert_eq!(classify_extension("wasm"), ChangeKind::Module);
    assert_eq!(classify_extension("toml"), ChangeKind::Config);
    assert_eq!(classify_extension("json"), ChangeKind::Config);
    assert_eq!(classify_extension("WASM"), ChangeKind::Other);
    assert_eq!(classify_extension("txt"), ChangeKind::Other);
    assert_eq!(change_kind("WASM"), ChangeKind::Module);
    assert_eq!(change_kind("Toml"), ChangeKind::Config);
    assert_eq!(change_kind("JSON"), ChangeKind::Config);
    assert_eq!(change_kind("rs"), ChangeKind::Other);
}

fn reason_of(plan: ChangePlan) -> String {
    match plan {
        ChangePlan::Reload { reason } => reason,
        other => panic!("expected a reload, got {:?}", other),
    }
}

fn others_of(plan: ChangePlan) -> Vec<String> {
    match plan {
        ChangePlan::NoReload { other_changes } => other_changes,
        other => panic!("expected no reload, got {:?}", other),
    }
}

#[test]
fn a_batch_is_planned_by_what_changed_and_what_restarts() {
    let config = HotReloadConfig::default();
    let wasm = vec![file("/p/a/plugin.wasm")];
    let conf = vec![file("/p/a/config.toml"), file("/p/a/readme.md")];
    let both = vec![file("/p/a/data.json"), file("/p/a/plugin.WASM")];
    let other = vec![file("/p/a/readme.md"), file("/p/a/Makefile"), file("/p/a/x.rs")];

    assert!(matches!(plan_changes(&config, false, &wasm), ChangePlan::UnknownPlugin));
    assert_eq!(reason_of(plan_changes(&config, true, &wasm)), "WASM file changed");
    assert_eq!(reason_of(plan_changes(&config, true, &conf)), "Configuration file changed");
    assert_eq!(
        reason_of(plan_changes(&config, true, &both)),
        "WASM and configuration files changed"
    );
    assert_eq!(
        others_of(plan_changes(&config, true, &other)),
        vec!["/p/a/readme.md".to_string(), "/p/a/x.rs".to_string()]
    );

    let mut no_wasm = HotReloadConfig::default();
    no_wasm.restart_on_wasm_change = false;
    assert!(others_of(plan_changes(&no_wasm, true, &wasm)).is_empty());
    assert_eq!(
        reason_of(plan_changes(&no_wasm, true, &both)),
        "WASM and configuration files changed"
    );
    let mut no_conf = HotReloadConfig::default();
    no_conf.restart_on_config_change = false;
    assert_eq!(
        others_of(plan_changes(&no_conf, true, &conf)),
        vec!["/p/a/readme.md".to_string()]
    );
}

#[test]
fn two_changes_before_a_tick_make_one_batch_with_both_files() {
    let mut pending = PendingChanges::new();
    assert!(pending.is_empty());
    pending.record("a", file("/p/a/plugin.wasm"));
    pending.record("b", file("/p/b/config.toml"));
    pending.record("a", file("/p/a/config.toml"));
    let batches = pending.drain();
    assert!(pending.is_empty());
    assert_eq!(batches.len(), 2);
    assert_eq!(batches[0].plugin_name, "a");
    let paths: Vec<&str> = batches[0].files.iter().map(|f| f.path.as_str()).collect();
    assert_eq!(paths, vec!["/p/a/plugin.wasm", "/p/a/config.toml"]);
    assert_eq!(batches[1].plugin_name, "b");
    assert_eq!(batches[1].files.len(), 1);

    let config = HotReloadConfig::default();
    let reason = reason_of(plan_changes(&config, true, &batches[0].files));
    match reload_required_event("a", reason, &batches[0].files) {
        HotReloadEvent::PluginReloadRequired { plugin_name, reason, changed_files } => {
            assert_eq!(plugin_name, "a");
            assert_eq!(reason, "WASM and configuration files changed");
            assert_eq!(
                changed_files,
                vec!["/p/a/plugin.wasm".to_string(), "/p/a/config.toml".to_string()]
            );
        }
        other => panic!("unexpected event {:?}", other),
    }
    assert!(pending.drain().is_empty());
}

#[test]
fn an_attempt_within_the_cooldown_is_skipped_and_not_counted() {
    let mut tracker = RestartTracker::new();
    // The first attempt has no earlier one to wait for: it runs and counts.
    assert_eq!(
        tracker.begin_attempt("a", 100 * SEC, 3, 5),
        ReloadDecision::Proceed { attempt: 1 }
    );
    assert_eq!(tracker.attempts_of("a"), Some((1, 100 * SEC)));
    assert_eq!(
        tracker.begin_attempt("a", 105 * SEC - 1, 3, 5),
        ReloadDecision::CooldownSkip { attempts: 1 }
    );
    assert_eq!(tracker.attempts_of("a"), Some((1, 100 * SEC)));
    assert_eq!(
        tracker.begin_attempt("a", 105 * SEC, 3, 5),
        ReloadDecision::Proceed { attempt: 2 }
    );
    assert_eq!(tracker.attempts_of("a"), Some((2, 105 * SEC)));
    assert_eq!(
        tracker.begin_attempt("a", 107 * SEC, 3, 5),
        ReloadDecision::CooldownSkip { attempts: 2 }
    );
    assert_eq!(tracker.attempts_of("a"), Some((2, 105 * SEC)));
    assert_eq!(tracker.len(), 1);
    assert_eq!(tracker.attempts_of("b"), None);
}

#[test]
fn attempts_are_given_up_at_the_maximum_until_a_success_resets_them() {
    let mut tracker = RestartTracker::new();
    assert_eq!(tracker.begin_attempt("a", 10, 2, 0), ReloadDecision::Proceed { attempt: 1 });
    assert_eq!(tracker.begin_attempt("a", 10, 2, 0), ReloadDecision::Proceed { attempt: 2 });
    assert_eq!(
        tracker.begin_attempt("a", 11, 2, 0),
        ReloadDecision::AttemptsExhausted { attempts: 2 }
    );
    assert_eq!(
        tracker.begin_attempt("a", 12, 2, 0),
        ReloadDecision::AttemptsExhausted { attempts: 2 }
    );
    assert_eq!(tracker.begin_attempt("b", 12, 2, 0), ReloadDecision::Proceed { attempt: 1 });
    tracker.reset("a");
    assert_eq!(tracker.attempts_of("a"), None);
    assert_eq!(tracker.len(), 1);
    assert_eq!(tracker.begin_attempt("a", 13, 2, 0), ReloadDecision::Proceed { attempt: 1 });
    // A clock that went backwards counts as no time passed.
    assert_eq!(
        tracker.begin_attempt("a", 1, 2, 1),
        ReloadDecision::CooldownSkip { attempts: 1 }
    );
    // Where no attempt is allowed, even the first is given up, and nothing is recorded.
    assert_eq!(tracker.begin_attempt("c", 5, 0, 0), ReloadDecision::AttemptsExhausted { attempts: 0 });
    assert_eq!(tracker.attempts_of("c"), None);
    assert_eq!(tracker.begin_attempt("d", 5, 0, 9), ReloadDecision::AttemptsExhausted { attempts: 0 });
}

#[test]
fn decisions_and_outcomes_are_reported_as_events() {
    assert!(decision_event("a", ReloadDecision::CooldownSkip { attempts: 1 }, 3).is_none());
    match decision_event("a", ReloadDecision::Proceed { attempt: 1 }, 3) {
        Some(HotReloadEvent::PluginReloadStarted { plugin_name }) => assert_eq!(plugin_name, "a"),
        other => panic!("unexpected event {:?}", other),
    }
    match decision_event("a", ReloadDecision::AttemptsExhausted { attempts: 3 }, 3) {
        Some(HotReloadEvent::PluginReloadFailed { plugin_name, error, attempt, max_attempts }) => {
            assert_eq!(plugin_name, "a");
            assert_eq!(error, "Exceeded maximum restart attempts (3)");
            assert_eq!(attempt, 3);
            assert_eq!(max_attempts, 3);
        }
        other => panic!("unexpected event {:?}", other),
    }

    let ok = outcome_events("a", 1, 3, None, Duration::from_millis(7));
    assert_eq!(ok.len(), 1);
    match &ok[0] {
        HotReloadEvent::PluginReloadCompleted { plugin_name, success, error, duration } => {
            assert_eq!(plugin_name, "a");
            assert!(*success);
            assert!(error.is_none());
            assert_eq!(*duration, Duration::from_millis(7));
        }
        other => panic!("unexpected event {:?}", other),
    }
    let failed = outcome_events("a", 2, 3, Some("boom".to_string()), Duration::from_millis(7));
    assert_eq!(failed.len(), 1);
    match &failed[0] {
        HotReloadEvent::PluginReloadCompleted { success, error, .. } => {
            assert!(!*success);
            assert_eq!(error.as_deref(), Some("boom"));
        }
        other => panic!("unexpected event {:?}", other),
    }
    let last = outcome_events("a", 3, 3, Some("boom".to_string()), Duration::from_millis(7));
    assert_eq!(last.len(), 2);
    match &last[1] {
        HotReloadEvent::PluginReloadFailed { plugin_name, error, attempt, max_attempts } => {
            assert_eq!(plugin_name, "a");
            assert_eq!(error, "Failed to reload after 3 attempts");
            assert_eq!(*attempt, 3);
            assert_eq!(*max_attempts, 3);
        }
        other => panic!("unexpected event {:?}", other),
    }
}

#[test]
fn the_manager_gathers_plans_and_keeps_the_record() {
    let mut manager = HotReloadManager::new(HotReloadConfig::default()).unwrap();
    assert!(!manager.is_running());
    assert!(manager.start().is_ok());
    assert!(manager.is_running());
    match manager.start() {
        Err(e) => assert_eq!(e.message(), "Hot reload manager already running"),
        Ok(()) => panic!("a second start must fail"),
    }

    assert!(!manager.handle_file_event(true, file("/p/a/plugin.wasm"), Some("a")));
    assert!(!manager.handle_file_event(false, file("/p/a/server.log"), Some("a")));
    assert!(!manager.handle_file_event(false, file("/elsewhere/plugin.wasm"), None));
    assert!(manager.handle_file_event(false, file("/p/a/plugin.wasm"), Some("a")));
    assert!(manager.handle_file_event(false, file("/p/a/config.toml"), Some("a")));
    let batches = manager.process_pending_changes();
    assert_eq!(batches.len(), 1);
    assert_eq!(batches[0].files.len(), 2);
    assert!(manager.process_pending_changes().is_empty());
    assert!(matches!(
        manager.handle_plugin_changes(true, &batches[0].files),
        ChangePlan::Reload { .. }
    ));

    assert_eq!(manager.stats(4).restart_attempts, 0);
    assert_eq!(manager.begin_reload("a", 5 * SEC), ReloadDecision::Proceed { attempt: 1 });
    manager.finish_reload("a", false);
    assert_eq!(manager.stats(4).restart_attempts, 1);
    assert_eq!(manager.begin_reload("a", 6 * SEC), ReloadDecision::CooldownSkip { attempts: 1 });
    assert_eq!(manager.begin_reload("a", 10 * SEC), ReloadDecision::Proceed { attempt: 2 });
    manager.finish_reload("a", true);
    assert_eq!(manager.stats(4).restart_attempts, 0);
    // After a success the plugin has no record: its next attempt runs at once.
    assert_eq!(manager.begin_reload("a", 10 * SEC), ReloadDecision::Proceed { attempt: 1 });
    manager.finish_reload("a", true);
    let stats = manager.stats(4);
    assert!(stats.is_running);
    assert_eq!(stats.total_watched_plugins, 4);
    assert_eq!(stats.restart_attempts, 0);
    assert_eq!(stats.max_restart_attempts, 3);
    assert_eq!(stats.restart_cooldown_secs, 5);

    assert!(manager.handle_file_event(false, file("/p/a/plugin.wasm"), Some("a")));
    assert!(manager.stop().is_ok());
    assert!(!manager.is_running());
    assert!(manager.process_pending_changes().is_empty());
    assert!(manager.stop().is_ok());

    let mut config = HotReloadConfig::default();
    config.enabled = false;
    let mut disabled = HotReloadManager::new(config).unwrap();
    assert!(disabled.start().is_ok());
    assert!(!disabled.is_running());
    assert!(!disabled.get_config().enabled);
    assert!(disabled.should_ignore_file(Some("a.bak")));
}

#[test]
fn time_since_last_reload_needs_a_reload() {
    let mut state = PluginHotReloadState::new(false);
    assert!(!state.enabled);
    assert!(state.time_since_last_reload().is_none());
    state.record_reload();
    assert!(state.time_since_last_reload().is_some());
}
