//! Reload policy for plugins whose files change on disk.
//!
//! The host watches the filesystem and runs the reloads. This module decides:
//! which files count, how bursts of changes are batched per plugin, whether a
//! batch warrants a reload, and whether an attempt may run now or has to wait
//! or be given up.

use vstd::prelude::*;
use vstd::string::*;
use std::time::{Duration, Instant};
use crate::error::Error;
use crate::text::{
    chars_of, decimal, decimal_digits, find_last, last_index_of, lemma_names_push, names_of, range_eq,
    str_eq,
};

verus! {

/// How hot reload behaves.
#[derive(Debug, Clone)]
pub struct HotReloadConfig {
    /// Whether hot reload is on.
    pub enabled: bool,
    /// Polling interval of the watcher, in seconds.
    pub poll_interval_secs: u64,
    /// Length of the debounce tick, in milliseconds.
    pub debounce_delay_ms: u64,
    /// Whether a changed configuration file restarts the plugin.
    pub restart_on_config_change: bool,
    /// Whether a changed module file restarts the plugin.
    pub restart_on_wasm_change: bool,
    /// Number of attempts after which reloading is given up.
    pub max_restart_attempts: u32,
    /// Minimum time between two attempts, in seconds.
    pub restart_cooldown_secs: u64,
    /// Directories to watch.
    pub watch_directories: Vec<String>,
    /// File name patterns to watch; empty means all.
    pub watch_patterns: Vec<String>,
    /// File name patterns to ignore.
    pub ignore_patterns: Vec<String>,
}

impl Default for HotReloadConfig {
    fn default() -> (r: Self)
        ensures
            r.enabled,
            r.poll_interval_secs == 1,
            r.debounce_delay_ms == 500,
            r.restart_on_config_change,
            r.restart_on_wasm_change,
            r.max_restart_attempts == 3,
            r.restart_cooldown_secs == 5,
            r.watch_directories@.len() == 1,
            r.watch_directories@[0]@ == "."@,
            r.watch_patterns@.len() == 3,
            r.watch_patterns@[0]@ == "*.wasm"@,
            r.watch_patterns@[1]@ == "*.toml"@,
            r.watch_patterns@[2]@ == "*.json"@,
            r.ignore_patterns@.len() == 3,
            r.ignore_patterns@[0]@ == "*.log"@,
            r.ignore_patterns@[1]@ == "*.tmp"@,
            r.ignore_patterns@[2]@ == "*.bak"@,
    {
        let mut dirs: Vec<String> = Vec::new();
        dirs.push(String::from_str("."));
        let mut watch: Vec<String> = Vec::new();
        watch.push(String::from_str("*.wasm"));
        watch.push(String::from_str("*.toml"));
        watch.push(String::from_str("*.json"));
        let mut ignore: Vec<String> = Vec::new();
        ignore.push(String::from_str("*.log"));
        ignore.push(String::from_str("*.tmp"));
        ignore.push(String::from_str("*.bak"));
        HotReloadConfig {
            enabled: true,
            poll_interval_secs: 1,
            debounce_delay_ms: 500,
            restart_on_config_change: true,
            restart_on_wasm_change: true,
            max_restart_attempts: 3,
            restart_cooldown_secs: 5,
            watch_directories: dirs,
            watch_patterns: watch,
            ignore_patterns: ignore,
        }
    }
}

/// The extension of `name`: what follows its last dot. A name without a
/// dot has none.
pub open spec fn extension_of(name: Seq<char>) -> Option<Seq<char>> {
    match last_index_of(name, '.', name.len() as int) {
        Some(i) => Some(name.subrange(i + 1, name.len() as int)),
        None => None,
    }
}

/// Whether `pattern` has the form `*.ext`.
pub open spec fn is_extension_pattern(pattern: Seq<char>) -> bool {
    pattern.len() >= 2 && pattern[0] == '*' && pattern[1] == '.'
}

/// Whether `filename` matches `pattern`. Three forms of pattern exist: `*`
/// matches every name, `*.ext` matches the names that hold a dot and have
/// `ext` after their last dot, and anything else matches only itself.
pub open spec fn glob_matches(filename: Seq<char>, pattern: Seq<char>) -> bool {
    if pattern == seq!['*'] {
        true
    } else if is_extension_pattern(pattern) {
        extension_of(filename) == Some(pattern.subrange(2, pattern.len() as int))
    } else {
        filename == pattern
    }
}

/// Whether `filename` matches `pattern`; see [`glob_matches`].
pub fn glob_match(filename: &str, pattern: &str) -> (r: bool)
    ensures
        r == glob_matches(filename@, pattern@),
{
    let p = chars_of(pattern);
    let f = chars_of(filename);
    if p.len() == 1 && p[0] == '*' {
        assert(p@ =~= seq!['*']);
        return true;
    }
    if p.len() >= 2 && p[0] == '*' && p[1] == '.' {
        let len: usize = f.len();
        return match find_last(&f, '.') {
            Some(i) => range_eq(&f, i + 1, len, &p, 2, p.len()),
            None => false,
        };
    }
    str_eq(filename, pattern)
}

/// Whether some pattern of `patterns` matches `filename`.
pub open spec fn some_pattern_matches(patterns: Seq<String>, filename: Seq<char>) -> bool {
    exists|i: int| 0 <= i < patterns.len() && glob_matches(filename, (#[trigger] patterns[i])@)
}

fn any_pattern_matches(patterns: &Vec<String>, filename: &str) -> (r: bool)
    ensures
        r == some_pattern_matches(patterns@, filename@),
{
    let mut i: usize = 0;
    while i < patterns.len()
        invariant
            i <= patterns@.len(),
            forall|j: int| 0 <= j < i ==> !glob_matches(filename@, (#[trigger] patterns@[j])@),
        decreases patterns@.len() - i,
    {
        if glob_match(filename, patterns[i].as_str()) {
            return true;
        }
        i = i + 1;
    }
    false
}

impl HotReloadConfig {
    /// Whether a file is left out of consideration: it has a name, and the
    /// name matches an ignore pattern or, where watch patterns are given,
    /// matches none of them. A file without a name is not ignored.
    pub open spec fn ignores(self, file_name: Option<Seq<char>>) -> bool {
        match file_name {
            None => false,
            Some(name) => some_pattern_matches(self.ignore_patterns@, name) || (
            self.watch_patterns@.len() > 0 && !some_pattern_matches(self.watch_patterns@, name)),
        }
    }

    /// Whether the file named `file_name` is left out of consideration; see
    /// [`HotReloadConfig::ignores`].
    pub fn should_ignore_file(&self, file_name: Option<&str>) -> (r: bool)
        ensures
            r == self.ignores(
                match file_name {
                    Some(n) => Some(n@),
                    None => None,
                },
            ),
    {
        match file_name {
            None => false,
            Some(name) => {
                if any_pattern_matches(&self.ignore_patterns, name) {
                    return true;
                }
                if self.watch_patterns.len() > 0 {
                    if !any_pattern_matches(&self.watch_patterns, name) {
                        return true;
                    }
                }
                false
            },
        }
    }
}

/// What the host keeps per plugin about its reloads.
#[derive(Debug)]
pub struct PluginHotReloadState {
    /// Whether hot reload is on for this plugin.
    pub enabled: bool,
    /// When the plugin was last reloaded.
    pub last_reload: Option<Instant>,
    /// Number of reloads, failed ones included.
    pub reload_count: u32,
    /// The error of the last reload, if it failed.
    pub last_error: Option<String>,
    /// The files watched for this plugin.
    pub watched_files: Vec<String>,
}

impl PluginHotReloadState {
    /// A state without reloads.
    pub fn new(enabled: bool) -> (r: Self)
        ensures
            r.enabled == enabled,
            r.last_reload is None,
            r.reload_count == 0,
            r.last_error is None,
            r.watched_files@.len() == 0,
    {
        PluginHotReloadState {
            enabled,
            last_reload: None,
            reload_count: 0,
            last_error: None,
            watched_files: Vec::new(),
        }
    }

    /// Notes a reload that succeeded.
    pub fn record_reload(&mut self)
        requires
            old(self).reload_count < u32::MAX,
        ensures
            final(self).reload_count == old(self).reload_count + 1,
            final(self).last_reload is Some,
            final(self).last_error is None,
            final(self).enabled == old(self).enabled,
            final(self).watched_files == old(self).watched_files,
    {
        self.last_reload = Some(Instant::now());
        self.reload_count = self.reload_count + 1;
        self.last_error = None;
    }

    /// Notes a reload that failed with `error`.
    pub fn record_failed_reload(&mut self, error: String)
        requires
            old(self).reload_count < u32::MAX,
        ensures
            final(self).reload_count == old(self).reload_count + 1,
            final(self).last_reload is Some,
            final(self).last_error == Some(error),
            final(self).enabled == old(self).enabled,
            final(self).watched_files == old(self).watched_files,
    {
        self.last_reload = Some(Instant::now());
        self.reload_count = self.reload_count + 1;
        self.last_error = Some(error);
    }

    /// The time since the last reload, if there was one.
    pub fn time_since_last_reload(&self) -> (r: Option<Duration>)
        ensures
            r is Some <==> self.last_reload is Some,
    {
        match &self.last_reload {
            Some(t) => Some(t.elapsed()),
            None => None,
        }
    }
}

/// Counts that describe a hot reload manager.
#[derive(Debug, Clone)]
pub struct HotReloadManagerStats {
    /// Whether the manager is running.
    pub is_running: bool,
    /// Number of loaded plugins.
    pub total_watched_plugins: usize,
    /// Number of plugins with reload attempts on record.
    pub restart_attempts: usize,
    /// Number of attempts after which reloading is given up.
    pub max_restart_attempts: u32,
    /// Minimum time between two attempts, in seconds.
    pub restart_cooldown_secs: u64,
}

/// The lowercase form of a text, as `str::to_lowercase` gives it.
pub uninterp spec fn lowercase_of(s: Seq<char>) -> Seq<char>;

/// `str::to_lowercase` gives the lowercase form of the slice as a new string.
pub assume_specification[ str::to_lowercase ](s: &str) -> (r: String)
    ensures
        r@ == lowercase_of(s@),
;

/// What a changed file is to its plugin.
#[derive(Debug, Clone, Copy, PartialEq, Eq, Structural)]
pub enum ChangeKind {
    /// The plugin's module.
    Module,
    /// A configuration file.
    Config,
    /// Anything else.
    Other,
}

/// The kind of a file by its extension in lowercase.
pub open spec fn kind_of_lowercase(extension: Seq<char>) -> ChangeKind {
    if extension == "wasm"@ {
        ChangeKind::Module
    } else if extension == "toml"@ || extension == "json"@ {
        ChangeKind::Config
    } else {
        ChangeKind::Other
    }
}

/// The kind of a file by its extension, whatever its case.
pub open spec fn kind_of(extension: Seq<char>) -> ChangeKind {
    kind_of_lowercase(lowercase_of(extension))
}

/// The kind of a file by its extension in lowercase: `wasm` is the module,
/// `toml` and `json` are configuration.
pub fn classify_extension(lowercase_extension: &str) -> (r: ChangeKind)
    ensures
        r == kind_of_lowercase(lowercase_extension@),
{
    if str_eq(lowercase_extension, "wasm") {
        ChangeKind::Module
    } else if str_eq(lowercase_extension, "toml") || str_eq(lowercase_extension, "json") {
        ChangeKind::Config
    } else {
        ChangeKind::Other
    }
}

/// The kind of a file by its extension, whatever its case.
pub fn change_kind(extension: &str) -> (r: ChangeKind)
    ensures
        r == kind_of(extension@),
{
    let lower = extension.to_lowercase();
    classify_extension(lower.as_str())
}

/// A file that changed, in plain values.
#[derive(Debug, Clone)]
pub struct ChangedFile {
    /// The path as the watcher reported it.
    pub path: String,
    /// The last component of the path, if it has one.
    pub file_name: Option<String>,
    /// The extension of the file name, if it has one.
    pub extension: Option<String>,
}

/// The kind of `file`; a file without extension has none.
pub open spec fn file_kind(file: ChangedFile) -> Option<ChangeKind> {
    match file.extension {
        Some(e) => Some(kind_of(e@)),
        None => None,
    }
}

/// Whether some file of `files` is of kind `kind`.
pub open spec fn has_kind(files: Seq<ChangedFile>, kind: ChangeKind) -> bool {
    exists|i: int| 0 <= i < files.len() && file_kind(#[trigger] files[i]) == Some(kind)
}

/// The paths of `files`, in order.
pub open spec fn paths_of(files: Seq<ChangedFile>) -> Seq<Seq<char>> {
    files.map_values(|f: ChangedFile| f.path@)
}

/// The paths of the files of `files` that have an extension and are neither
/// module nor configuration, in order.
pub open spec fn other_paths(files: Seq<ChangedFile>) -> Seq<Seq<char>>
    decreases files.len(),
{
    if files.len() == 0 {
        Seq::empty()
    } else if file_kind(files.last()) == Some(ChangeKind::Other) {
        other_paths(files.drop_last()).push(files.last().path@)
    } else {
        other_paths(files.drop_last())
    }
}

/// Whether a batch of changed files warrants a reload: the module changed
/// and module changes restart, or a configuration file changed and
/// configuration changes restart.
pub open spec fn wants_reload(config: HotReloadConfig, files: Seq<ChangedFile>) -> bool {
    (has_kind(files, ChangeKind::Module) && config.restart_on_wasm_change) || (has_kind(
        files,
        ChangeKind::Config,
    ) && config.restart_on_config_change)
}

/// The reason given for a reload.
pub open spec fn reload_reason(files: Seq<ChangedFile>) -> Seq<char> {
    if has_kind(files, ChangeKind::Module) && has_kind(files, ChangeKind::Config) {
        "WASM and configuration files changed"@
    } else if has_kind(files, ChangeKind::Module) {
        "WASM file changed"@
    } else {
        "Configuration file changed"@
    }
}

/// What to do about a batch of changed files of one plugin.
#[derive(Debug)]
pub enum ChangePlan {
    /// The plugin is not loaded: the batch is dropped.
    UnknownPlugin,
    /// The plugin is to be reloaded, for the reason given.
    Reload { reason: String },
    /// No reload; the paths of the other files that changed are listed.
    NoReload { other_changes: Vec<String> },
}

/// Decides what to do about the batch `files` of a plugin.
pub fn plan_changes(config: &HotReloadConfig, plugin_loaded: bool, files: &Vec<ChangedFile>) -> (r:
    ChangePlan)
    ensures
        !plugin_loaded ==> r is UnknownPlugin,
        plugin_loaded && wants_reload(*config, files@) ==> (r matches ChangePlan::Reload { reason }
            && reason@ == reload_reason(files@)),
        plugin_loaded && !wants_reload(*config, files@) ==> (r matches ChangePlan::NoReload {
            other_changes,
        } && names_of(other_changes@) == other_paths(files@)),
{
    if !plugin_loaded {
        return ChangePlan::UnknownPlugin;
    }
    let mut has_wasm_change = false;
    let mut has_config_change = false;
    let mut other_changes: Vec<String> = Vec::new();
    let mut i: usize = 0;
    assert(files@.take(0) =~= Seq::<ChangedFile>::empty());
    assert(names_of(other_changes@) =~= Seq::<Seq<char>>::empty());
    while i < files.len()
        invariant
            i <= files@.len(),
            has_wasm_change == has_kind(files@.take(i as int), ChangeKind::Module),
            has_config_change == has_kind(files@.take(i as int), ChangeKind::Config),
            names_of(other_changes@) == other_paths(files@.take(i as int)),
        decreases files@.len() - i,
    {
        let ghost before = files@.take(i as int);
        let ghost after = files@.take(i + 1);
        proof {
            assert(after.drop_last() =~= before);
            assert(after.last() == files@[i as int]);
            assert forall|k: ChangeKind| has_kind(after, k) == (has_kind(before, k) || file_kind(
                files@[i as int],
            ) == Some(k)) by {
                if has_kind(before, k) {
                    let j = choose|j: int| 0 <= j < before.len() && file_kind(#[trigger] before[j]) == Some(k);
                    assert(after[j] == before[j]);
                }
                if file_kind(files@[i as int]) == Some(k) {
                    assert(file_kind(after[i as int]) == Some(k));
                }
                if has_kind(after, k) {
                    let j = choose|j: int| 0 <= j < after.len() && file_kind(#[trigger] after[j]) == Some(k);
                    if j < i {
                        assert(before[j] == after[j]);
                    }
                }
            }
        }
        match &files[i].extension {
            Some(extension) => {
                match change_kind(extension.as_str()) {
                    ChangeKind::Module => {
                        has_wasm_change = true;
                    },
                    ChangeKind::Config => {
                        has_config_change = true;
                    },
                    ChangeKind::Other => {
                        let path = files[i].path.clone();
                        proof {
                            lemma_names_push(other_changes@, path);
                        }
                        other_changes.push(path);
                    },
                }
            },
            None => {},
        }
        i = i + 1;
    }
    assert(files@.take(i as int) =~= files@);
    let should_reload = (has_wasm_change && config.restart_on_wasm_change) || (has_config_change
        && config.restart_on_config_change);
    if should_reload {
        let reason = if has_wasm_change && has_config_change {
            String::from_str("WASM and configuration files changed")
        } else if has_wasm_change {
            String::from_str("WASM file changed")
        } else {
            String::from_str("Configuration file changed")
        };
        ChangePlan::Reload { reason }
    } else {
        ChangePlan::NoReload { other_changes }
    }
}

/// The changed files of one plugin, gathered since the last tick.
#[derive(Debug)]
pub struct PluginChanges {
    /// The plugin the files belong to.
    pub plugin_name: String,
    /// The files, in the order in which they were reported.
    pub files: Vec<ChangedFile>,
}

/// Whether no two batches of `batches` are for the same plugin.
pub open spec fn distinct_plugins(batches: Seq<PluginChanges>) -> bool {
    forall|i: int, j: int|
        0 <= i < j < batches.len() ==> (#[trigger] batches[i]).plugin_name@ != (
        #[trigger] batches[j]).plugin_name@
}

/// The position of the batch of `plugin` in `batches`, if it has one.
pub open spec fn batch_position(batches: Seq<PluginChanges>, plugin: Seq<char>) -> Option<int> {
    if exists|i: int| 0 <= i < batches.len() && (#[trigger] batches[i]).plugin_name@ == plugin {
        Some(choose|i: int| 0 <= i < batches.len() && (#[trigger] batches[i]).plugin_name@ == plugin)
    } else {
        None
    }
}

/// The files gathered for `plugin` in `batches`.
pub open spec fn files_for(batches: Seq<PluginChanges>, plugin: Seq<char>) -> Seq<ChangedFile> {
    match batch_position(batches, plugin) {
        Some(i) => batches[i].files@,
        None => Seq::empty(),
    }
}

/// Whether `after` is `before` with `file` added for `plugin`: appended to
/// the plugin's batch where it has one, else as a new batch at the end.
pub open spec fn recorded(
    before: Seq<PluginChanges>,
    after: Seq<PluginChanges>,
    plugin: Seq<char>,
    file: ChangedFile,
) -> bool {
    match batch_position(before, plugin) {
        Some(i) => {
            &&& after.len() == before.len()
            &&& forall|j: int| 0 <= j < before.len() && j != i ==> after[j] == before[j]
            &&& after[i].plugin_name@ == plugin
            &&& after[i].files@ == before[i].files@.push(file)
        },
        None => {
            &&& after.len() == before.len() + 1
            &&& after.drop_last() == before
            &&& after.last().plugin_name@ == plugin
            &&& after.last().files@ == seq![file]
        },
    }
}

/// Changes that arrive between two ticks are gathered into one batch per
/// plugin: after two files were recorded for a plugin, it has exactly one
/// batch, which lists what it listed before and then both files.
pub proof fn lemma_changes_coalesce(
    s0: Seq<PluginChanges>,
    s1: Seq<PluginChanges>,
    s2: Seq<PluginChanges>,
    plugin: Seq<char>,
    first: ChangedFile,
    second: ChangedFile,
)
    requires
        distinct_plugins(s0),
        recorded(s0, s1, plugin, first),
        recorded(s1, s2, plugin, second),
    ensures
        distinct_plugins(s2),
        s2.len() == s1.len(),
        batch_position(s2, plugin) is Some,
        files_for(s2, plugin) == files_for(s0, plugin).push(first).push(second),
        forall|i: int, j: int|
            0 <= i < s2.len() && 0 <= j < s2.len() && s2[i].plugin_name@ == plugin
                && s2[j].plugin_name@ == plugin ==> i == j,
{
    lemma_recorded_keeps_distinct(s0, s1, plugin, first);
    lemma_recorded_keeps_distinct(s1, s2, plugin, second);
    let i1 = batch_position(s1, plugin)->0;
    assert(s1[i1].files@ == files_for(s0, plugin).push(first)) by {
        match batch_position(s0, plugin) {
            Some(i) => {
                assert(s1[i].plugin_name@ == plugin);
            },
            None => {
                assert(s1.last().plugin_name@ == plugin);
                assert(seq![first] =~= Seq::<ChangedFile>::empty().push(first));
            },
        }
    }
    assert(s2[i1].plugin_name@ == plugin);
}

/// Recording keeps the batches distinct and leaves the plugin with a batch.
pub proof fn lemma_recorded_keeps_distinct(
    before: Seq<PluginChanges>,
    after: Seq<PluginChanges>,
    plugin: Seq<char>,
    file: ChangedFile,
)
    requires
        distinct_plugins(before),
        recorded(before, after, plugin, file),
    ensures
        distinct_plugins(after),
        batch_position(after, plugin) is Some,
        after[batch_position(after, plugin)->0].files@ == files_for(before, plugin).push(file),
{
    match batch_position(before, plugin) {
        Some(i) => {
            assert(after[i].plugin_name@ == plugin);
            assert forall|a: int, b: int| 0 <= a < b < after.len() implies (#[trigger] after[a]).plugin_name@
                != (#[trigger] after[b]).plugin_name@ by {
                assert(before[a].plugin_name@ != before[b].plugin_name@);
                assert(after[a].plugin_name@ == before[a].plugin_name@);
                assert(after[b].plugin_name@ == before[b].plugin_name@);
            }
            let k = batch_position(after, plugin)->0;
            if k != i {
                if k < i {
                    assert(after[k].plugin_name@ != after[i].plugin_name@);
                } else {
                    assert(after[i].plugin_name@ != after[k].plugin_name@);
                }
            }
        },
        None => {
            let n = before.len() as int;
            assert(after[n] == after.last());
            assert forall|a: int| 0 <= a < n implies (#[trigger] after[a]).plugin_name@ != plugin by {
                assert(after[a] == after.drop_last()[a]);
                assert(before[a].plugin_name@ != plugin);
            }
            assert forall|a: int, b: int| 0 <= a < b < after.len() implies (#[trigger] after[a]).plugin_name@
                != (#[trigger] after[b]).plugin_name@ by {
                assert(after[a] == after.drop_last()[a]);
                if b < n {
                    assert(after[b] == after.drop_last()[b]);
                    assert(before[a].plugin_name@ != before[b].plugin_name@);
                }
            }
            let k = batch_position(after, plugin)->0;
            assert(k == n);
            assert(seq![file] =~= Seq::<ChangedFile>::empty().push(file));
        },
    }
}

/// The changes gathered since the last tick, one batch per plugin.
#[derive(Debug)]
pub struct PendingChanges {
    batches: Vec<PluginChanges>,
}

impl View for PendingChanges {
    type V = Seq<PluginChanges>;

    closed spec fn view(&self) -> Seq<PluginChanges> {
        self.batches@
    }
}

impl PendingChanges {
    /// No two batches are for the same plugin.
    pub open spec fn wf(&self) -> bool {
        distinct_plugins(self@)
    }

    /// Nothing gathered.
    pub fn new() -> (r: Self)
        ensures
            r@.len() == 0,
            r.wf(),
    {
        PendingChanges { batches: Vec::new() }
    }

    /// Whether nothing is gathered.
    pub fn is_empty(&self) -> (r: bool)
        ensures
            r == (self@.len() == 0),
    {
        self.batches.len() == 0
    }

    fn find(&self, plugin: &str) -> (r: Option<usize>)
        requires
            self.wf(),
        ensures
            match r {
                Some(i) => batch_position(self@, plugin@) == Some(i as int) && i < self@.len()
                    && self@[i as int].plugin_name@ == plugin@,
                None => batch_position(self@, plugin@) is None,
            },
    {
        let mut i: usize = 0;
        while i < self.batches.len()
            invariant
                self.wf(),
                i <= self@.len(),
                forall|j: int| 0 <= j < i ==> (#[trigger] self@[j]).plugin_name@ != plugin@,
            decreases self@.len() - i,
        {
            if str_eq(self.batches[i].plugin_name.as_str(), plugin) {
                proof {
                    let k = batch_position(self@, plugin@)->0;
                    if k < i {
                        assert(self@[k].plugin_name@ != plugin@);
                    } else if k > i {
                        assert(self@[i as int].plugin_name@ != self@[k].plugin_name@);
                    }
                }
                return Some(i);
            }
            i = i + 1;
        }
        None
    }

    /// Adds `file` to what is gathered for `plugin`.
    pub fn record(&mut self, plugin: &str, file: ChangedFile)
        requires
            old(self).wf(),
        ensures
            final(self).wf(),
            recorded(old(self)@, final(self)@, plugin@, file),
    {
        match self.find(plugin) {
            Some(i) => {
                let mut batch = self.batches.remove(i);
                batch.files.push(file);
                self.batches.insert(i, batch);
                assert(self@[i as int].files@ == old(self)@[i as int].files@.push(file));
            },
            None => {
                let mut files: Vec<ChangedFile> = Vec::new();
                files.push(file);
                let batch = PluginChanges { plugin_name: String::from_str(plugin), files };
                self.batches.push(batch);
                assert(self@.drop_last() =~= old(self)@);
                assert(self@.last().files@ =~= seq![file]);
            },
        }
        proof {
            lemma_recorded_keeps_distinct(old(self)@, self@, plugin@, file);
        }
    }

    /// Hands out everything gathered, in the order in which the plugins
    /// first appeared, and starts afresh.
    pub fn drain(&mut self) -> (r: Vec<PluginChanges>)
        ensures
            r@ == old(self)@,
            final(self)@.len() == 0,
            final(self).wf(),
    {
        let mut out: Vec<PluginChanges> = Vec::new();
        std::mem::swap(&mut self.batches, &mut out);
        out
    }
}

/// The number of nanoseconds in one second.
pub const NANOS_PER_SEC: u64 = 1000000000;

/// What is decided about an attempt to reload a plugin.
#[derive(Debug, Clone, Copy, PartialEq, Eq, Structural)]
pub enum ReloadDecision {
    /// Too soon after the last attempt: not run, not counted.
    CooldownSkip { attempts: u32 },
    /// The attempts are used up: not run, and reported as a failure.
    AttemptsExhausted { attempts: u32 },
    /// The attempt runs and is counted as number `attempt`.
    Proceed { attempt: u32 },
}

/// Whether a time `now_ns` still lies within the cooldown that follows
/// `last_ns`. A clock that went backwards counts as no time passed.
pub open spec fn in_cooldown(last_ns: u64, now_ns: u64, cooldown_secs: u64) -> bool {
    let elapsed: int = if now_ns >= last_ns {
        now_ns - last_ns
    } else {
        0
    };
    elapsed < cooldown_secs * NANOS_PER_SEC
}

/// What is decided about an attempt at `now_ns` for a plugin with the
/// record `record`: the attempts counted so far and the time of the last
/// one that ran. An attempt within the cooldown of the last one is
/// skipped; otherwise, with the attempts used up, it is given up; otherwise
/// it runs. A plugin without record has no last attempt to wait for.
pub open spec fn decide(
    record: Option<(u32, u64)>,
    now_ns: u64,
    max_attempts: u32,
    cooldown_secs: u64,
) -> ReloadDecision {
    match record {
        Some((attempts, last_ns)) => if in_cooldown(last_ns, now_ns, cooldown_secs) {
            ReloadDecision::CooldownSkip { attempts }
        } else if attempts >= max_attempts {
            ReloadDecision::AttemptsExhausted { attempts }
        } else {
            ReloadDecision::Proceed { attempt: (attempts + 1) as u32 }
        },
        None => if max_attempts == 0 {
            ReloadDecision::AttemptsExhausted { attempts: 0 }
        } else {
            ReloadDecision::Proceed { attempt: 1 }
        },
    }
}

/// The record once `decision` was taken at `now_ns`: an attempt that runs
/// is counted and its time noted; any other decision leaves the record as
/// it is.
pub open spec fn after_decision(
    record: Option<(u32, u64)>,
    now_ns: u64,
    decision: ReloadDecision,
) -> Option<(u32, u64)> {
    match decision {
        ReloadDecision::Proceed { attempt } => Some((attempt, now_ns)),
        _ => record,
    }
}

/// An attempt made less than the cooldown after an attempt that was not
/// itself put off by the cooldown does not run and is not counted: after
/// an attempt that ran it is skipped, and after one that was given up it
/// is given up again.
pub proof fn lemma_attempt_within_cooldown_is_skipped(
    record: Option<(u32, u64)>,
    first_ns: u64,
    second_ns: u64,
    max_attempts: u32,
    cooldown_secs: u64,
)
    requires
        first_ns <= second_ns,
        second_ns - first_ns < cooldown_secs * NANOS_PER_SEC,
        !(decide(record, first_ns, max_attempts, cooldown_secs) is CooldownSkip),
    ensures
        ({
            let d1 = decide(record, first_ns, max_attempts, cooldown_secs);
            let s1 = after_decision(record, first_ns, d1);
            let d2 = decide(s1, second_ns, max_attempts, cooldown_secs);
            let s2 = after_decision(s1, second_ns, d2);
            &&& !(d2 is Proceed)
            &&& s2 == s1
            &&& d1 matches ReloadDecision::Proceed { attempt } ==> d2 == (ReloadDecision::CooldownSkip {
                attempts: attempt,
            })
        }),
{
}

/// The first attempt for a plugin without record runs and counts as
/// attempt 1, unless no attempt is allowed at all.
pub proof fn lemma_first_attempt_runs(now_ns: u64, max_attempts: u32, cooldown_secs: u64)
    requires
        max_attempts >= 1,
    ensures
        decide(None, now_ns, max_attempts, cooldown_secs) == (ReloadDecision::Proceed { attempt: 1 }),
        after_decision(None, now_ns, decide(None, now_ns, max_attempts, cooldown_secs)) == Some(
            (1u32, now_ns),
        ),
{
}

/// The reload attempts on record for one plugin.
#[derive(Debug)]
pub struct RestartEntry {
    /// The plugin.
    pub plugin_name: String,
    /// Number of attempts that ran since the last success.
    pub attempts: u32,
    /// Time of the last attempt that ran, in nanoseconds of the host's
    /// monotonic clock.
    pub last_attempt_ns: u64,
}

/// The reload attempts on record, one entry per plugin.
#[derive(Debug)]
pub struct RestartTracker {
    entries: Vec<RestartEntry>,
}

impl View for RestartTracker {
    type V = Seq<RestartEntry>;

    closed spec fn view(&self) -> Seq<RestartEntry> {
        self.entries@
    }
}

/// The position of the entry of `plugin` in `entries`, if it has one.
pub open spec fn entry_position(entries: Seq<RestartEntry>, plugin: Seq<char>) -> Option<int> {
    if exists|i: int| 0 <= i < entries.len() && (#[trigger] entries[i]).plugin_name@ == plugin {
        Some(choose|i: int| 0 <= i < entries.len() && (#[trigger] entries[i]).plugin_name@ == plugin)
    } else {
        None
    }
}

impl RestartTracker {
    /// No two entries are for the same plugin.
    pub open spec fn wf(&self) -> bool {
        forall|i: int, j: int|
            0 <= i < j < self@.len() ==> (#[trigger] self@[i]).plugin_name@ != (
            #[trigger] self@[j]).plugin_name@
    }

    /// The attempts counted for `plugin` and the time of the last one that
    /// ran, if any are on record.
    pub open spec fn record_of(&self, plugin: Seq<char>) -> Option<(u32, u64)> {
        match entry_position(self@, plugin) {
            Some(i) => Some((self@[i].attempts, self@[i].last_attempt_ns)),
            None => None,
        }
    }

    /// Whether `self` is `before` with the record of `plugin` set to
    /// `record`: an entry that exists is changed in place, one that is
    /// missing is added at the end, and without a record nothing changes.
    pub open spec fn updated(&self, before: &RestartTracker, plugin: Seq<char>, record: Option<(u32, u64)>) -> bool {
        match record {
            None => self@ == before@,
            Some(state) => match entry_position(before@, plugin) {
                Some(i) => {
                    &&& self@.len() == before@.len()
                    &&& forall|j: int| 0 <= j < before@.len() && j != i ==> self@[j] == before@[j]
                    &&& self@[i].plugin_name@ == plugin
                    &&& self@[i].attempts == state.0
                    &&& self@[i].last_attempt_ns == state.1
                },
                None => {
                    &&& self@.len() == before@.len() + 1
                    &&& self@.drop_last() == before@
                    &&& self@.last().plugin_name@ == plugin
                    &&& self@.last().attempts == state.0
                    &&& self@.last().last_attempt_ns == state.1
                },
            },
        }
    }

    /// No attempts on record.
    pub fn new() -> (r: Self)
        ensures
            r@.len() == 0,
            r.wf(),
    {
        RestartTracker { entries: Vec::new() }
    }

    /// The number of plugins with attempts on record.
    pub fn len(&self) -> (r: usize)
        ensures
            r == self@.len(),
    {
        self.entries.len()
    }

    fn find(&self, plugin: &str) -> (r: Option<usize>)
        requires
            self.wf(),
        ensures
            match r {
                Some(i) => entry_position(self@, plugin@) == Some(i as int) && i < self@.len()
                    && self@[i as int].plugin_name@ == plugin@,
                None => entry_position(self@, plugin@) is None,
            },
    {
        let mut i: usize = 0;
        while i < self.entries.len()
            invariant
                self.wf(),
                i <= self@.len(),
                forall|j: int| 0 <= j < i ==> (#[trigger] self@[j]).plugin_name@ != plugin@,
            decreases self@.len() - i,
        {
            if str_eq(self.entries[i].plugin_name.as_str(), plugin) {
                proof {
                    let k = entry_position(self@, plugin@)->0;
                    if k < i {
                        assert(self@[k].plugin_name@ != plugin@);
                    } else if k > i {
                        assert(self@[i as int].plugin_name@ != self@[k].plugin_name@);
                    }
                }
                return Some(i);
            }
            i = i + 1;
        }
        None
    }

    /// The attempts counted for `plugin` and the time of the last one, if
    /// any are on record.
    pub fn attempts_of(&self, plugin: &str) -> (r: Option<(u32, u64)>)
        requires
            self.wf(),
        ensures
            r == self.record_of(plugin@),
    {
        match self.find(plugin) {
            Some(i) => Some((self.entries[i].attempts, self.entries[i].last_attempt_ns)),
            None => None,
        }
    }

    /// Decides about an attempt to reload `plugin` at `now_ns` and keeps
    /// the record: an attempt within the cooldown of the last one is
    /// skipped; otherwise, with the attempts used up, it is given up;
    /// otherwise it runs, is counted, and its time is noted. The first
    /// attempt for a plugin has no last one to wait for.
    pub fn begin_attempt(
        &mut self,
        plugin: &str,
        now_ns: u64,
        max_attempts: u32,
        cooldown_secs: u64,
    ) -> (r: ReloadDecision)
        requires
            old(self).wf(),
        ensures
            final(self).wf(),
            r == decide(old(self).record_of(plugin@), now_ns, max_attempts, cooldown_secs),
            final(self).updated(
                old(self),
                plugin@,
                after_decision(old(self).record_of(plugin@), now_ns, r),
            ),
    {
        let found = self.find(plugin);
        let decision = match found {
            Some(i) => {
                let attempts: u32 = self.entries[i].attempts;
                let last_ns: u64 = self.entries[i].last_attempt_ns;
                let elapsed: u64 = if now_ns >= last_ns {
                    now_ns - last_ns
                } else {
                    0
                };
                if (elapsed as u128) < (cooldown_secs as u128) * (NANOS_PER_SEC as u128) {
                    ReloadDecision::CooldownSkip { attempts }
                } else if attempts >= max_attempts {
                    ReloadDecision::AttemptsExhausted { attempts }
                } else {
                    ReloadDecision::Proceed { attempt: attempts + 1 }
                }
            },
            None => {
                if max_attempts == 0 {
                    ReloadDecision::AttemptsExhausted { attempts: 0 }
                } else {
                    ReloadDecision::Proceed { attempt: 1 }
                }
            },
        };
        match decision {
            ReloadDecision::Proceed { attempt } => {
                match found {
                    Some(i) => {
                        let old_entry = self.entries.remove(i);
                        let entry = RestartEntry {
                            plugin_name: old_entry.plugin_name,
                            attempts: attempt,
                            last_attempt_ns: now_ns,
                        };
                        self.entries.insert(i, entry);
                        assert forall|a: int, b: int| 0 <= a < b < self@.len() implies (
                        #[trigger] self@[a]).plugin_name@ != (#[trigger] self@[b]).plugin_name@ by {
                            assert(old(self)@[a].plugin_name@ != old(self)@[b].plugin_name@);
                            assert(self@[a].plugin_name@ == old(self)@[a].plugin_name@);
                            assert(self@[b].plugin_name@ == old(self)@[b].plugin_name@);
                        }
                    },
                    None => {
                        let entry = RestartEntry {
                            plugin_name: String::from_str(plugin),
                            attempts: attempt,
                            last_attempt_ns: now_ns,
                        };
                        self.entries.push(entry);
                        assert(self@.drop_last() =~= old(self)@);
                        assert forall|a: int, b: int| 0 <= a < b < self@.len() implies (
                        #[trigger] self@[a]).plugin_name@ != (#[trigger] self@[b]).plugin_name@ by {
                            assert(self@[a] == old(self)@[a]);
                            if b < old(self)@.len() {
                                assert(self@[b] == old(self)@[b]);
                            }
                        }
                    },
                }
            },
            _ => {
                proof {
                    if found is Some {
                        let i = found->0 as int;
                        assert(self@[i].plugin_name@ == plugin@);
                    }
                }
            },
        }
        decision
    }

    /// Forgets the attempts of `plugin`, as after a reload that succeeded.
    pub fn reset(&mut self, plugin: &str)
        requires
            old(self).wf(),
        ensures
            final(self).wf(),
            match entry_position(old(self)@, plugin@) {
                Some(i) => final(self)@ == old(self)@.remove(i),
                None => final(self)@ == old(self)@,
            },
            entry_position(final(self)@, plugin@) is None,
    {
        match self.find(plugin) {
            Some(i) => {
                let _ = self.entries.remove(i);
                assert forall|j: int| 0 <= j < self@.len() implies (#[trigger] self@[j]).plugin_name@
                    != plugin@ by {
                    if j < i {
                        assert(self@[j] == old(self)@[j]);
                        assert(old(self)@[j].plugin_name@ != old(self)@[i as int].plugin_name@);
                    } else {
                        assert(self@[j] == old(self)@[j + 1]);
                        assert(old(self)@[i as int].plugin_name@ != old(self)@[j + 1].plugin_name@);
                    }
                }
            },
            None => {},
        }
    }
}

/// What the reload machinery reports to the host.
#[derive(Debug, Clone)]
pub enum HotReloadEvent {
    /// A file changed.
    FileChanged { path: String, event_kind: String },
    /// A batch of changes warrants a reload.
    PluginReloadRequired { plugin_name: String, reason: String, changed_files: Vec<String> },
    /// A reload is about to run.
    PluginReloadStarted { plugin_name: String },
    /// A reload has run.
    PluginReloadCompleted { plugin_name: String, success: bool, error: Option<String>, duration: Duration },
    /// Reloading was given up.
    PluginReloadFailed { plugin_name: String, error: String, attempt: u32, max_attempts: u32 },
    /// Hot reload is off for a plugin.
    HotReloadDisabled { plugin_name: String },
}

/// The text that reports that the attempts are used up.
pub open spec fn exhausted_text(max_attempts: u32) -> Seq<char> {
    "Exceeded maximum restart attempts ("@ + decimal_digits(max_attempts as nat) + ")"@
}

/// The text that reports that the last attempt has failed.
pub open spec fn gave_up_text(attempt: u32) -> Seq<char> {
    "Failed to reload after "@ + decimal_digits(attempt as nat) + " attempts"@
}

/// The event that announces a reload of `plugin_name` for `reason`, listing
/// the paths of `files`.
pub fn reload_required_event(plugin_name: &str, reason: String, files: &Vec<ChangedFile>) -> (r:
    HotReloadEvent)
    ensures
        r matches HotReloadEvent::PluginReloadRequired { plugin_name: p, reason: q, changed_files }
            && p@ == plugin_name@ && q == reason && names_of(changed_files@) == paths_of(files@),
{
    let mut paths: Vec<String> = Vec::new();
    let mut i: usize = 0;
    assert(names_of(paths@) =~= paths_of(files@.take(0)));
    while i < files.len()
        invariant
            i <= files@.len(),
            names_of(paths@) == paths_of(files@.take(i as int)),
        decreases files@.len() - i,
    {
        let path = files[i].path.clone();
        proof {
            lemma_names_push(paths@, path);
            assert(paths_of(files@.take(i + 1)) =~= paths_of(files@.take(i as int)).push(path@));
        }
        paths.push(path);
        i = i + 1;
    }
    assert(files@.take(i as int) =~= files@);
    HotReloadEvent::PluginReloadRequired {
        plugin_name: String::from_str(plugin_name),
        reason,
        changed_files: paths,
    }
}

/// The event that goes with a decision: a start for an attempt that runs,
/// a failure for one that is given up, none for one that is skipped.
pub fn decision_event(plugin_name: &str, decision: ReloadDecision, max_attempts: u32) -> (r: Option<
    HotReloadEvent,
>)
    ensures
        match decision {
            ReloadDecision::CooldownSkip { .. } => r is None,
            ReloadDecision::AttemptsExhausted { attempts } => (r matches Some(
                HotReloadEvent::PluginReloadFailed { plugin_name: p, error, attempt, max_attempts: m },
            ) && p@ == plugin_name@ && error@ == exhausted_text(max_attempts) && attempt == attempts
                && m == max_attempts),
            ReloadDecision::Proceed { .. } => (r matches Some(
                HotReloadEvent::PluginReloadStarted { plugin_name: p },
            ) && p@ == plugin_name@),
        },
{
    match decision {
        ReloadDecision::CooldownSkip { .. } => None,
        ReloadDecision::AttemptsExhausted { attempts } => {
            let mut error = String::from_str("Exceeded maximum restart attempts (");
            let digits = decimal(max_attempts as u64);
            error.append(digits.as_str());
            error.append(")");
            Some(
                HotReloadEvent::PluginReloadFailed {
                    plugin_name: String::from_str(plugin_name),
                    error,
                    attempt: attempts,
                    max_attempts,
                },
            )
        },
        ReloadDecision::Proceed { .. } => Some(
            HotReloadEvent::PluginReloadStarted { plugin_name: String::from_str(plugin_name) },
        ),
    }
}

/// Whether `event` reports that a reload of `plugin` has run, with the
/// given outcome.
pub open spec fn is_completed(
    event: HotReloadEvent,
    plugin: Seq<char>,
    failure: Option<Seq<char>>,
    duration: Duration,
) -> bool {
    event matches HotReloadEvent::PluginReloadCompleted { plugin_name, success, error, duration: d }
        && plugin_name@ == plugin && success == (failure is None) && d == duration && match error {
        Some(e) => failure == Some(e@),
        None => failure is None,
    }
}

/// The events that report how attempt number `attempt` ended: always that
/// it has run; after a failure with the attempts used up, also that
/// reloading is given up.
pub fn outcome_events(
    plugin_name: &str,
    attempt: u32,
    max_attempts: u32,
    failure: Option<String>,
    duration: Duration,
) -> (r: Vec<HotReloadEvent>)
    ensures
        r@.len() == if failure is Some && attempt >= max_attempts {
            2int
        } else {
            1int
        },
        is_completed(
            r@[0],
            plugin_name@,
            match failure {
                Some(e) => Some(e@),
                None => None,
            },
            duration,
        ),
        r@.len() == 2 ==> (r@[1] matches HotReloadEvent::PluginReloadFailed {
            plugin_name: p,
            error,
            attempt: a,
            max_attempts: m,
        } && p@ == plugin_name@ && error@ == gave_up_text(attempt) && a == attempt && m
            == max_attempts),
{
    let mut out: Vec<HotReloadEvent> = Vec::new();
    match failure {
        None => {
            out.push(
                HotReloadEvent::PluginReloadCompleted {
                    plugin_name: String::from_str(plugin_name),
                    success: true,
                    error: None,
                    duration,
                },
            );
        },
        Some(e) => {
            out.push(
                HotReloadEvent::PluginReloadCompleted {
                    plugin_name: String::from_str(plugin_name),
                    success: false,
                    error: Some(e),
                    duration,
                },
            );
            if attempt >= max_attempts {
                let mut error = String::from_str("Failed to reload after ");
                let digits = decimal(attempt as u64);
                error.append(digits.as_str());
                error.append(" attempts");
                out.push(
                    HotReloadEvent::PluginReloadFailed {
                        plugin_name: String::from_str(plugin_name),
                        error,
                        attempt,
                        max_attempts,
                    },
                );
            }
        },
    }
    out
}

/// The deciding half of hot reload. The host feeds it file changes, ticks
/// and clock readings, and carries out what it decides.
#[derive(Debug)]
pub struct HotReloadManager {
    config: HotReloadConfig,
    pending: PendingChanges,
    attempts: RestartTracker,
    running: bool,
}

impl HotReloadManager {
    /// The configuration.
    pub closed spec fn config(&self) -> HotReloadConfig {
        self.config
    }

    /// The changes gathered since the last tick.
    pub closed spec fn pending(&self) -> PendingChanges {
        self.pending
    }

    /// The reload attempts on record.
    pub closed spec fn attempts(&self) -> RestartTracker {
        self.attempts
    }

    /// Whether the manager is running.
    pub closed spec fn running(&self) -> bool {
        self.running
    }

    /// What is gathered and what is on record are both well formed.
    pub open spec fn wf(&self) -> bool {
        self.pending().wf() && self.attempts().wf()
    }

    /// A manager that is not running, with nothing gathered and no attempts on record.
    pub fn new(config: HotReloadConfig) -> (r: Result<Self, Error>)
        ensures
            r matches Ok(m) && m.config() == config && !m.running() && m.pending()@.len() == 0
                && m.attempts()@.len() == 0 && m.wf(),
    {
        Ok(
            HotReloadManager {
                config,
                pending: PendingChanges::new(),
                attempts: RestartTracker::new(),
                running: false,
            },
        )
    }

    /// Starts the manager. Fails if it runs already. Where hot reload is
    /// off, succeeds without running.
    pub fn start(&mut self) -> (r: Result<(), Error>)
        ensures
            final(self).config() == old(self).config(),
            final(self).pending() == old(self).pending(),
            final(self).attempts() == old(self).attempts(),
            old(self).running() ==> (r matches Err(Error::Runtime(m)) && m@
                == "Hot reload manager already running"@) && final(self).running(),
            !old(self).running() ==> r is Ok && final(self).running() == old(self).config().enabled,
    {
        if self.running {
            return Err(Error::Runtime(String::from_str("Hot reload manager already running")));
        }
        if !self.config.enabled {
            return Ok(());
        }
        self.running = true;
        Ok(())
    }

    /// Stops the manager. What was gathered and not yet handed out is dropped.
    pub fn stop(&mut self) -> (r: Result<(), Error>)
        requires
            old(self).wf(),
        ensures
            r is Ok,
            final(self).wf(),
            !final(self).running(),
            final(self).config() == old(self).config(),
            final(self).attempts() == old(self).attempts(),
            old(self).running() ==> final(self).pending()@.len() == 0,
            !old(self).running() ==> final(self).pending() == old(self).pending(),
    {
        if !self.running {
            return Ok(());
        }
        let _ = self.pending.drain();
        self.running = false;
        Ok(())
    }

    /// Whether the manager is running.
    pub fn is_running(&self) -> (r: bool)
        ensures
            r == self.running(),
    {
        self.running
    }

    /// The configuration.
    pub fn get_config(&self) -> (r: &HotReloadConfig)
        ensures
            *r == self.config(),
    {
        &self.config
    }

    /// Whether the file named `file_name` is left out of consideration.
    pub fn should_ignore_file(&self, file_name: Option<&str>) -> (r: bool)
        ensures
            r == self.config().ignores(
                match file_name {
                    Some(n) => Some(n@),
                    None => None,
                },
            ),
    {
        self.config.should_ignore_file(file_name)
    }

    /// Takes note of one changed file. The file is gathered for the plugin
    /// that owns it unless the event only reports an access, the file is
    /// ignored, or no plugin owns it. Returns whether it was gathered.
    pub fn handle_file_event(&mut self, access_only: bool, file: ChangedFile, owner: Option<&str>) -> (r:
        bool)
        requires
            old(self).wf(),
        ensures
            final(self).wf(),
            final(self).config() == old(self).config(),
            final(self).attempts() == old(self).attempts(),
            final(self).running() == old(self).running(),
            r == (!access_only && owner is Some && !old(self).config().ignores(
                match file.file_name {
                    Some(n) => Some(n@),
                    None => None,
                },
            )),
            r ==> recorded(old(self).pending()@, final(self).pending()@, owner->0@, file),
            !r ==> final(self).pending() == old(self).pending(),
    {
        if access_only {
            return false;
        }
        let ignored = match &file.file_name {
            Some(n) => self.config.should_ignore_file(Some(n.as_str())),
            None => self.config.should_ignore_file(None),
        };
        if ignored {
            return false;
        }
        match owner {
            Some(plugin) => {
                self.pending.record(plugin, file);
                true
            },
            None => false,
        }
    }

    /// Hands out the batches gathered since the last tick and starts afresh.
    pub fn process_pending_changes(&mut self) -> (r: Vec<PluginChanges>)
        requires
            old(self).wf(),
        ensures
            final(self).wf(),
            r@ == old(self).pending()@,
            final(self).pending()@.len() == 0,
            final(self).config() == old(self).config(),
            final(self).attempts() == old(self).attempts(),
            final(self).running() == old(self).running(),
    {
        self.pending.drain()
    }

    /// Decides what to do about the batch `files` of a plugin.
    pub fn handle_plugin_changes(&self, plugin_loaded: bool, files: &Vec<ChangedFile>) -> (r: ChangePlan)
        ensures
            !plugin_loaded ==> r is UnknownPlugin,
            plugin_loaded && wants_reload(self.config(), files@) ==> (r matches ChangePlan::Reload {
                reason,
            } && reason@ == reload_reason(files@)),
            plugin_loaded && !wants_reload(self.config(), files@) ==> (r matches ChangePlan::NoReload {
                other_changes,
            } && names_of(other_changes@) == other_paths(files@)),
    {
        plan_changes(&self.config, plugin_loaded, files)
    }

    /// Decides about an attempt to reload `plugin` at `now_ns`, by the
    /// configured cooldown and number of attempts, and keeps the record.
    pub fn begin_reload(&mut self, plugin: &str, now_ns: u64) -> (r: ReloadDecision)
        requires
            old(self).wf(),
        ensures
            final(self).wf(),
            final(self).config() == old(self).config(),
            final(self).pending() == old(self).pending(),
            final(self).running() == old(self).running(),
            r == decide(
                old(self).attempts().record_of(plugin@),
                now_ns,
                old(self).config().max_restart_attempts,
                old(self).config().restart_cooldown_secs,
            ),
            final(self).attempts().updated(
                &old(self).attempts(),
                plugin@,
                after_decision(old(self).attempts().record_of(plugin@), now_ns, r),
            ),
    {
        self.attempts.begin_attempt(
            plugin,
            now_ns,
            self.config.max_restart_attempts,
            self.config.restart_cooldown_secs,
        )
    }

    /// Takes note of how a reload of `plugin` ended: a success clears the
    /// attempts on record, a failure leaves them.
    pub fn finish_reload(&mut self, plugin: &str, succeeded: bool)
        requires
            old(self).wf(),
        ensures
            final(self).wf(),
            final(self).config() == old(self).config(),
            final(self).pending() == old(self).pending(),
            final(self).running() == old(self).running(),
            !succeeded ==> final(self).attempts() == old(self).attempts(),
            succeeded ==> entry_position(final(self).attempts()@, plugin@) is None,
            succeeded ==> match entry_position(old(self).attempts()@, plugin@) {
                Some(i) => final(self).attempts()@ == old(self).attempts()@.remove(i),
                None => final(self).attempts()@ == old(self).attempts()@,
            },
    {
        if succeeded {
            self.attempts.reset(plugin);
        }
    }

    /// Counts that describe the manager; the host supplies the number of loaded plugins.
    pub fn stats(&self, total_watched_plugins: usize) -> (r: HotReloadManagerStats)
        ensures
            r.is_running == self.running(),
            r.total_watched_plugins == total_watched_plugins,
            r.restart_attempts == self.attempts()@.len(),
            r.max_restart_attempts == self.config().max_restart_attempts,
            r.restart_cooldown_secs == self.config().restart_cooldown_secs,
    {
        HotReloadManagerStats {
            is_running: self.running,
            total_watched_plugins,
            restart_attempts: self.attempts.len(),
            max_restart_attempts: self.config.max_restart_attempts,
            restart_cooldown_secs: self.config.restart_cooldown_secs,
        }
    }
}

} // verus!
