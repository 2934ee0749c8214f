//! The plugins that are loaded, and the state that each is in.
//!
//! The manager owns the map of plugins and the dependency graph. It decides
//! what may happen to a plugin and records what has happened; reading
//! manifests from disk and running modules in the engine is the host's part.
//! `I` is the host's handle to an instance in the engine.

use vstd::prelude::*;
use vstd::string::*;
use crate::config::PluginConfig;
use crate::dependency::DependencyGraph;
use crate::error::Error;
use crate::metadata::PluginMetadata;
use crate::text::{join2, join3, lemma_names_push, names_of, str_eq};

verus! {

/// The state of a loaded plugin.
#[derive(Debug, Clone, PartialEq, Eq)]
pub enum PluginState {
    /// Loaded, not yet initialized.
    Loaded,
    /// Initialized, ready to run.
    Initialized,
    /// Running.
    Running,
    /// Paused for a while.
    Paused,
    /// On its way out.
    Unloading,
    /// Failed beyond recovery, with the reason.
    Error(String),
}

/// A loaded plugin.
pub struct Plugin<I> {
    /// What the manifest declares.
    pub metadata: PluginMetadata,
    /// The configuration.
    pub config: PluginConfig,
    /// The state.
    pub state: PluginState,
    /// The instance in the engine, while there is one.
    pub instance: Option<I>,
    /// Where the module was loaded from.
    pub path: String,
    /// The plugins that this one depends on.
    pub dependencies: Vec<String>,
    /// The plugins that depend on this one.
    pub dependents: Vec<String>,
}

/// The text of a list of strings in `Debug` form.
pub uninterp spec fn debug_text_of(list: Seq<Seq<char>>) -> Seq<char>;

/// The `Debug` form of a list of strings, as `format!` writes it.
#[verifier::external_body]
fn debug_list(list: &Vec<String>) -> (r: String)
    ensures
        r@ == debug_text_of(names_of(list@)),
{
    format!("{:?}", list)
}

/// The dependencies that `metadata` declares; none where it declares none.
pub open spec fn declared_dependencies(metadata: PluginMetadata) -> Seq<Seq<char>> {
    match metadata.dependencies {
        Some(d) => names_of(d@),
        None => Seq::empty(),
    }
}

/// The message of an operation that needs the plugin `name` in another state.
pub open spec fn wrong_state_text(name: Seq<char>, state: Seq<char>) -> Seq<char> {
    "Plugin "@ + name + " is not in "@ + state + " state"@
}

fn wrong_state(name: &str, state: &str) -> (r: Error)
    ensures
        r matches Error::Runtime(m) && m@ == wrong_state_text(name@, state@),
{
    let mut m = String::from_str("Plugin ");
    m.append(name);
    m.append(" is not in ");
    m.append(state);
    m.append(" state");
    Error::Runtime(m)
}

fn clone_names(list: &Vec<String>) -> (r: Vec<String>)
    ensures
        names_of(r@) == names_of(list@),
{
    let mut out: Vec<String> = Vec::new();
    let mut i: usize = 0;
    while i < list.len()
        invariant
            i <= list@.len(),
            out@.len() == i,
            forall|k: int| 0 <= k < i ==> #[trigger] out@[k]@ == list@[k]@,
        decreases list@.len() - i,
    {
        out.push(list[i].clone());
        i = i + 1;
    }
    assert(names_of(out@) =~= names_of(list@));
    out
}

impl<I> Plugin<I> {
    /// A plugin that is loaded and has no instance yet. Its dependencies
    /// are those that the metadata declares.
    pub fn new(metadata: PluginMetadata, config: PluginConfig, path: String) -> (r: Self)
        ensures
            r.metadata == metadata,
            r.config == config,
            r.path == path,
            r.state is Loaded,
            r.instance is None,
            names_of(r.dependencies@) == declared_dependencies(metadata),
            r.dependents@.len() == 0,
    {
        let dependencies = match &metadata.dependencies {
            Some(d) => clone_names(d),
            None => Vec::new(),
        };
        proof {
            if metadata.dependencies is None {
                assert(names_of(dependencies@) =~= Seq::<Seq<char>>::empty());
            }
        }
        Plugin {
            metadata,
            config,
            state: PluginState::Loaded,
            instance: None,
            path,
            dependencies,
            dependents: Vec::new(),
        }
    }

    /// Takes the instance that the engine has made and becomes
    /// initialized. Fails, changing nothing, unless the plugin is loaded.
    pub fn initialize(&mut self, instance: I) -> (r: Result<(), Error>)
        ensures
            old(self).state is Loaded ==> r is Ok && *final(self) == (Plugin {
                state: PluginState::Initialized,
                instance: Some(instance),
                ..*old(self)
            }),
            !(old(self).state is Loaded) ==> *final(self) == *old(self) && (r matches Err(
                Error::Runtime(m),
            ) && m@ == wrong_state_text(old(self).metadata.name@, "Loaded"@)),
    {
        match &self.state {
            PluginState::Loaded => {},
            _ => {
                return Err(wrong_state(self.metadata.name.as_str(), "Loaded"));
            },
        }
        self.instance = Some(instance);
        self.state = PluginState::Initialized;
        Ok(())
    }

    /// Becomes running, once the engine has started the instance. Fails,
    /// changing nothing, unless the plugin is initialized.
    pub fn start(&mut self) -> (r: Result<(), Error>)
        ensures
            old(self).state is Initialized ==> r is Ok && *final(self) == (Plugin {
                state: PluginState::Running,
                ..*old(self)
            }),
            !(old(self).state is Initialized) ==> *final(self) == *old(self) && (r matches Err(
                Error::Runtime(m),
            ) && m@ == wrong_state_text(old(self).metadata.name@, "Initialized"@)),
    {
        match &self.state {
            PluginState::Initialized => {},
            _ => {
                return Err(wrong_state(self.metadata.name.as_str(), "Initialized"));
            },
        }
        self.state = PluginState::Running;
        Ok(())
    }

    /// Becomes initialized again, once the engine has stopped the instance.
    pub fn stop(&mut self) -> (r: Result<(), Error>)
        ensures
            r is Ok,
            *final(self) == (Plugin { state: PluginState::Initialized, ..*old(self) }),
    {
        self.state = PluginState::Initialized;
        Ok(())
    }

    /// Begins to unload: the plugin gives up its instance, which the
    /// engine is to clean up.
    pub fn unload(&mut self) -> (r: Option<I>)
        ensures
            r == old(self).instance,
            *final(self) == (Plugin { state: PluginState::Unloading, instance: None, ..*old(self) }),
    {
        self.state = PluginState::Unloading;
        self.instance.take()
    }
}

/// Counts over the loaded plugins.
#[derive(Debug, Clone)]
pub struct PluginManagerStats {
    /// Number of plugins.
    pub total_plugins: usize,
    /// Number of plugins that are loaded and not yet initialized.
    pub loaded_plugins: usize,
    /// Number of initialized plugins.
    pub initialized_plugins: usize,
    /// Number of running plugins.
    pub running_plugins: usize,
}

/// What the host has to do to a plugin that was taken off the map.
pub struct Unloaded<I> {
    /// The name of the plugin.
    pub name: String,
    /// Whether the plugin was running, so that its instance is to be
    /// stopped before it is cleaned up.
    pub should_stop: bool,
    /// The instance to clean up, if the plugin had one.
    pub instance: Option<I>,
}

/// Whether `a` and `b` are the same kind of state, whatever the reason of an error.
pub open spec fn same_kind(a: PluginState, b: PluginState) -> bool {
    match a {
        PluginState::Loaded => b is Loaded,
        PluginState::Initialized => b is Initialized,
        PluginState::Running => b is Running,
        PluginState::Paused => b is Paused,
        PluginState::Unloading => b is Unloading,
        PluginState::Error(_) => b is Error,
    }
}

/// The number of plugins of `plugins` whose state is of the kind of `wanted`.
pub open spec fn count_in_state<I>(plugins: Seq<Plugin<I>>, wanted: PluginState) -> nat
    decreases plugins.len(),
{
    if plugins.len() == 0 {
        0
    } else {
        count_in_state(plugins.drop_last(), wanted) + if same_kind(plugins.last().state, wanted) {
            1nat
        } else {
            0nat
        }
    }
}

proof fn lemma_count_in_state_bound<I>(plugins: Seq<Plugin<I>>, wanted: PluginState)
    ensures
        count_in_state(plugins, wanted) <= plugins.len(),
    decreases plugins.len(),
{
    if plugins.len() > 0 {
        lemma_count_in_state_bound(plugins.drop_last(), wanted);
    }
}

/// The names of the plugins of `plugins` whose state is of the kind of
/// `wanted`, in order.
pub open spec fn names_in_state<I>(plugins: Seq<Plugin<I>>, wanted: PluginState) -> Seq<Seq<char>>
    decreases plugins.len(),
{
    if plugins.len() == 0 {
        Seq::empty()
    } else if same_kind(plugins.last().state, wanted) {
        names_in_state(plugins.drop_last(), wanted).push(plugins.last().metadata.name@)
    } else {
        names_in_state(plugins.drop_last(), wanted)
    }
}

/// Owns the loaded plugins and their dependency graph.
pub struct PluginManager<I> {
    plugins: Vec<Plugin<I>>,
    dependency_graph: DependencyGraph,
    plugin_dir: String,
}

impl<I> PluginManager<I> {
    /// The loaded plugins, in the order in which they were loaded.
    pub closed spec fn plugins(&self) -> Seq<Plugin<I>> {
        self.plugins@
    }

    /// The dependency graph.
    pub closed spec fn graph(&self) -> DependencyGraph {
        self.dependency_graph
    }

    /// The directory of the plugins.
    pub closed spec fn directory(&self) -> Seq<char> {
        self.plugin_dir@
    }

    /// No two plugins have the same name, and the graph is well formed.
    pub open spec fn wf(&self) -> bool {
        &&& self.graph().wf()
        &&& forall|i: int, j: int|
            0 <= i < j < self.plugins().len() ==> (#[trigger] self.plugins()[i]).metadata.name@ != (
            #[trigger] self.plugins()[j]).metadata.name@
    }

    /// The place of the plugin `name`, if it is loaded.
    pub open spec fn position(&self, name: Seq<char>) -> Option<int> {
        if exists|i: int|
            0 <= i < self.plugins().len() && (#[trigger] self.plugins()[i]).metadata.name@ == name {
            Some(
                choose|i: int|
                    0 <= i < self.plugins().len() && (#[trigger] self.plugins()[i]).metadata.name@
                        == name,
            )
        } else {
            None
        }
    }

    /// Whether `self` differs from `before` in nothing but the plugin at
    /// `i`, which keeps its name.
    pub open spec fn same_but(&self, before: &PluginManager<I>, i: int) -> bool {
        &&& self.graph() == before.graph()
        &&& self.directory() == before.directory()
        &&& self.plugins().len() == before.plugins().len()
        &&& forall|j: int|
            0 <= j < before.plugins().len() && j != i ==> self.plugins()[j] == before.plugins()[j]
        &&& 0 <= i < before.plugins().len() ==> self.plugins()[i].metadata.name@
            == before.plugins()[i].metadata.name@
    }

    /// The message that reports what `name` misses.
    pub open spec fn missing_text(name: Seq<char>, missing: Seq<Seq<char>>) -> Seq<char> {
        "Missing dependencies for "@ + name + ": "@ + debug_text_of(missing)
    }

    /// A manager without plugins.
    pub fn new(plugin_dir: String) -> (r: Self)
        ensures
            r.wf(),
            r.plugins().len() == 0,
            r.graph().nodes().len() == 0,
            r.graph().dependency_total() == 0,
            r.directory() == plugin_dir@,
    {
        PluginManager { plugins: Vec::new(), dependency_graph: DependencyGraph::new(), plugin_dir }
    }

    fn find(&self, name: &str) -> (r: Option<usize>)
        requires
            self.wf(),
        ensures
            match r {
                Some(i) => self.position(name@) == Some(i as int) && i < self.plugins().len()
                    && self.plugins()[i as int].metadata.name@ == name@,
                None => self.position(name@) is None,
            },
    {
        let mut i: usize = 0;
        while i < self.plugins.len()
            invariant
                self.wf(),
                i <= self.plugins().len(),
                forall|j: int| 0 <= j < i ==> (#[trigger] self.plugins()[j]).metadata.name@ != name@,
            decreases self.plugins().len() - i,
        {
            if str_eq(self.plugins[i].metadata.name.as_str(), name) {
                proof {
                    let k = self.position(name@)->0;
                    if k < i {
                        assert(self.plugins()[k].metadata.name@ != name@);
                    } else if k > i {
                        assert(self.plugins()[i as int].metadata.name@ != self.plugins()[k].metadata.name@);
                    }
                }
                return Some(i);
            }
            i = i + 1;
        }
        None
    }

    /// Loads the plugin that `metadata` describes, from `path`. A plugin
    /// of that name that is loaded already is refused. Otherwise the plugin
    /// is entered in the dependency graph; if it then misses a dependency,
    /// it is refused; else it joins the loaded plugins, in state `Loaded`.
    pub fn load_plugin(&mut self, metadata: PluginMetadata, config: PluginConfig, path: String) -> (r:
        Result<(), Error>)
        requires
            old(self).wf(),
            old(self).graph().node_count() + declared_dependencies(metadata).len() + 1 < u32::MAX,
            old(self).graph().dependency_total() + declared_dependencies(metadata).len() < u32::MAX,
        ensures
            final(self).wf(),
            final(self).directory() == old(self).directory(),
            old(self).position(metadata.name@) is Some ==> final(self).plugins() == old(self).plugins()
                && final(self).graph() == old(self).graph() && (r matches Err(
                Error::AlreadyLoaded(m),
            ) && m@ == metadata.name@),
            old(self).position(metadata.name@) is None ==> final(self).graph().is_added(
                &old(self).graph(),
                metadata.name@,
                declared_dependencies(metadata),
            ),
            old(self).position(metadata.name@) is None && final(self).graph().misses_something(
                metadata.name@,
            ) ==> final(self).plugins() == old(self).plugins() && (r matches Err(
                Error::Dependency(m),
            ) && exists|missing: Seq<Seq<char>>|
                m@ == Self::missing_text(metadata.name@, missing) && forall|s: Seq<char>| #[trigger]
                    missing.contains(s) <==> final(self).graph().depends_on(metadata.name@, s)
                        && !final(self).graph().is_registered(s)),
            old(self).position(metadata.name@) is None && !final(self).graph().misses_something(
                metadata.name@,
            ) ==> r is Ok && final(self).plugins().len() == old(self).plugins().len() + 1 && final(self).plugins().drop_last() == old(self).plugins() && ({
                let p = final(self).plugins().last();
                &&& p.metadata == metadata
                &&& p.config == config
                &&& p.path == path
                &&& p.state is Loaded
                &&& p.instance is None
                &&& names_of(p.dependencies@) == declared_dependencies(metadata)
            }),
    {
        if self.find(metadata.name.as_str()).is_some() {
            return Err(Error::AlreadyLoaded(metadata.name.clone()));
        }
        let plugin = Plugin::new(metadata, config, path);
        let ghost name = plugin.metadata.name@;
        let deps = clone_names(&plugin.dependencies);
        let _ = self.dependency_graph.add_plugin(plugin.metadata.name.clone(), deps);
        let missing = self.dependency_graph.check_missing_dependencies(plugin.metadata.name.as_str());
        if missing.len() > 0 {
            proof {
                assert(names_of(missing@).contains(names_of(missing@)[0]));
            }
            let list = debug_list(&missing);
            let message = join3("Missing dependencies for ", plugin.metadata.name.as_str(), ": ");
            let message = join2(message.as_str(), list.as_str());
            assert(message@ == Self::missing_text(name, names_of(missing@)));
            return Err(Error::Dependency(message));
        }
        proof {
            if self.graph().misses_something(name) {
                let s = choose|s: Seq<char>| #[trigger]
                    self.graph().depends_on(name, s) && !self.graph().is_registered(s);
                assert(names_of(missing@).contains(s));
                let k = choose|k: int| 0 <= k < names_of(missing@).len() && names_of(missing@)[k] == s;
            }
        }
        self.plugins.push(plugin);
        proof {
            assert(self.plugins().drop_last() =~= old(self).plugins());
            assert forall|a: int, b: int| 0 <= a < b < self.plugins().len() implies (
            #[trigger] self.plugins()[a]).metadata.name@ != (#[trigger] self.plugins()[b]).metadata.name@ by {
                assert(self.plugins()[a] == old(self).plugins()[a]);
                if b < old(self).plugins().len() {
                    assert(self.plugins()[b] == old(self).plugins()[b]);
                }
            }
        }
        Ok(())
    }

    /// Whether `after` is `before` initialized with an instance that
    /// `instantiate` has made from its path.
    pub open spec fn initialized_by<F: Fn(&str) -> Result<I, Error>>(
        before: Plugin<I>,
        after: Plugin<I>,
        instantiate: F,
    ) -> bool {
        exists|instance: I, path: &str|
            path@ == before.path@ && #[trigger] call_ensures(
                instantiate,
                (path,),
                Ok::<I, Error>(instance),
            ) && after == (Plugin {
                state: PluginState::Initialized,
                instance: Some(instance),
                ..before
            })
    }

    /// Initializes every plugin in state `Loaded`, in the order in which
    /// the plugins were loaded: `instantiate` makes an instance from the
    /// path of the plugin, and the plugin becomes initialized. Plugins in
    /// other states are passed over. The first failure of `instantiate`
    /// ends the round; the plugins after it stay as they are.
    pub fn initialize_all<F: Fn(&str) -> Result<I, Error>>(&mut self, instantiate: F) -> (r: Result<
        (),
        Error,
    >)
        requires
            old(self).wf(),
            forall|path: &str| #[trigger] call_requires(instantiate, (path,)),
        ensures
            final(self).wf(),
            final(self).graph() == old(self).graph(),
            final(self).directory() == old(self).directory(),
            final(self).plugins().len() == old(self).plugins().len(),
            forall|j: int|
                0 <= j < old(self).plugins().len() ==> (#[trigger] final(self).plugins()[j]
                    == old(self).plugins()[j] || (old(self).plugins()[j].state is Loaded
                    && Self::initialized_by(
                    old(self).plugins()[j],
                    final(self).plugins()[j],
                    instantiate,
                ))),
            r is Ok ==> forall|j: int|
                0 <= j < old(self).plugins().len() && old(self).plugins()[j].state is Loaded
                    ==> #[trigger] final(self).plugins()[j] != old(self).plugins()[j],
            r matches Err(e) ==> exists|j: int, path: &str|
                0 <= j < old(self).plugins().len() && (#[trigger] old(self).plugins()[j]).state
                    is Loaded && final(self).plugins()[j] == old(self).plugins()[j] && path@ == old(self).plugins()[j].path@ && #[trigger] call_ensures(
                    instantiate,
                    (path,),
                    Err::<I, Error>(e),
                ),
    {
        let mut i: usize = 0;
        while i < self.plugins.len()
            invariant
                old(self).wf(),
                self.wf(),
                forall|path: &str| #[trigger] call_requires(instantiate, (path,)),
                self.graph() == old(self).graph(),
                self.directory() == old(self).directory(),
                self.plugins().len() == old(self).plugins().len(),
                i <= self.plugins().len(),
                forall|j: int|
                    0 <= j < old(self).plugins().len() ==> (#[trigger] self.plugins()[j]).metadata.name@
                        == old(self).plugins()[j].metadata.name@,
                forall|j: int| i <= j < old(self).plugins().len() ==> #[trigger] self.plugins()[j] == old(self).plugins()[j],
                forall|j: int|
                    0 <= j < i ==> (#[trigger] self.plugins()[j] == old(self).plugins()[j] || (old(self).plugins()[j].state is Loaded && Self::initialized_by(
                        old(self).plugins()[j],
                        self.plugins()[j],
                        instantiate,
                    ))),
                forall|j: int|
                    0 <= j < i && old(self).plugins()[j].state is Loaded ==> #[trigger] self.plugins()[j]
                        != old(self).plugins()[j],
            decreases self.plugins().len() - i,
        {
            let is_loaded = match &self.plugins[i].state {
                PluginState::Loaded => true,
                _ => false,
            };
            if is_loaded {
                let ghost before = *self;
                let made = instantiate(self.plugins[i].path.as_str());
                match made {
                    Err(e) => {
                        return Err(e);
                    },
                    Ok(instance) => {
                        let mut plugin = self.plugins.remove(i);
                        let _ = plugin.initialize(instance);
                        self.plugins.insert(i, plugin);
                        proof {
                            self.lemma_replaced(&before, i as int);
                            assert(Self::initialized_by(
                                old(self).plugins()[i as int],
                                self.plugins()[i as int],
                                instantiate,
                            ));
                            assert forall|j: int| 0 <= j < old(self).plugins().len() implies (
                            #[trigger] self.plugins()[j]).metadata.name@ == old(self).plugins()[j].metadata.name@ by {
                                if j != i {
                                    assert(self.plugins()[j] == before.plugins()[j]);
                                }
                            }
                            assert forall|j: int| 0 <= j < i + 1 implies (#[trigger] self.plugins()[j]
                                == old(self).plugins()[j] || (old(self).plugins()[j].state is Loaded
                                && Self::initialized_by(
                                old(self).plugins()[j],
                                self.plugins()[j],
                                instantiate,
                            ))) by {
                                if j != i {
                                    assert(self.plugins()[j] == before.plugins()[j]);
                                }
                            }
                            assert forall|j: int|
                                0 <= j < i + 1 && old(self).plugins()[j].state
                                    is Loaded implies #[trigger] self.plugins()[j] != old(self).plugins()[j] by {
                                if j != i {
                                    assert(self.plugins()[j] == before.plugins()[j]);
                                }
                            }
                        }
                    },
                }
            }
            i = i + 1;
        }
        Ok(())
    }

    /// Hands the plugin `name` the instance that the engine has made for
    /// it. Fails, changing nothing, where no such plugin is loaded or the
    /// plugin is not in state `Loaded`.
    pub fn initialize_plugin(&mut self, name: &str, instance: I) -> (r: Result<(), Error>)
        requires
            old(self).wf(),
        ensures
            final(self).wf(),
            match old(self).position(name@) {
                None => *final(self) == *old(self) && (r matches Err(Error::NotFound(m)) && m@
                    == name@),
                Some(i) => final(self).same_but(old(self), i) && if old(self).plugins()[i].state
                    is Loaded {
                    r is Ok && final(self).plugins()[i] == (Plugin {
                        state: PluginState::Initialized,
                        instance: Some(instance),
                        ..old(self).plugins()[i]
                    })
                } else {
                    final(self).plugins()[i] == old(self).plugins()[i] && (r matches Err(
                        Error::Runtime(m),
                    ) && m@ == wrong_state_text(name@, "Loaded"@))
                },
            },
    {
        match self.find(name) {
            None => Err(Error::NotFound(String::from_str(name))),
            Some(i) => {
                let mut plugin = self.plugins.remove(i);
                let r = plugin.initialize(instance);
                self.plugins.insert(i, plugin);
                proof {
                    self.lemma_replaced(old(self), i as int);
                    if !(old(self).plugins()[i as int].state is Loaded) {
                        assert(self.plugins() =~= old(self).plugins());
                    }
                }
                r
            },
        }
    }

    /// Replacing one plugin by one of the same name keeps the manager well formed.
    proof fn lemma_replaced(&self, before: &PluginManager<I>, i: int)
        requires
            before.wf(),
            0 <= i < before.plugins().len(),
            self.graph() == before.graph(),
            self.directory() == before.directory(),
            self.plugins() == before.plugins().remove(i).insert(i, self.plugins()[i]),
            self.plugins().len() == before.plugins().len(),
            self.plugins()[i].metadata.name@ == before.plugins()[i].metadata.name@,
        ensures
            self.wf(),
            self.same_but(before, i),
    {
        assert forall|j: int| 0 <= j < before.plugins().len() && j != i implies self.plugins()[j]
            == before.plugins()[j] by {}
        assert forall|a: int, b: int| 0 <= a < b < self.plugins().len() implies (
        #[trigger] self.plugins()[a]).metadata.name@ != (#[trigger] self.plugins()[b]).metadata.name@ by {
            assert(before.plugins()[a].metadata.name@ != before.plugins()[b].metadata.name@);
        }
    }

    /// The names of the plugins that wait for an instance: those in state `Loaded`.
    pub fn pending_initialization(&self) -> (r: Vec<String>)
        ensures
            names_of(r@) == names_in_state(self.plugins(), PluginState::Loaded),
    {
        let ghost wanted = PluginState::Loaded;
        let mut out: Vec<String> = Vec::new();
        let mut i: usize = 0;
        assert(self.plugins().take(0) =~= Seq::<Plugin<I>>::empty());
        assert(names_of(out@) =~= Seq::<Seq<char>>::empty());
        while i < self.plugins.len()
            invariant
                i <= self.plugins().len(),
                wanted == PluginState::Loaded,
                names_of(out@) == names_in_state(self.plugins().take(i as int), wanted),
            decreases self.plugins().len() - i,
        {
            assert(self.plugins().take(i + 1).drop_last() =~= self.plugins().take(i as int));
            let is_loaded = match &self.plugins[i].state {
                PluginState::Loaded => true,
                _ => false,
            };
            if is_loaded {
                let name = self.plugins[i].metadata.name.clone();
                proof {
                    lemma_names_push(out@, name);
                }
                out.push(name);
            }
            i = i + 1;
        }
        assert(self.plugins().take(i as int) =~= self.plugins());
        out
    }

    /// The names of the plugins that wait to be started: those in state `Initialized`.
    pub fn pending_start(&self) -> (r: Vec<String>)
        ensures
            names_of(r@) == names_in_state(self.plugins(), PluginState::Initialized),
    {
        let ghost wanted = PluginState::Initialized;
        let mut out: Vec<String> = Vec::new();
        let mut i: usize = 0;
        assert(self.plugins().take(0) =~= Seq::<Plugin<I>>::empty());
        assert(names_of(out@) =~= Seq::<Seq<char>>::empty());
        while i < self.plugins.len()
            invariant
                i <= self.plugins().len(),
                wanted == PluginState::Initialized,
                names_of(out@) == names_in_state(self.plugins().take(i as int), wanted),
            decreases self.plugins().len() - i,
        {
            assert(self.plugins().take(i + 1).drop_last() =~= self.plugins().take(i as int));
            let is_initialized = match &self.plugins[i].state {
                PluginState::Initialized => true,
                _ => false,
            };
            if is_initialized {
                let name = self.plugins[i].metadata.name.clone();
                proof {
                    lemma_names_push(out@, name);
                }
                out.push(name);
            }
            i = i + 1;
        }
        assert(self.plugins().take(i as int) =~= self.plugins());
        out
    }

    /// Takes the instance of the plugin `name` out so that the engine can
    /// start it. A plugin that is not in state `Initialized` is left as it
    /// is and gives none. Fails where no such plugin is loaded.
    pub fn begin_start(&mut self, name: &str) -> (r: Result<Option<I>, Error>)
        requires
            old(self).wf(),
        ensures
            final(self).wf(),
            match old(self).position(name@) {
                None => *final(self) == *old(self) && (r matches Err(Error::NotFound(m)) && m@
                    == name@),
                Some(i) => final(self).same_but(old(self), i) && if old(self).plugins()[i].state
                    is Initialized {
                    r == Ok::<Option<I>, Error>(old(self).plugins()[i].instance) && final(self).plugins()[i] == (Plugin { instance: None, ..old(self).plugins()[i] })
                } else {
                    r == Ok::<Option<I>, Error>(None) && final(self).plugins()[i] == old(self).plugins()[i]
                },
            },
    {
        match self.find(name) {
            None => Err(Error::NotFound(String::from_str(name))),
            Some(i) => {
                let mut plugin = self.plugins.remove(i);
                let is_initialized = match &plugin.state {
                    PluginState::Initialized => true,
                    _ => false,
                };
                let instance = if is_initialized {
                    plugin.instance.take()
                } else {
                    None
                };
                self.plugins.insert(i, plugin);
                proof {
                    self.lemma_replaced(old(self), i as int);
                    if !is_initialized {
                        assert(self.plugins() =~= old(self).plugins());
                    }
                }
                Ok(instance)
            },
        }
    }

    /// Puts back the instance of the plugin `name` that the engine has
    /// started: the plugin is running. Fails where no such plugin is loaded.
    pub fn finish_start(&mut self, name: &str, instance: I) -> (r: Result<(), Error>)
        requires
            old(self).wf(),
        ensures
            final(self).wf(),
            match old(self).position(name@) {
                None => *final(self) == *old(self) && (r matches Err(Error::NotFound(m)) && m@
                    == name@),
                Some(i) => r is Ok && final(self).same_but(old(self), i) && final(self).plugins()[i]
                    == (Plugin {
                    state: PluginState::Running,
                    instance: Some(instance),
                    ..old(self).plugins()[i]
                }),
            },
    {
        match self.find(name) {
            None => Err(Error::NotFound(String::from_str(name))),
            Some(i) => {
                let mut plugin = self.plugins.remove(i);
                plugin.state = PluginState::Running;
                plugin.instance = Some(instance);
                self.plugins.insert(i, plugin);
                proof {
                    self.lemma_replaced(old(self), i as int);
                }
                Ok(())
            },
        }
    }

    /// Takes the plugin `name` off the map, before anything is done to its
    /// instance, and says what the host has to do: stop the instance if
    /// the plugin was running, and clean it up in any case. The dependency
    /// graph keeps the plugin until `finish_unload`. Fails where no such
    /// plugin is loaded.
    pub fn unload_plugin(&mut self, name: &str) -> (r: Result<Unloaded<I>, Error>)
        requires
            old(self).wf(),
        ensures
            final(self).wf(),
            final(self).graph() == old(self).graph(),
            final(self).directory() == old(self).directory(),
            final(self).position(name@) is None,
            match old(self).position(name@) {
                None => final(self).plugins() == old(self).plugins() && (r matches Err(
                    Error::NotFound(m),
                ) && m@ == name@),
                Some(i) => final(self).plugins() == old(self).plugins().remove(i) && (r matches Ok(u)
                    && u.name@ == name@ && u.should_stop == (old(self).plugins()[i].state is Running)
                    && u.instance == old(self).plugins()[i].instance),
            },
    {
        match self.find(name) {
            None => Err(Error::NotFound(String::from_str(name))),
            Some(i) => {
                let mut plugin = self.plugins.remove(i);
                proof {
                    assert forall|j: int| 0 <= j < self.plugins().len() implies (
                    #[trigger] self.plugins()[j]).metadata.name@ != name@ by {
                        if j < i {
                            assert(self.plugins()[j] == old(self).plugins()[j]);
                            assert(old(self).plugins()[j].metadata.name@ != old(self).plugins()[i as int].metadata.name@);
                        } else {
                            assert(self.plugins()[j] == old(self).plugins()[j + 1]);
                            assert(old(self).plugins()[i as int].metadata.name@ != old(self).plugins()[j + 1].metadata.name@);
                        }
                    }
                    assert forall|a: int, b: int| 0 <= a < b < self.plugins().len() implies (
                    #[trigger] self.plugins()[a]).metadata.name@ != (
                    #[trigger] self.plugins()[b]).metadata.name@ by {
                        let oa = if a < i {
                            a
                        } else {
                            a + 1
                        };
                        let ob = if b < i {
                            b
                        } else {
                            b + 1
                        };
                        assert(self.plugins()[a] == old(self).plugins()[oa]);
                        assert(self.plugins()[b] == old(self).plugins()[ob]);
                        assert(old(self).plugins()[oa].metadata.name@ != old(self).plugins()[ob].metadata.name@);
                    }
                }
                let should_stop = match &plugin.state {
                    PluginState::Running => true,
                    _ => false,
                };
                let instance = plugin.unload();
                Ok(Unloaded { name: String::from_str(name), should_stop, instance })
            },
        }
    }

    /// Removes the plugin `name` from the dependency graph, once its
    /// instance is cleaned up.
    pub fn finish_unload(&mut self, name: &str)
        requires
            old(self).wf(),
        ensures
            final(self).wf(),
            final(self).plugins() == old(self).plugins(),
            final(self).directory() == old(self).directory(),
            final(self).graph().is_removed(&old(self).graph(), name@),
    {
        self.dependency_graph.remove_plugin(name);
    }

    /// The plugin `name`, if it is loaded.
    pub fn get_plugin(&self, name: &str) -> (r: Option<&Plugin<I>>)
        requires
            self.wf(),
        ensures
            match self.position(name@) {
                Some(i) => r == Some(&self.plugins()[i]),
                None => r is None,
            },
    {
        match self.find(name) {
            Some(i) => Some(&self.plugins[i]),
            None => None,
        }
    }

    /// All loaded plugins.
    pub fn get_all_plugins(&self) -> (r: &Vec<Plugin<I>>)
        ensures
            r@ == self.plugins(),
    {
        &self.plugins
    }

    /// Where the module of the plugin `name` was loaded from, as a reload
    /// needs it. Fails where no such plugin is loaded.
    pub fn plugin_path(&self, name: &str) -> (r: Result<String, Error>)
        requires
            self.wf(),
        ensures
            match self.position(name@) {
                Some(i) => r matches Ok(p) && p@ == self.plugins()[i].path@,
                None => r matches Err(Error::NotFound(m)) && m@ == name@,
            },
    {
        match self.find(name) {
            Some(i) => Ok(self.plugins[i].path.clone()),
            None => Err(Error::NotFound(String::from_str(name))),
        }
    }

    /// The dependency graph.
    pub fn dependency_graph(&self) -> (r: &DependencyGraph)
        ensures
            *r == self.graph(),
    {
        &self.dependency_graph
    }

    /// The directory of the plugins.
    pub fn plugin_dir(&self) -> (r: &str)
        ensures
            r@ == self.directory(),
    {
        self.plugin_dir.as_str()
    }

    /// Counts over the loaded plugins.
    pub fn stats(&self) -> (r: PluginManagerStats)
        ensures
            r.total_plugins == self.plugins().len(),
            r.loaded_plugins == count_in_state(self.plugins(), PluginState::Loaded),
            r.initialized_plugins == count_in_state(self.plugins(), PluginState::Initialized),
            r.running_plugins == count_in_state(self.plugins(), PluginState::Running),
    {
        let ghost is_loaded = PluginState::Loaded;
        let ghost is_initialized = PluginState::Initialized;
        let ghost is_running = PluginState::Running;
        let mut loaded: usize = 0;
        let mut initialized: usize = 0;
        let mut running: usize = 0;
        let mut i: usize = 0;
        assert(self.plugins().take(0) =~= Seq::<Plugin<I>>::empty());
        while i < self.plugins.len()
            invariant
                i <= self.plugins().len(),
                is_loaded == PluginState::Loaded,
                is_initialized == PluginState::Initialized,
                is_running == PluginState::Running,
                loaded == count_in_state(self.plugins().take(i as int), is_loaded),
                initialized == count_in_state(self.plugins().take(i as int), is_initialized),
                running == count_in_state(self.plugins().take(i as int), is_running),
            decreases self.plugins().len() - i,
        {
            proof {
                assert(self.plugins().take(i + 1).drop_last() =~= self.plugins().take(i as int));
                lemma_count_in_state_bound(self.plugins().take(i as int), is_loaded);
                lemma_count_in_state_bound(self.plugins().take(i as int), is_initialized);
                lemma_count_in_state_bound(self.plugins().take(i as int), is_running);
            }
            match &self.plugins[i].state {
                PluginState::Loaded => {
                    loaded = loaded + 1;
                },
                PluginState::Initialized => {
                    initialized = initialized + 1;
                },
                PluginState::Running => {
                    running = running + 1;
                },
                _ => {},
            }
            i = i + 1;
        }
        assert(self.plugins().take(i as int) =~= self.plugins());
        PluginManagerStats {
            total_plugins: self.plugins.len(),
            loaded_plugins: loaded,
            initialized_plugins: initialized,
            running_plugins: running,
        }
    }
}

} // verus!
