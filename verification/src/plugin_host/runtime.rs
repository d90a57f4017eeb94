//! The runtime state of each local plugin and the manager that starts, stops
//! and lists them.
use vstd::prelude::*;

use crate::collections::{lists_keys, StrMap};
use crate::storage::opt_view;
use crate::text::{concat_str, copy_strings, strings_view};

verus! {

/// The state of a plugin process.
#[derive(Debug)]
pub enum PluginStatus {
    Installed,
    Starting,
    Running,
    Stopping,
    Stopped,
    Error(String),
}

/// A plugin status as plain values.
pub enum StatusView {
    Installed,
    Starting,
    Running,
    Stopping,
    Stopped,
    Error(Seq<char>),
}

impl View for PluginStatus {
    type V = StatusView;

    open spec fn view(&self) -> StatusView {
        match self {
            PluginStatus::Installed => StatusView::Installed,
            PluginStatus::Starting => StatusView::Starting,
            PluginStatus::Running => StatusView::Running,
            PluginStatus::Stopping => StatusView::Stopping,
            PluginStatus::Stopped => StatusView::Stopped,
            PluginStatus::Error(e) => StatusView::Error(e@),
        }
    }
}

impl PluginStatus {
    /// A copy of this status.
    pub fn duplicate(&self) -> (r: Self)
        ensures
            r@ == self@,
    {
        match self {
            PluginStatus::Installed => PluginStatus::Installed,
            PluginStatus::Starting => PluginStatus::Starting,
            PluginStatus::Running => PluginStatus::Running,
            PluginStatus::Stopping => PluginStatus::Stopping,
            PluginStatus::Stopped => PluginStatus::Stopped,
            PluginStatus::Error(e) => PluginStatus::Error(e.clone()),
        }
    }
}

/// What the manager knows of one plugin.
pub struct PluginRuntime {
    pub name: String,
    pub path: String,
    pub version: Option<String>,
    pub status: PluginStatus,
    pub socket_path: Option<String>,
    pub capabilities: Vec<String>,
    pub priority: i32,
}

/// A plugin as plain values:
/// `(name, path, version, status, socket, capabilities, priority)`.
pub type RuntimeView = (Seq<char>, Seq<char>, Option<Seq<char>>, StatusView, Option<Seq<char>>, Seq<Seq<char>>, i32);

impl View for PluginRuntime {
    type V = RuntimeView;

    open spec fn view(&self) -> RuntimeView {
        (
            self.name@,
            self.path@,
            opt_view(self.version),
            self.status@,
            opt_view(self.socket_path),
            strings_view(self.capabilities@),
            self.priority,
        )
    }
}

fn copy_opt(o: &Option<String>) -> (r: Option<String>)
    ensures
        opt_view(r) == opt_view(*o),
{
    match o {
        Some(s) => Some(s.clone()),
        None => None,
    }
}

impl PluginRuntime {
    /// A plugin that is installed and not started, with no capability and
    /// priority zero.
    pub fn new(name: String, path: String, version: Option<String>, socket_path: Option<String>) -> (r: Self)
        ensures
            r@ == (name@, path@, opt_view(version), StatusView::Installed, opt_view(socket_path), Seq::<Seq<char>>::empty(), 0i32),
    {
        let r = PluginRuntime {
            name,
            path,
            version,
            status: PluginStatus::Installed,
            socket_path,
            capabilities: Vec::new(),
            priority: 0,
        };
        assert(strings_view(r.capabilities@) =~= Seq::<Seq<char>>::empty());
        r
    }

    /// Replaces the capabilities.
    pub fn set_capabilities(&mut self, caps: Vec<String>)
        ensures
            final(self)@ == (old(self)@.0, old(self)@.1, old(self)@.2, old(self)@.3, old(self)@.4, strings_view(caps@), old(self)@.6),
    {
        self.capabilities = caps;
    }

    /// The capabilities.
    pub fn capabilities(&self) -> (r: Vec<String>)
        ensures
            strings_view(r@) == self@.5,
    {
        copy_strings(&self.capabilities)
    }

    /// Replaces the priority.
    pub fn set_priority(&mut self, p: i32)
        ensures
            final(self)@ == (old(self)@.0, old(self)@.1, old(self)@.2, old(self)@.3, old(self)@.4, old(self)@.5, p),
    {
        self.priority = p;
    }

    /// The priority.
    pub fn priority(&self) -> (r: i32)
        ensures
            r == self@.6,
    {
        self.priority
    }

    /// The status.
    pub fn status(&self) -> (r: PluginStatus)
        ensures
            r@ == self@.3,
    {
        self.status.duplicate()
    }

    /// Replaces the status.
    pub fn set_status(&mut self, status: PluginStatus)
        ensures
            final(self)@ == (old(self)@.0, old(self)@.1, old(self)@.2, status@, old(self)@.4, old(self)@.5, old(self)@.6),
    {
        self.status = status;
    }
}

/// A plugin's name, version and status.
pub struct PluginRuntimeSummary {
    pub name: String,
    pub version: Option<String>,
    pub status: PluginStatus,
}

/// A summary as plain values.
pub type SummaryView = (Seq<char>, Option<Seq<char>>, StatusView);

impl View for PluginRuntimeSummary {
    type V = SummaryView;

    open spec fn view(&self) -> SummaryView {
        (self.name@, opt_view(self.version), self.status@)
    }
}

/// The summary of a plugin.
pub open spec fn summary_of(r: RuntimeView) -> SummaryView {
    (r.0, r.2, r.3)
}

/// How a start request proceeds.
pub enum StartPlan {
    /// The plugin is already running or starting: nothing to do.
    AlreadyRunning,
    /// Launch the plugin's binary with these settings. With a shared socket
    /// the plugin owns no socket; otherwise it gets its own socket path.
    Launch { shared_socket: Option<String>, debug: bool, log_level: Option<String> },
}

/// The plugins of this host and the settings they are launched with.
pub struct PluginRuntimeManager {
    plugins: StrMap<PluginRuntime>,
    plugin_dir: String,
    socket_dir: String,
    global_socket_path: Option<String>,
    debug_mode: bool,
    log_level: Option<String>,
}

/// The status of a running or starting plugin.
pub open spec fn is_active(s: StatusView) -> bool {
    s is Running || s is Starting
}

/// The message of a failed start.
pub open spec fn start_failure(name: Seq<char>, err: Seq<char>) -> Seq<char> {
    "Failed to start plugin "@ + name + ": "@ + err
}

/// `r` with status `s`.
pub open spec fn with_status(r: RuntimeView, s: StatusView) -> RuntimeView {
    (r.0, r.1, r.2, s, r.4, r.5, r.6)
}

impl PluginRuntimeManager {
    /// The plugins, by name.
    pub closed spec fn plugins(&self) -> Map<Seq<char>, RuntimeView> {
        self.plugins@.map_values(|p: PluginRuntime| p@)
    }

    /// The directory plugins are installed in.
    pub closed spec fn plugin_dir(&self) -> Seq<char> {
        self.plugin_dir@
    }

    /// The directory of the plugins' own sockets.
    pub closed spec fn socket_dir(&self) -> Seq<char> {
        self.socket_dir@
    }

    /// The socket shared by all plugins, if any.
    pub closed spec fn global_socket(&self) -> Option<Seq<char>> {
        opt_view(self.global_socket_path)
    }

    /// Whether plugins are launched in debug mode.
    pub closed spec fn debug(&self) -> bool {
        self.debug_mode
    }

    /// The log level plugins are launched with, if any.
    pub closed spec fn log_level(&self) -> Option<Seq<char>> {
        opt_view(self.log_level)
    }

    /// A manager with no plugin, no shared socket, debug off and no log level.
    pub fn new(plugin_dir: String, socket_dir: String) -> (m: Self)
        ensures
            m.plugins() == Map::<Seq<char>, RuntimeView>::empty(),
            m.plugin_dir() == plugin_dir@,
            m.socket_dir() == socket_dir@,
            m.global_socket() is None,
            !m.debug(),
            m.log_level() is None,
    {
        let m = PluginRuntimeManager {
            plugins: StrMap::new(),
            plugin_dir,
            socket_dir,
            global_socket_path: None,
            debug_mode: false,
            log_level: None,
        };
        assert(m.plugins() =~= Map::<Seq<char>, RuntimeView>::empty());
        m
    }

    /// The directory plugins are installed in.
    pub fn plugin_dir_path(&self) -> (r: String)
        ensures
            r@ == self.plugin_dir(),
    {
        self.plugin_dir.clone()
    }

    /// The directory of the plugins' own sockets.
    pub fn socket_dir_path(&self) -> (r: String)
        ensures
            r@ == self.socket_dir(),
    {
        self.socket_dir.clone()
    }

    /// Sets debug mode.
    pub fn set_debug_mode(&mut self, debug: bool)
        ensures
            final(self).debug() == debug,
            final(self).plugins() == old(self).plugins(),
            final(self).plugin_dir() == old(self).plugin_dir(),
            final(self).socket_dir() == old(self).socket_dir(),
            final(self).global_socket() == old(self).global_socket(),
            final(self).log_level() == old(self).log_level(),
    {
        self.debug_mode = debug;
    }

    /// Sets the log level.
    pub fn set_log_level(&mut self, level: String)
        ensures
            final(self).log_level() == Some(level@),
            final(self).plugins() == old(self).plugins(),
            final(self).plugin_dir() == old(self).plugin_dir(),
            final(self).socket_dir() == old(self).socket_dir(),
            final(self).global_socket() == old(self).global_socket(),
            final(self).debug() == old(self).debug(),
    {
        self.log_level = Some(level);
    }

    /// Sets the socket shared by all plugins.
    pub fn set_global_socket_path(&mut self, path: String)
        ensures
            final(self).global_socket() == Some(path@),
            final(self).plugins() == old(self).plugins(),
            final(self).plugin_dir() == old(self).plugin_dir(),
            final(self).socket_dir() == old(self).socket_dir(),
            final(self).debug() == old(self).debug(),
            final(self).log_level() == old(self).log_level(),
    {
        self.global_socket_path = Some(path);
    }

    /// Registers a plugin run from its source project at `project_path`, with
    /// version `dev` and the shared socket (replacing any plugin of that name).
    pub fn register_dev_plugin(&mut self, name: String, project_path: String)
        ensures
            final(self).plugins() == old(self).plugins().insert(
                name@,
                (name@, project_path@, Some("dev"@), StatusView::Installed, old(self).global_socket(), Seq::<Seq<char>>::empty(), 0i32),
            ),
            final(self).plugin_dir() == old(self).plugin_dir(),
            final(self).socket_dir() == old(self).socket_dir(),
            final(self).global_socket() == old(self).global_socket(),
            final(self).debug() == old(self).debug(),
            final(self).log_level() == old(self).log_level(),
    {
        let socket = copy_opt(&self.global_socket_path);
        let rt = PluginRuntime::new(name.clone(), project_path, Some("dev".to_string()), socket);
        let ghost v = rt@;
        self.plugins.insert(name, rt);
        assert(self.plugins() =~= old(self).plugins().insert(v.0, v));
    }

    /// How a start of `name` proceeds: nothing to do when it is running or
    /// starting; otherwise launch it with the manager's settings.
    pub fn begin_start(&self, name: &str) -> (p: StartPlan)
        ensures
            self.plugins().contains_key(name@) && is_active(self.plugins()[name@].3) ==> p is AlreadyRunning,
            !(self.plugins().contains_key(name@) && is_active(self.plugins()[name@].3)) ==> (p matches StartPlan::Launch { shared_socket, debug, log_level }
                && opt_view(shared_socket) == self.global_socket() && debug == self.debug() && opt_view(log_level) == self.log_level()),
    {
        match self.plugins.get(name) {
            Some(rt) => {
                match rt.status {
                    PluginStatus::Running | PluginStatus::Starting => {
                        return StartPlan::AlreadyRunning;
                    },
                    _ => {},
                }
            },
            None => {},
        }
        StartPlan::Launch {
            shared_socket: copy_opt(&self.global_socket_path),
            debug: self.debug_mode,
            log_level: copy_opt(&self.log_level),
        }
    }

    /// Records the outcome of launching `name` from `path`: when the process
    /// started, the plugin is running with the given version and socket (the
    /// socket it owns, none with a shared socket); otherwise nothing is
    /// recorded and the start fails.
    pub fn finish_start(
        &mut self,
        name: &str,
        path: String,
        version: Option<String>,
        owned_socket: Option<String>,
        spawned: Result<(), String>,
    ) -> (r: Result<(), String>)
        ensures
            match spawned {
                Ok(_) => r is Ok && final(self).plugins() == old(self).plugins().insert(
                    name@,
                    (name@, path@, opt_view(version), StatusView::Running, opt_view(owned_socket), Seq::<Seq<char>>::empty(), 0i32),
                ),
                Err(e) => r matches Err(m) && m@ == start_failure(name@, e@)
                    && final(self).plugins() == old(self).plugins(),
            },
            final(self).plugin_dir() == old(self).plugin_dir(),
            final(self).socket_dir() == old(self).socket_dir(),
            final(self).global_socket() == old(self).global_socket(),
            final(self).debug() == old(self).debug(),
            final(self).log_level() == old(self).log_level(),
    {
        match spawned {
            Ok(_) => {
                let mut rt = PluginRuntime::new(name.to_string(), path, version, owned_socket);
                rt.set_status(PluginStatus::Running);
                let ghost v = rt@;
                self.plugins.insert(name.to_string(), rt);
                assert(self.plugins() =~= old(self).plugins().insert(name@, v));
                Ok(())
            },
            Err(e) => {
                let a = concat_str("Failed to start plugin ", name);
                let b = concat_str(a.as_str(), ": ");
                Err(concat_str(b.as_str(), e.as_str()))
            },
        }
    }

    /// Starts stopping `name`: when it is known, its status becomes
    /// `Stopping` and its socket (to clean up) is returned.
    pub fn begin_stop(&mut self, name: &str) -> (r: Option<Option<String>>)
        ensures
            old(self).plugins().contains_key(name@) ==> (r matches Some(s) && opt_view(s) == old(self).plugins()[name@].4
                && final(self).plugins() == old(self).plugins().insert(name@, with_status(old(self).plugins()[name@], StatusView::Stopping))),
            !old(self).plugins().contains_key(name@) ==> r is None && final(self).plugins() == old(self).plugins(),
            final(self).plugin_dir() == old(self).plugin_dir(),
            final(self).socket_dir() == old(self).socket_dir(),
            final(self).global_socket() == old(self).global_socket(),
            final(self).debug() == old(self).debug(),
            final(self).log_level() == old(self).log_level(),
    {
        match self.plugins.remove(name) {
            Some(mut rt) => {
                let sock = copy_opt(&rt.socket_path);
                rt.set_status(PluginStatus::Stopping);
                let ghost v = rt@;
                self.plugins.insert(name.to_string(), rt);
                assert(self.plugins() =~= old(self).plugins().insert(name@, v));
                Some(sock)
            },
            None => {
                assert(self.plugins() =~= old(self).plugins());
                None
            },
        }
    }

    /// Finishes stopping `name`: it is forgotten.
    pub fn finish_stop(&mut self, name: &str)
        ensures
            final(self).plugins() == old(self).plugins().remove(name@),
            final(self).plugin_dir() == old(self).plugin_dir(),
            final(self).socket_dir() == old(self).socket_dir(),
            final(self).global_socket() == old(self).global_socket(),
            final(self).debug() == old(self).debug(),
            final(self).log_level() == old(self).log_level(),
    {
        self.plugins.remove(name);
        assert(self.plugins() =~= old(self).plugins().remove(name@));
    }

    /// Sets the status of `name`, when it is known.
    pub fn set_plugin_status(&mut self, name: &str, status: PluginStatus)
        ensures
            old(self).plugins().contains_key(name@) ==> final(self).plugins()
                == old(self).plugins().insert(name@, with_status(old(self).plugins()[name@], status@)),
            !old(self).plugins().contains_key(name@) ==> final(self).plugins() == old(self).plugins(),
            final(self).plugin_dir() == old(self).plugin_dir(),
            final(self).socket_dir() == old(self).socket_dir(),
            final(self).global_socket() == old(self).global_socket(),
            final(self).debug() == old(self).debug(),
            final(self).log_level() == old(self).log_level(),
    {
        match self.plugins.remove(name) {
            Some(mut rt) => {
                rt.set_status(status);
                let ghost v = rt@;
                self.plugins.insert(name.to_string(), rt);
                assert(self.plugins() =~= old(self).plugins().insert(name@, v));
            },
            None => {
                assert(self.plugins() =~= old(self).plugins());
            },
        }
    }

    /// Records that the process of `name` exited: a failed exit (described by
    /// `detail`) puts the plugin in error; a clean exit changes nothing.
    pub fn process_exited(&mut self, name: &str, success: bool, detail: &str)
        ensures
            success ==> final(self).plugins() == old(self).plugins(),
            !success && old(self).plugins().contains_key(name@) ==> final(self).plugins()
                == old(self).plugins().insert(name@, with_status(old(self).plugins()[name@], StatusView::Error("Process exited: "@ + detail@))),
            !success && !old(self).plugins().contains_key(name@) ==> final(self).plugins() == old(self).plugins(),
            final(self).plugin_dir() == old(self).plugin_dir(),
            final(self).socket_dir() == old(self).socket_dir(),
            final(self).global_socket() == old(self).global_socket(),
            final(self).debug() == old(self).debug(),
            final(self).log_level() == old(self).log_level(),
    {
        if !success {
            self.set_plugin_status(name, PluginStatus::Error(concat_str("Process exited: ", detail)));
        }
    }

    /// Records what `key` announced when it connected: its capabilities and
    /// priority; it is now running. Returns whether `key` is known.
    pub fn apply_handshake(&mut self, key: &str, capabilities: Vec<String>, priority: i32) -> (found: bool)
        ensures
            found == old(self).plugins().contains_key(key@),
            found ==> final(self).plugins() == old(self).plugins().insert(key@, (
                old(self).plugins()[key@].0, old(self).plugins()[key@].1, old(self).plugins()[key@].2,
                StatusView::Running, old(self).plugins()[key@].4, strings_view(capabilities@), priority)),
            !found ==> final(self).plugins() == old(self).plugins(),
            final(self).plugin_dir() == old(self).plugin_dir(),
            final(self).socket_dir() == old(self).socket_dir(),
            final(self).global_socket() == old(self).global_socket(),
            final(self).debug() == old(self).debug(),
            final(self).log_level() == old(self).log_level(),
    {
        match self.plugins.remove(key) {
            Some(mut rt) => {
                rt.set_capabilities(capabilities);
                rt.set_priority(priority);
                rt.set_status(PluginStatus::Running);
                let ghost v = rt@;
                self.plugins.insert(key.to_string(), rt);
                assert(self.plugins() =~= old(self).plugins().insert(key@, v));
                true
            },
            None => {
                assert(self.plugins() =~= old(self).plugins());
                false
            },
        }
    }

    /// The record of `name`.
    pub fn get_runtime(&self, name: &str) -> (r: Option<&PluginRuntime>)
        ensures
            match r {
                Some(rt) => self.plugins().contains_key(name@) && self.plugins()[name@] == rt@,
                None => !self.plugins().contains_key(name@),
            },
    {
        self.plugins.get(name)
    }

    /// The names of the plugins, each once, in no promised order.
    pub fn names(&self) -> (r: Vec<String>)
        ensures
            lists_keys(r@.map_values(|s: String| s@), self.plugins().dom()),
    {
        let r = self.plugins.keys();
        assert(self.plugins().dom() =~= self.plugins@.dom());
        r
    }

    /// The summary of each plugin, in no promised order.
    pub fn runtime_summaries(&self) -> (r: Vec<PluginRuntimeSummary>)
        ensures
            exists|ks: Seq<Seq<char>>| #[trigger] lists_keys(ks, self.plugins().dom())
                && r@.map_values(|s: PluginRuntimeSummary| s@) == ks.map_values(|k: Seq<char>| summary_of(self.plugins()[k])),
    {
        let keys = self.names();
        let ghost ks = keys@.map_values(|s: String| s@);
        let mut r: Vec<PluginRuntimeSummary> = Vec::new();
        let mut i: usize = 0;
        while i < keys.len()
            invariant
                i <= keys@.len(),
                ks == keys@.map_values(|s: String| s@),
                lists_keys(ks, self.plugins().dom()),
                r@.len() == i,
                forall|j: int| 0 <= j < i ==> #[trigger] r@[j]@ == summary_of(self.plugins()[ks[j]]),
            decreases keys.len() - i,
        {
            assert(self.plugins().dom().contains(ks[i as int]));
            match self.plugins.get(keys[i].as_str()) {
                Some(rt) => {
                    r.push(PluginRuntimeSummary { name: rt.name.clone(), version: copy_opt(&rt.version), status: rt.status() });
                },
                None => {
                    assert(false);
                },
            }
            i += 1;
        }
        assert(r@.map_values(|s: PluginRuntimeSummary| s@) =~= ks.map_values(|k: Seq<char>| summary_of(self.plugins()[k])));
        r
    }
}

} // verus!
