//! Plugin health tracking, plugin declarations and the plugin registry.
use vstd::prelude::*;

use std::time::Duration;

verus! {

/// Health of a plugin as seen by the daemon.
#[derive(Debug, Clone, Copy, PartialEq, Eq, Structural)]
pub enum PluginStatus {
    Healthy,
    Degraded,
    Unavailable,
}

/// The status for a number of consecutive failures.
pub open spec fn health_status(failures: u32, degraded: u32, unavailable: u32) -> PluginStatus {
    if failures >= unavailable {
        PluginStatus::Unavailable
    } else if failures >= degraded {
        PluginStatus::Degraded
    } else {
        PluginStatus::Healthy
    }
}

/// How severe a status is: healthy 0, degraded 1, unavailable 2.
pub open spec fn severity(s: PluginStatus) -> int {
    match s {
        PluginStatus::Healthy => 0,
        PluginStatus::Degraded => 1,
        PluginStatus::Unavailable => 2,
    }
}

/// Consecutive-failure counter with two thresholds.
#[derive(Debug, Clone, Copy)]
pub struct PluginHealth {
    pub consecutive_failures: u32,
    pub degraded_threshold: u32,
    pub unavailable_threshold: u32,
}

impl PluginHealth {
    /// A healthy plugin with the given thresholds.
    pub fn new(degraded_threshold: u32, unavailable_threshold: u32) -> (h: PluginHealth)
        ensures
            h.consecutive_failures == 0,
            h.degraded_threshold == degraded_threshold,
            h.unavailable_threshold == unavailable_threshold,
    {
        PluginHealth { consecutive_failures: 0, degraded_threshold, unavailable_threshold }
    }

    /// The current status.
    pub fn status(&self) -> (s: PluginStatus)
        ensures
            s == health_status(self.consecutive_failures, self.degraded_threshold, self.unavailable_threshold),
    {
        if self.consecutive_failures >= self.unavailable_threshold {
            PluginStatus::Unavailable
        } else if self.consecutive_failures >= self.degraded_threshold {
            PluginStatus::Degraded
        } else {
            PluginStatus::Healthy
        }
    }

    /// Counts one more failure.
    pub fn record_failure(&mut self)
        requires
            old(self).consecutive_failures < u32::MAX,
        ensures
            final(self).consecutive_failures == old(self).consecutive_failures + 1,
            final(self).degraded_threshold == old(self).degraded_threshold,
            final(self).unavailable_threshold == old(self).unavailable_threshold,
    {
        self.consecutive_failures = self.consecutive_failures + 1;
    }

    /// A success clears the failure count.
    pub fn record_success(&mut self)
        ensures
            final(self).consecutive_failures == 0,
            final(self).degraded_threshold == old(self).degraded_threshold,
            final(self).unavailable_threshold == old(self).unavailable_threshold,
    {
        self.consecutive_failures = 0;
    }

    /// Clears the failure count.
    pub fn reset(&mut self)
        ensures
            final(self).consecutive_failures == 0,
            final(self).degraded_threshold == old(self).degraded_threshold,
            final(self).unavailable_threshold == old(self).unavailable_threshold,
    {
        self.consecutive_failures = 0;
    }
}

/// With ordered thresholds, more consecutive failures never give a
/// healthier status.
pub proof fn law_status_monotone(f1: u32, f2: u32, degraded: u32, unavailable: u32)
    requires
        f1 <= f2,
        degraded <= unavailable,
    ensures
        severity(health_status(f1, degraded, unavailable)) <= severity(health_status(f2, degraded, unavailable)),
{
}

/// After a success (or a reset) a plugin whose thresholds are positive is
/// healthy again, however many failures came before.
pub proof fn law_success_restores_health(before: PluginHealth, after: PluginHealth)
    requires
        after.consecutive_failures == 0,
        after.degraded_threshold == before.degraded_threshold,
        after.unavailable_threshold == before.unavailable_threshold,
        before.degraded_threshold > 0,
        before.unavailable_threshold > 0,
    ensures
        health_status(after.consecutive_failures, after.degraded_threshold, after.unavailable_threshold)
            == PluginStatus::Healthy,
{
}

/// Failures reach `Unavailable` exactly at the unavailable threshold and
/// `Degraded` exactly between the two thresholds.
pub proof fn law_thresholds(failures: u32, degraded: u32, unavailable: u32)
    ensures
        (health_status(failures, degraded, unavailable) == PluginStatus::Unavailable) <==> failures >= unavailable,
        (health_status(failures, degraded, unavailable) == PluginStatus::Degraded) <==> (failures < unavailable
            && failures >= degraded),
{
}

/// A connection to one plugin.
pub struct PluginClient {
    pub name: String,
    pub socket_path: String,
    pub health: PluginHealth,
    pub timeout: Duration,
    pub enabled: bool,
}

/// One plugin as declared in the daemon configuration.
#[derive(Debug, Clone)]
pub struct PluginDeclaration {
    pub name: String,
    pub socket: String,
    pub enabled: bool,
    pub timeout_secs: u64,
}

/// The abstract value of a declaration.
pub struct DeclarationView {
    pub name: Seq<char>,
    pub socket: Seq<char>,
    pub enabled: bool,
    pub timeout_secs: u64,
}

impl View for PluginDeclaration {
    type V = DeclarationView;

    open spec fn view(&self) -> DeclarationView {
        DeclarationView { name: self.name@, socket: self.socket@, enabled: self.enabled, timeout_secs: self.timeout_secs }
    }
}

impl PluginDeclaration {
    /// A copy with the same value.
    pub fn duplicate(&self) -> (r: PluginDeclaration)
        ensures
            r@ == self@,
    {
        PluginDeclaration {
            name: self.name.clone(),
            socket: self.socket.clone(),
            enabled: self.enabled,
            timeout_secs: self.timeout_secs,
        }
    }
}

/// The plugin section of the daemon configuration.
#[derive(Debug, Clone)]
pub struct PluginConfig {
    pub plugins: Vec<PluginDeclaration>,
}

/// The values of a list of declarations.
pub open spec fn declarations_view(d: Seq<PluginDeclaration>) -> Seq<DeclarationView> {
    d.map_values(|p: PluginDeclaration| p@)
}

/// The declarations whose name differs from `name`, in order.
pub open spec fn without_plugin(d: Seq<DeclarationView>, name: Seq<char>) -> Seq<DeclarationView>
    decreases d.len(),
{
    if d.len() == 0 {
        Seq::empty()
    } else {
        let rest = without_plugin(d.drop_last(), name);
        if d.last().name != name {
            rest.push(d.last())
        } else {
            rest
        }
    }
}

/// The declarations with the first one named `name` (if any) switched to
/// `enabled`.
pub open spec fn with_enabled(d: Seq<DeclarationView>, name: Seq<char>, enabled: bool) -> Seq<DeclarationView> {
    if exists|i: int| 0 <= i < d.len() && d[i].name == name {
        let i = choose|i: int| 0 <= i < d.len() && d[i].name == name && forall|j: int| 0 <= j < i ==> d[j].name != name;
        d.update(i, DeclarationView { enabled, ..d[i] })
    } else {
        d
    }
}

impl PluginConfig {
    /// An empty configuration.
    pub fn new() -> (c: PluginConfig)
        ensures
            c.plugins@.len() == 0,
    {
        PluginConfig { plugins: Vec::new() }
    }

    /// Declares a plugin, enabled, with a 30-second timeout.
    pub fn add_plugin(&mut self, name: &str, socket: &str)
        ensures
            declarations_view(final(self).plugins@) == declarations_view(old(self).plugins@).push(
                DeclarationView { name: name@, socket: socket@, enabled: true, timeout_secs: 30 },
            ),
    {
        let ghost before = declarations_view(self.plugins@);
        self.plugins.push(PluginDeclaration { name: name.to_owned(), socket: socket.to_owned(), enabled: true, timeout_secs: 30 });
        assert(declarations_view(self.plugins@) =~= before.push(
            DeclarationView { name: name@, socket: socket@, enabled: true, timeout_secs: 30 },
        ));
    }

    /// Removes every declaration with the given name.
    pub fn remove_plugin(&mut self, name: &str)
        ensures
            declarations_view(final(self).plugins@) == without_plugin(declarations_view(old(self).plugins@), name@),
    {
        let key = name.to_owned();
        let ghost all = declarations_view(self.plugins@);
        let mut kept: Vec<PluginDeclaration> = Vec::new();
        let mut i: usize = 0;
        while i < self.plugins.len()
            invariant
                i <= self.plugins.len(),
                all == declarations_view(self.plugins@),
                key@ == name@,
                declarations_view(kept@) == without_plugin(all.take(i as int), name@),
            decreases self.plugins.len() - i,
        {
            assert(all.take(i as int + 1).drop_last() =~= all.take(i as int));
            assert(all.take(i as int + 1).last() == self.plugins@[i as int]@);
            let ghost before = declarations_view(kept@);
            if self.plugins[i].name != key {
                kept.push(self.plugins[i].duplicate());
                assert(declarations_view(kept@) =~= before.push(self.plugins@[i as int]@));
            }
            i = i + 1;
        }
        assert(all.take(i as int) =~= all);
        self.plugins = kept;
    }

    fn set_enabled(&mut self, name: &str, enabled: bool)
        ensures
            declarations_view(final(self).plugins@) == with_enabled(declarations_view(old(self).plugins@), name@, enabled),
    {
        let key = name.to_owned();
        let ghost d = declarations_view(self.plugins@);
        let mut i: usize = 0;
        while i < self.plugins.len()
            invariant
                i <= self.plugins.len(),
                self.plugins@ == old(self).plugins@,
                d == declarations_view(self.plugins@),
                key@ == name@,
                forall|j: int| 0 <= j < i ==> d[j].name != name@,
            decreases self.plugins.len() - i,
        {
            if self.plugins[i].name == key {
                let mut p = self.plugins[i].duplicate();
                p.enabled = enabled;
                let ghost pv = p@;
                self.plugins.set(i, p);
                proof {
                    assert(d[i as int].name == name@);
                    let c = choose|c: int| 0 <= c < d.len() && d[c].name == name@ && forall|j: int| 0 <= j < c ==> d[j].name != name@;
                    assert(c == i as int) by {
                        if c < i {
                        } else if c > i {
                            assert(d[i as int].name != name@);
                        }
                    }
                    assert(declarations_view(self.plugins@) =~= d.update(i as int, DeclarationView { enabled, ..d[i as int] }));
                }
                return;
            }
            i = i + 1;
        }
    }

    /// Enables the first declaration with the given name, if any.
    pub fn enable_plugin(&mut self, name: &str)
        ensures
            declarations_view(final(self).plugins@) == with_enabled(declarations_view(old(self).plugins@), name@, true),
    {
        self.set_enabled(name, true);
    }

    /// Disables the first declaration with the given name, if any.
    pub fn disable_plugin(&mut self, name: &str)
        ensures
            declarations_view(final(self).plugins@) == with_enabled(declarations_view(old(self).plugins@), name@, false),
    {
        self.set_enabled(name, false);
    }
}

/// Errors from the plugin registry.
#[derive(Debug)]
pub enum PluginError {
    /// No plugin has the given name.
    NotFound { name: String },
}

impl PluginError {
    /// Renders the error as text.
    pub fn to_string(&self) -> (s: String)
        ensures
            s@ == match self {
                PluginError::NotFound { name } => "plugin '"@ + name@ + "' not found"@,
            },
    {
        match self {
            PluginError::NotFound { name } => {
                let mut s = "plugin '".to_owned();
                s.append(name.as_str());
                s.append("' not found");
                s
            },
        }
    }
}

/// The abstract value of a plugin client.
pub struct ClientView {
    pub name: Seq<char>,
    pub socket_path: Seq<char>,
    pub health: PluginHealth,
    pub timeout: Duration,
    pub enabled: bool,
}

impl View for PluginClient {
    type V = ClientView;

    open spec fn view(&self) -> ClientView {
        ClientView {
            name: self.name@,
            socket_path: self.socket_path@,
            health: self.health,
            timeout: self.timeout,
            enabled: self.enabled,
        }
    }
}

/// A summary line for one plugin.
pub struct PluginSummary {
    pub name: String,
    pub enabled: bool,
    pub status: PluginStatus,
    pub command_count: usize,
}

/// The abstract value of a summary.
pub struct SummaryView {
    pub name: Seq<char>,
    pub enabled: bool,
    pub status: PluginStatus,
    pub command_count: usize,
}

impl View for PluginSummary {
    type V = SummaryView;

    open spec fn view(&self) -> SummaryView {
        SummaryView { name: self.name@, enabled: self.enabled, status: self.status, command_count: self.command_count }
    }
}

/// The summary of a client: its status comes from its health counter, and
/// no commands are counted.
pub open spec fn summary_of(c: ClientView) -> SummaryView {
    SummaryView {
        name: c.name,
        enabled: c.enabled,
        status: health_status(
            c.health.consecutive_failures,
            c.health.degraded_threshold,
            c.health.unavailable_threshold,
        ),
        command_count: 0,
    }
}

/// A freshly added client.
pub open spec fn new_client(name: Seq<char>, socket: Seq<char>, timeout: Duration) -> ClientView {
    ClientView {
        name,
        socket_path: socket,
        health: PluginHealth { consecutive_failures: 0, degraded_threshold: 3, unavailable_threshold: 10 },
        timeout,
        enabled: true,
    }
}

/// No two clients share a name.
pub open spec fn clients_unique(c: Seq<ClientView>) -> bool {
    forall|i: int, j: int| 0 <= i < c.len() && 0 <= j < c.len() && i != j ==> c[i].name != c[j].name
}

/// Registry of plugin clients, one per name, in the order in which the
/// names were first added.
pub struct PluginManager {
    plugins: Vec<PluginClient>,
}

impl View for PluginManager {
    type V = Seq<ClientView>;

    closed spec fn view(&self) -> Seq<ClientView> {
        self.plugins@.map_values(|c: PluginClient| c@)
    }
}

impl PluginManager {
    /// The clients' names are unique.
    pub open spec fn wf(&self) -> bool {
        clients_unique(self@)
    }

    /// An empty registry.
    pub fn new() -> (m: PluginManager)
        ensures
            m.wf(),
            m@ == Seq::<ClientView>::empty(),
    {
        let m = PluginManager { plugins: Vec::new() };
        assert(m@ =~= Seq::<ClientView>::empty());
        m
    }

    fn position(&self, name: &String) -> (r: Option<usize>)
        ensures
            match r {
                Some(i) => i < self@.len() && self@[i as int].name == name@,
                None => forall|j: int| 0 <= j < self@.len() ==> self@[j].name != name@,
            },
    {
        let mut i: usize = 0;
        while i < self.plugins.len()
            invariant
                i <= self.plugins.len(),
                forall|j: int| 0 <= j < i ==> self@[j].name != name@,
            decreases self.plugins.len() - i,
        {
            if self.plugins[i].name == *name {
                return Some(i);
            }
            i = i + 1;
        }
        None
    }

    /// Registers a plugin (replacing any with the same name): enabled,
    /// healthy, with thresholds 3 and 10.
    pub fn add_plugin(&mut self, name: &str, socket_path: &str, timeout: Duration)
        requires
            old(self).wf(),
        ensures
            final(self).wf(),
            (exists|i: int|
                0 <= i < old(self)@.len() && old(self)@[i].name == name@ && final(self)@ == old(self)@.update(
                    i,
                    new_client(name@, socket_path@, timeout),
                )) || ((forall|i: int| 0 <= i < old(self)@.len() ==> old(self)@[i].name != name@) && final(self)@
                == old(self)@.push(new_client(name@, socket_path@, timeout))),
    {
        let client = PluginClient {
            name: name.to_owned(),
            socket_path: socket_path.to_owned(),
            health: PluginHealth::new(3, 10),
            timeout,
            enabled: true,
        };
        let ghost cv = client@;
        assert(cv == new_client(name@, socket_path@, timeout));
        match self.position(&client.name) {
            Some(i) => {
                self.plugins.set(i, client);
                assert(self@ =~= old(self)@.update(i as int, cv));
            },
            None => {
                self.plugins.push(client);
                assert(self@ =~= old(self)@.push(cv));
            },
        }
    }

    /// Removes the plugin with the given name, if any.
    pub fn remove_plugin(&mut self, name: &str)
        requires
            old(self).wf(),
        ensures
            final(self).wf(),
            (exists|i: int| 0 <= i < old(self)@.len() && old(self)@[i].name == name@ && final(self)@ == old(self)@.remove(i))
                || ((forall|i: int| 0 <= i < old(self)@.len() ==> old(self)@[i].name != name@) && final(self)@ == old(self)@),
            forall|i: int| 0 <= i < final(self)@.len() ==> final(self)@[i].name != name@,
    {
        let key = name.to_owned();
        match self.position(&key) {
            Some(i) => {
                self.plugins.remove(i);
                assert(self@ =~= old(self)@.remove(i as int));
                assert forall|j: int| 0 <= j < self@.len() implies self@[j].name != name@ by {
                    let k = if j < i { j } else { j + 1 };
                    assert(self@[j] == old(self)@[k]);
                }
            },
            None => {},
        }
    }

    fn set_enabled(&mut self, name: &str, enabled: bool) -> (r: Result<(), PluginError>)
        requires
            old(self).wf(),
        ensures
            final(self).wf(),
            match r {
                Ok(()) => exists|i: int|
                    0 <= i < old(self)@.len() && old(self)@[i].name == name@ && final(self)@ == old(self)@.update(
                        i,
                        ClientView { enabled, ..old(self)@[i] },
                    ),
                Err(PluginError::NotFound { name: n }) => n@ == name@ && (forall|i: int|
                    0 <= i < old(self)@.len() ==> old(self)@[i].name != name@) && final(self)@ == old(self)@,
            },
    {
        let key = name.to_owned();
        match self.position(&key) {
            Some(i) => {
                let ghost before = self@;
                let old_client = &self.plugins[i];
                let client = PluginClient {
                    name: old_client.name.clone(),
                    socket_path: old_client.socket_path.clone(),
                    health: old_client.health,
                    timeout: old_client.timeout,
                    enabled,
                };
                let ghost cv = client@;
                self.plugins.set(i, client);
                assert(self@ =~= before.update(i as int, cv));
                Ok(())
            },
            None => Err(PluginError::NotFound { name: key }),
        }
    }

    /// Disables the plugin with the given name; fails when there is none.
    pub fn disable_plugin(&mut self, name: &str) -> (r: Result<(), PluginError>)
        requires
            old(self).wf(),
        ensures
            final(self).wf(),
            match r {
                Ok(()) => exists|i: int|
                    0 <= i < old(self)@.len() && old(self)@[i].name == name@ && final(self)@ == old(self)@.update(
                        i,
                        ClientView { enabled: false, ..old(self)@[i] },
                    ),
                Err(PluginError::NotFound { name: n }) => n@ == name@ && (forall|i: int|
                    0 <= i < old(self)@.len() ==> old(self)@[i].name != name@) && final(self)@ == old(self)@,
            },
    {
        self.set_enabled(name, false)
    }

    /// Enables the plugin with the given name; fails when there is none.
    pub fn enable_plugin(&mut self, name: &str) -> (r: Result<(), PluginError>)
        requires
            old(self).wf(),
        ensures
            final(self).wf(),
            match r {
                Ok(()) => exists|i: int|
                    0 <= i < old(self)@.len() && old(self)@[i].name == name@ && final(self)@ == old(self)@.update(
                        i,
                        ClientView { enabled: true, ..old(self)@[i] },
                    ),
                Err(PluginError::NotFound { name: n }) => n@ == name@ && (forall|i: int|
                    0 <= i < old(self)@.len() ==> old(self)@[i].name != name@) && final(self)@ == old(self)@,
            },
    {
        self.set_enabled(name, true)
    }

    /// A summary of every plugin, in registry order.
    pub fn list_plugins(&self) -> (r: Vec<PluginSummary>)
        ensures
            r@.map_values(|s: PluginSummary| s@) == self@.map_values(|c: ClientView| summary_of(c)),
    {
        let mut r: Vec<PluginSummary> = Vec::new();
        let mut i: usize = 0;
        while i < self.plugins.len()
            invariant
                i <= self.plugins.len(),
                r@.len() == i,
                forall|t: int| 0 <= t < i ==> #[trigger] r@[t]@ == summary_of(self@[t]),
            decreases self.plugins.len() - i,
        {
            let c = &self.plugins[i];
            r.push(PluginSummary { name: c.name.clone(), enabled: c.enabled, status: c.health.status(), command_count: 0 });
            i = i + 1;
        }
        assert(r@.map_values(|s: PluginSummary| s@) =~= self@.map_values(|c: ClientView| summary_of(c)));
        r
    }

    /// The client with the given name, if any.
    pub fn get_plugin_status(&self, name: &str) -> (r: Option<&PluginClient>)
        ensures
            match r {
                Some(c) => exists|i: int| 0 <= i < self@.len() && self@[i].name == name@ && c@ == self@[i],
                None => forall|i: int| 0 <= i < self@.len() ==> self@[i].name != name@,
            },
    {
        let key = name.to_owned();
        match self.position(&key) {
            Some(i) => Some(&self.plugins[i]),
            None => None,
        }
    }

    /// The commands that plugins contribute: none are collected yet.
    pub fn get_all_plugin_commands(&self) -> (r: Vec<String>)
        ensures
            r@.len() == 0,
    {
        Vec::new()
    }
}

} // verus!
