//! The command registry: a base layer of daemon-wide commands and, per
//! session, a layer of the session's own (MCP tools, plugins, skills).
use vstd::prelude::*;

use crate::completion::{contains_lowercase, first_n, name_matches};
use crate::keyed::KeyedList;
use crate::text::{chars_of, is_substring, lowercase, same_text, to_lowercase};

verus! {

/// Where a command comes from.
#[derive(Debug, Clone, Copy, PartialEq, Eq, Structural)]
pub enum CommandCategory {
    Service,
    ClaudeCode,
    Plugin,
    Skill,
    Mcp,
}

/// How a command is run.
#[derive(Debug, Clone, Copy, PartialEq, Eq, Structural)]
pub enum ExecutionMode {
    Local,
    Passthrough,
    Plugin,
}

/// One command.
#[derive(Debug)]
pub struct CommandEntry {
    pub name: String,
    pub description: String,
    pub category: CommandCategory,
    pub execution_mode: ExecutionMode,
    pub source: String,
    pub args_schema: String,
    pub group: Option<String>,
    pub display_name: Option<String>,
}

/// A command as the specifications see it.
pub struct EntryView {
    pub name: Seq<char>,
    pub description: Seq<char>,
    pub category: CommandCategory,
    pub execution_mode: ExecutionMode,
    pub source: Seq<char>,
    pub args_schema: Seq<char>,
    pub group: Option<Seq<char>>,
    pub display_name: Option<Seq<char>>,
}

pub open spec fn opt_text(o: Option<String>) -> Option<Seq<char>> {
    match o {
        Some(s) => Some(s@),
        None => None,
    }
}

fn clone_opt(o: &Option<String>) -> (r: Option<String>)
    ensures
        opt_text(r) == opt_text(*o),
{
    match o {
        Some(s) => Some(s.clone()),
        None => None,
    }
}

impl View for CommandEntry {
    type V = EntryView;

    open spec fn view(&self) -> EntryView {
        EntryView {
            name: self.name@,
            description: self.description@,
            category: self.category,
            execution_mode: self.execution_mode,
            source: self.source@,
            args_schema: self.args_schema@,
            group: opt_text(self.group),
            display_name: opt_text(self.display_name),
        }
    }
}

impl CommandEntry {
    /// A command with no argument schema, group or display name.
    pub fn new(
        name: &str,
        description: &str,
        category: CommandCategory,
        execution_mode: ExecutionMode,
        source: &str,
    ) -> (r: Self)
        ensures
            r@ == (EntryView {
                name: name@,
                description: description@,
                category,
                execution_mode,
                source: source@,
                args_schema: Seq::empty(),
                group: None,
                display_name: None,
            }),
    {
        CommandEntry {
            name: name.to_owned(),
            description: description.to_owned(),
            category,
            execution_mode,
            source: source.to_owned(),
            args_schema: String::new(),
            group: None,
            display_name: None,
        }
    }

    /// A copy of the command.
    pub fn duplicate(&self) -> (r: Self)
        ensures
            r@ == self@,
    {
        CommandEntry {
            name: self.name.clone(),
            description: self.description.clone(),
            category: self.category,
            execution_mode: self.execution_mode,
            source: self.source.clone(),
            args_schema: self.args_schema.clone(),
            group: clone_opt(&self.group),
            display_name: clone_opt(&self.display_name),
        }
    }
}

/// The views of a list of commands.
pub open spec fn entries_view(es: Seq<CommandEntry>) -> Seq<EntryView> {
    es.map_values(|e: CommandEntry| e@)
}

/// The commands whose name contains the query, case-insensitively, in
/// order.
pub open spec fn matching_entries(es: Seq<EntryView>, query: Seq<char>) -> Seq<EntryView>
    decreases es.len(),
{
    if es.len() == 0 {
        Seq::empty()
    } else {
        let rest = matching_entries(es.drop_last(), query);
        if name_matches(es.last().name, query) {
            rest.push(es.last())
        } else {
            rest
        }
    }
}

/// The commands whose source is not `source`, in order.
pub open spec fn without_source(es: Seq<EntryView>, source: Seq<char>) -> Seq<EntryView>
    decreases es.len(),
{
    if es.len() == 0 {
        Seq::empty()
    } else {
        let rest = without_source(es.drop_last(), source);
        if es.last().source != source {
            rest.push(es.last())
        } else {
            rest
        }
    }
}

/// The MCP tool commands, in order.
pub open spec fn mcp_only(es: Seq<EntryView>) -> Seq<EntryView>
    decreases es.len(),
{
    if es.len() == 0 {
        Seq::empty()
    } else {
        let rest = mcp_only(es.drop_last());
        if es.last().category == CommandCategory::Mcp {
            rest.push(es.last())
        } else {
            rest
        }
    }
}

proof fn lemma_entries_view_push(s: Seq<CommandEntry>, e: CommandEntry)
    ensures
        entries_view(s.push(e)) == entries_view(s).push(e@),
{
    let a = entries_view(s.push(e));
    let b = entries_view(s).push(e@);
    assert forall|j: int| 0 <= j < a.len() implies #[trigger] a[j] == b[j] by {
        if j < s.len() {
            assert(s.push(e)[j] == s[j]);
        }
    }
    assert(a =~= b);
}

fn duplicate_all(es: &Vec<CommandEntry>) -> (r: Vec<CommandEntry>)
    ensures
        entries_view(r@) == entries_view(es@),
{
    let ghost all = entries_view(es@);
    let mut r: Vec<CommandEntry> = Vec::new();
    let mut i: usize = 0;
    while i < es.len()
        invariant
            i <= es.len(),
            all == entries_view(es@),
            entries_view(r@) == all.take(i as int),
        decreases es.len() - i,
    {
        let e = es[i].duplicate();
        proof {
            lemma_entries_view_push(r@, e);
            assert(all.take(i as int).push(e@) =~= all.take(i as int + 1));
        }
        r.push(e);
        i = i + 1;
    }
    assert(all.take(i as int) =~= all);
    r
}

fn append_all(dst: &mut Vec<CommandEntry>, src: Vec<CommandEntry>)
    ensures
        entries_view(final(dst)@) == entries_view(old(dst)@) + entries_view(src@),
{
    let ghost start = entries_view(dst@);
    let ghost sv = entries_view(src@);
    let mut i: usize = 0;
    while i < src.len()
        invariant
            i <= src.len(),
            sv == entries_view(src@),
            entries_view(dst@) == start + sv.take(i as int),
        decreases src.len() - i,
    {
        let e = src[i].duplicate();
        proof {
            lemma_entries_view_push(dst@, e);
            assert((start + sv.take(i as int)).push(e@) =~= start + sv.take(i as int + 1));
        }
        dst.push(e);
        i = i + 1;
    }
    assert(sv.take(i as int) =~= sv);
}

/// The daemon's own service commands, which the registry starts with.
pub fn builtin_commands() -> (r: Vec<CommandEntry>)
    ensures
        r@.len() == 5,
        forall|i: int|
            0 <= i < r@.len() ==> (#[trigger] r@[i])@.category == CommandCategory::Service
                && r@[i]@.execution_mode == ExecutionMode::Local && r@[i]@.source == "built-in"@,
        r@[0]@.name == "pwd"@,
        r@[1]@.name == "cd"@,
        r@[2]@.name == "bash"@,
        r@[3]@.name == "exit-daemon"@,
        r@[4]@.name == "reload-remote"@,
{
    let mut r: Vec<CommandEntry> = Vec::new();
    r.push(
        CommandEntry::new(
            "pwd",
            "Print the working directory",
            CommandCategory::Service,
            ExecutionMode::Local,
            "built-in",
        ),
    );
    r.push(
        CommandEntry::new("cd", "Change the working directory", CommandCategory::Service, ExecutionMode::Local, "built-in"),
    );
    r.push(
        CommandEntry::new("bash", "Run a shell command", CommandCategory::Service, ExecutionMode::Local, "built-in"),
    );
    r.push(
        CommandEntry::new("exit-daemon", "Shut the daemon down", CommandCategory::Service, ExecutionMode::Local, "built-in"),
    );
    r.push(
        CommandEntry::new(
            "reload-remote",
            "Rediscover commands, agents and files",
            CommandCategory::Service,
            ExecutionMode::Local,
            "built-in",
        ),
    );
    r
}

/// The abstract state of a registry.
pub struct RegistryView {
    /// The daemon-wide commands.
    pub base: Seq<EntryView>,
    /// Each session's own commands.
    pub layers: Map<Seq<char>, Seq<EntryView>>,
}

/// The commands a session sees: the base layer, then its own.
pub open spec fn session_commands(v: RegistryView, session_id: Seq<char>) -> Seq<EntryView> {
    v.base + if v.layers.dom().contains(session_id) {
        v.layers[session_id]
    } else {
        Seq::empty()
    }
}

/// The views of the session layers.
pub open spec fn layers_view(m: Map<Seq<char>, Vec<CommandEntry>>) -> Map<Seq<char>, Seq<EntryView>> {
    Map::new(|k: Seq<char>| m.dom().contains(k), |k: Seq<char>| entries_view(m[k]@))
}

/// A registry as it starts: the built-in service commands, and no session
/// layer.
pub open spec fn is_initial(v: RegistryView) -> bool {
    &&& v.layers == Map::<Seq<char>, Seq<EntryView>>::empty()
    &&& v.base.len() == 5
    &&& forall|i: int|
        0 <= i < 5 ==> (#[trigger] v.base[i]).source == "built-in"@ && v.base[i].category == CommandCategory::Service
            && v.base[i].execution_mode == ExecutionMode::Local
    &&& v.base[0].name == "pwd"@
    &&& v.base[1].name == "cd"@
    &&& v.base[2].name == "bash"@
    &&& v.base[3].name == "exit-daemon"@
    &&& v.base[4].name == "reload-remote"@
}

/// Holds the commands available to sessions.
#[derive(Debug)]
pub struct CommandRegistry {
    base_entries: Vec<CommandEntry>,
    session_layers: KeyedList<Vec<CommandEntry>>,
}

impl View for CommandRegistry {
    type V = RegistryView;

    closed spec fn view(&self) -> RegistryView {
        RegistryView { base: entries_view(self.base_entries@), layers: layers_view(self.session_layers.map()) }
    }
}

/// The commands among `es` that match `query`, at most `max_results` of
/// them.
fn search_in(es: &Vec<CommandEntry>, query: &str, max_results: usize) -> (r: Vec<CommandEntry>)
    ensures
        entries_view(r@) == first_n(matching_entries(entries_view(es@), query@), max_results as nat),
{
    let ghost all = entries_view(es@);
    let query_lower = chars_of(to_lowercase(query).as_str());
    let mut r: Vec<CommandEntry> = Vec::new();
    let mut i: usize = 0;
    while i < es.len() && r.len() < max_results
        invariant
            i <= es.len(),
            all == entries_view(es@),
            query_lower@ == lowercase(query@),
            r@.len() <= max_results,
            entries_view(r@) == matching_entries(all.take(i as int), query@),
        decreases es.len() - i,
    {
        assert(all.take(i as int + 1).drop_last() =~= all.take(i as int));
        assert(all.take(i as int + 1).last() == es@[i as int]@);
        let ghost before = r@;
        if contains_lowercase(es[i].name.as_str(), &query_lower) {
            let e = es[i].duplicate();
            r.push(e);
            assert(entries_view(r@) =~= entries_view(before).push(es@[i as int]@)) by {
                assert(r@ == before.push(e));
            }
        }
        i = i + 1;
    }
    proof {
        lemma_matching_prefix(all, query@, i as int);
        let m = matching_entries(all, query@);
        let mr = entries_view(r@);
        if i == es.len() {
            assert(all.take(i as int) =~= all);
        } else {
            assert(mr =~= m.take(max_results as int));
        }
    }
    r
}

proof fn lemma_matching_prefix(es: Seq<EntryView>, query: Seq<char>, i: int)
    requires
        0 <= i <= es.len(),
    ensures
        matching_entries(es.take(i), query).len() <= matching_entries(es, query).len(),
        forall|j: int|
            0 <= j < matching_entries(es.take(i), query).len() ==> #[trigger] matching_entries(es.take(i), query)[j]
                == matching_entries(es, query)[j],
    decreases es.len() - i,
{
    if i < es.len() {
        lemma_matching_prefix(es, query, i + 1);
        assert(es.take(i + 1).drop_last() =~= es.take(i));
        let a = matching_entries(es.take(i), query);
        let b = matching_entries(es.take(i + 1), query);
        assert forall|j: int| 0 <= j < a.len() implies #[trigger] a[j] == matching_entries(es, query)[j] by {
            assert(a[j] == b[j]);
        }
    } else {
        assert(es.take(i) =~= es);
    }
}

impl CommandRegistry {
    /// The internal consistency of the registry.
    pub closed spec fn wf(&self) -> bool {
        self.session_layers.wf()
    }

    /// A registry holding the built-in commands and no session layers.
    pub fn new() -> (r: Self)
        ensures
            r.wf(),
            is_initial(r@),
    {
        let r = CommandRegistry { base_entries: builtin_commands(), session_layers: KeyedList::new() };
        assert(r@.layers =~= Map::<Seq<char>, Seq<EntryView>>::empty());
        r
    }

    /// Adds a command to the base layer.
    pub fn add(&mut self, entry: CommandEntry)
        requires
            old(self).wf(),
        ensures
            final(self).wf(),
            final(self)@ == (RegistryView { base: old(self)@.base.push(entry@), ..old(self)@ }),
    {
        let ghost before = self.base_entries@;
        self.base_entries.push(entry);
        assert(entries_view(self.base_entries@) =~= entries_view(before).push(entry@));
    }

    /// The base commands followed by the session's own.
    pub fn get_for_session(&self, session_id: &str) -> (r: Vec<CommandEntry>)
        requires
            self.wf(),
        ensures
            entries_view(r@) == session_commands(self@, session_id@),
    {
        let mut r = duplicate_all(&self.base_entries);
        match self.session_layers.get(session_id) {
            Some(layer) => {
                let extra = duplicate_all(layer);
                append_all(&mut r, extra);
            },
            None => {
                assert(entries_view(r@) =~= entries_view(self.base_entries@) + Seq::<EntryView>::empty());
            },
        }
        r
    }

    /// The base commands.
    pub fn get_all(&self) -> (r: Vec<CommandEntry>)
        ensures
            entries_view(r@) == self@.base,
    {
        duplicate_all(&self.base_entries)
    }

    /// Searches the commands a session sees by name (case-insensitive
    /// substring); at most `max_results` of them, in order.
    pub fn search_for_session(&self, session_id: &str, query: &str, max_results: usize) -> (r: Vec<CommandEntry>)
        requires
            self.wf(),
        ensures
            entries_view(r@) == first_n(matching_entries(session_commands(self@, session_id@), query@), max_results as nat),
    {
        let all = self.get_for_session(session_id);
        search_in(&all, query, max_results)
    }

    /// Searches the base commands by name (case-insensitive substring); at
    /// most `max_results` of them, in order.
    pub fn search(&self, query: &str, max_results: usize) -> (r: Vec<CommandEntry>)
        ensures
            entries_view(r@) == first_n(matching_entries(self@.base, query@), max_results as nat),
    {
        search_in(&self.base_entries, query, max_results)
    }

    /// Removes every base command from `source`.
    pub fn clear_source(&mut self, source: &str)
        requires
            old(self).wf(),
        ensures
            final(self).wf(),
            final(self)@ == (RegistryView { base: without_source(old(self)@.base, source@), ..old(self)@ }),
    {
        let ghost all = entries_view(self.base_entries@);
        let mut kept: Vec<CommandEntry> = Vec::new();
        let mut i: usize = 0;
        while i < self.base_entries.len()
            invariant
                i <= self.base_entries.len(),
                all == entries_view(self.base_entries@),
                entries_view(kept@) == without_source(all.take(i as int), source@),
            decreases self.base_entries.len() - i,
        {
            assert(all.take(i as int + 1).drop_last() =~= all.take(i as int));
            assert(all.take(i as int + 1).last() == self.base_entries@[i as int]@);
            if !same_text(self.base_entries[i].source.as_str(), source) {
                let e = self.base_entries[i].duplicate();
                let ghost before = kept@;
                kept.push(e);
                assert(entries_view(kept@) =~= entries_view(before).push(e@)) by {
                    assert(kept@ == before.push(e));
                }
            }
            i = i + 1;
        }
        assert(all.take(i as int) =~= all);
        self.base_entries = kept;
    }

    /// Replaces a session's own commands.
    pub fn set_session_entries(&mut self, session_id: &str, entries: Vec<CommandEntry>)
        requires
            old(self).wf(),
        ensures
            final(self).wf(),
            final(self)@ == (RegistryView {
                layers: old(self)@.layers.insert(session_id@, entries_view(entries@)),
                ..old(self)@
            }),
    {
        let ghost m = self.session_layers.map();
        let ghost ev = entries_view(entries@);
        self.session_layers.insert(session_id.to_owned(), entries);
        assert(layers_view(self.session_layers.map()) =~= layers_view(m).insert(session_id@, ev));
    }

    /// Replaces a session's plugin and skill commands, keeping its MCP tools
    /// (which the session start set): the kept MCP tools come first, then
    /// `plugin_entries`.
    pub fn update_session_plugin_entries(&mut self, session_id: &str, plugin_entries: Vec<CommandEntry>)
        requires
            old(self).wf(),
        ensures
            final(self).wf(),
            final(self)@ == (RegistryView {
                layers: old(self)@.layers.insert(
                    session_id@,
                    mcp_only(
                        if old(self)@.layers.dom().contains(session_id@) {
                            old(self)@.layers[session_id@]
                        } else {
                            Seq::empty()
                        },
                    ) + entries_view(plugin_entries@),
                ),
                ..old(self)@
            }),
    {
        let mut combined: Vec<CommandEntry> = Vec::new();
        let ghost existing = if self@.layers.dom().contains(session_id@) {
            self@.layers[session_id@]
        } else {
            Seq::empty()
        };
        match self.session_layers.get(session_id) {
            Some(layer) => {
                let mut i: usize = 0;
                while i < layer.len()
                    invariant
                        i <= layer.len(),
                        existing == entries_view(layer@),
                        entries_view(combined@) == mcp_only(existing.take(i as int)),
                    decreases layer.len() - i,
                {
                    assert(existing.take(i as int + 1).drop_last() =~= existing.take(i as int));
                    assert(existing.take(i as int + 1).last() == layer@[i as int]@);
                    if layer[i].category == CommandCategory::Mcp {
                        let e = layer[i].duplicate();
                        let ghost before = combined@;
                        combined.push(e);
                        assert(entries_view(combined@) =~= entries_view(before).push(e@)) by {
                            assert(combined@ == before.push(e));
                        }
                    }
                    i = i + 1;
                }
                assert(existing.take(i as int) =~= existing);
            },
            None => {
                assert(entries_view(combined@) =~= mcp_only(existing));
            },
        }
        append_all(&mut combined, plugin_entries);
        let ghost cv = entries_view(combined@);
        let ghost m = self.session_layers.map();
        self.session_layers.insert(session_id.to_owned(), combined);
        assert(layers_view(self.session_layers.map()) =~= layers_view(m).insert(session_id@, cv));
    }

    /// Removes a session's own commands.
    pub fn remove_session(&mut self, session_id: &str)
        requires
            old(self).wf(),
        ensures
            final(self).wf(),
            final(self)@ == (RegistryView { layers: old(self)@.layers.remove(session_id@), ..old(self)@ }),
    {
        let ghost m = self.session_layers.map();
        let _ = self.session_layers.take(session_id);
        assert(layers_view(self.session_layers.map()) =~= layers_view(m).remove(session_id@));
    }
}

impl Default for CommandRegistry {
    fn default() -> (r: Self)
        ensures
            r.wf(),
            is_initial(r@),
    {
        Self::new()
    }
}

/// What one discovery pass found: the commands, and a warning for each
/// command that the help output lists and the known set lacks.
#[derive(Debug)]
pub struct DiscoveryResult {
    pub commands: Vec<CommandEntry>,
    pub warnings: Vec<String>,
}

/// The names of a list of commands.
pub open spec fn names_of(es: Seq<EntryView>) -> Seq<Seq<char>> {
    es.map_values(|e: EntryView| e.name)
}

/// The commands whose name no earlier command has, in order: the first
/// command of each name wins.
pub open spec fn first_by_name(es: Seq<EntryView>) -> Seq<EntryView>
    decreases es.len(),
{
    if es.len() == 0 {
        Seq::empty()
    } else {
        let rest = first_by_name(es.drop_last());
        if names_of(es.drop_last()).contains(es.last().name) {
            rest
        } else {
            rest.push(es.last())
        }
    }
}

/// The warning for each command that only the help output lists.
pub open spec fn help_warnings(unknown: Seq<EntryView>) -> Seq<Seq<char>> {
    unknown.map_values(|e: EntryView| "Unknown command from help: "@ + e.name)
}

/// The commands that only the help output lists, none when there was no
/// help output.
pub open spec fn help_part(help_unknown: Option<Vec<CommandEntry>>) -> Seq<EntryView> {
    match help_unknown {
        Some(u) => entries_view(u@),
        None => Seq::empty(),
    }
}

/// Merges the commands of one discovery pass: the known commands, those
/// that the help output lists beyond them (`None` when there was no help
/// output) and the user's own, keeping the first command of each name.
pub fn merge_discovery(
    known: Vec<CommandEntry>,
    help_unknown: Option<Vec<CommandEntry>>,
    user_commands: Vec<CommandEntry>,
) -> (r: DiscoveryResult)
    ensures
        entries_view(r.commands@) == first_by_name(
            entries_view(known@) + help_part(help_unknown) + entries_view(user_commands@),
        ),
        r.warnings.deep_view() == help_warnings(help_part(help_unknown)),
{
    let ghost unknown_view = help_part(help_unknown);
    let mut all = known;
    let mut warnings: Vec<String> = Vec::new();
    match help_unknown {
        Some(unknown) => {
            let mut i: usize = 0;
            while i < unknown.len()
                invariant
                    i <= unknown.len(),
                    unknown_view == entries_view(unknown@),
                    warnings.deep_view() == help_warnings(unknown_view.take(i as int)),
                decreases unknown.len() - i,
            {
                let mut w = "Unknown command from help: ".to_owned();
                w.append(unknown[i].name.as_str());
                let ghost before = warnings.deep_view();
                warnings.push(w);
                assert(warnings.deep_view() =~= help_warnings(unknown_view.take(i as int + 1))) by {
                    assert(warnings.deep_view() =~= before.push(w@));
                }
                i = i + 1;
            }
            assert(unknown_view.take(i as int) =~= unknown_view);
            append_all(&mut all, unknown);
        },
        None => {
            assert(warnings.deep_view() =~= help_warnings(unknown_view));
            assert(entries_view(all@) =~= entries_view(all@) + unknown_view);
        },
    }
    append_all(&mut all, user_commands);
    let ghost av = entries_view(all@);
    let mut kept: Vec<CommandEntry> = Vec::new();
    let mut seen: Vec<String> = Vec::new();
    let mut i: usize = 0;
    while i < all.len()
        invariant
            i <= all.len(),
            av == entries_view(all@),
            entries_view(kept@) == first_by_name(av.take(i as int)),
            seen.deep_view() == names_of(av.take(i as int)),
        decreases all.len() - i,
    {
        assert(av.take(i as int + 1).drop_last() =~= av.take(i as int));
        assert(av.take(i as int + 1).last() == all@[i as int]@);
        if !crate::names::contains_name(&seen, &all[i].name) {
            let e = all[i].duplicate();
            proof {
                lemma_entries_view_push(kept@, e);
            }
            kept.push(e);
        }
        let ghost seen_before = seen.deep_view();
        seen.push(all[i].name.clone());
        assert(seen.deep_view() =~= names_of(av.take(i as int + 1))) by {
            assert(seen.deep_view() =~= seen_before.push(all@[i as int].name@));
        }
        i = i + 1;
    }
    assert(av.take(i as int) =~= av);
    DiscoveryResult { commands: kept, warnings }
}

/// Sessions do not see each other's commands: setting one session's layer
/// leaves what every other session sees unchanged.
pub proof fn law_sessions_isolated(v: RegistryView, s1: Seq<char>, s2: Seq<char>, layer: Seq<EntryView>)
    requires
        s1 != s2,
    ensures
        session_commands(RegistryView { layers: v.layers.insert(s1, layer), ..v }, s2) == session_commands(v, s2),
        session_commands(RegistryView { layers: v.layers.insert(s1, layer), ..v }, s1) == v.base + layer,
{
}

/// Removing a session's layer leaves it the base commands, and removing it
/// again changes nothing.
pub proof fn law_remove_session_idempotent(v: RegistryView, s: Seq<char>)
    ensures
        session_commands(RegistryView { layers: v.layers.remove(s), ..v }, s) == v.base,
        (RegistryView { layers: v.layers.remove(s).remove(s), ..v }).layers == v.layers.remove(s),
{
    assert(v.base + Seq::<EntryView>::empty() =~= v.base);
    assert(v.layers.remove(s).remove(s) =~= v.layers.remove(s));
}


/// Every command a name search can return has a name that contains the
/// query, compared without case.
proof fn lemma_entries_found_match(es: Seq<EntryView>, query: Seq<char>)
    ensures
        forall|j: int|
            0 <= j < matching_entries(es, query).len() ==> is_substring(
                lowercase(query),
                lowercase((#[trigger] matching_entries(es, query)[j]).name),
            ),
    decreases es.len(),
{
    if es.len() > 0 {
        lemma_entries_found_match(es.drop_last(), query);
        let rest = matching_entries(es.drop_last(), query);
        let all = matching_entries(es, query);
        assert forall|j: int| 0 <= j < all.len() implies is_substring(lowercase(query), lowercase((#[trigger] all[j]).name)) by {
            if j < rest.len() {
                assert(all[j] == rest[j]);
            }
        }
    }
}

/// Every command whose name contains the query (without case) is among the
/// matches.
proof fn lemma_matching_entry_found(es: Seq<EntryView>, query: Seq<char>, i: int)
    requires
        0 <= i < es.len(),
        is_substring(lowercase(query), lowercase(es[i].name)),
    ensures
        matching_entries(es, query).contains(es[i]),
    decreases es.len(),
{
    let rest = matching_entries(es.drop_last(), query);
    let all = matching_entries(es, query);
    if i == es.len() - 1 {
        assert(all == rest.push(es[i]));
        assert(all[rest.len() as int] == es[i]);
    } else {
        assert(es.drop_last()[i] == es[i]);
        lemma_matching_entry_found(es.drop_last(), query, i);
        let k = choose|k: int| 0 <= k < rest.len() && rest[k] == es[i];
        assert(all[k] == rest[k]);
    }
}

/// Command search is by name alone: every command it returns has a name
/// containing the query (compared without case; the description plays no
/// part), and when fewer than `max_results` commands match, every command
/// whose name contains the query is returned.
pub proof fn law_command_search_by_name(es: Seq<EntryView>, query: Seq<char>, max_results: nat)
    ensures
        forall|j: int|
            0 <= j < first_n(matching_entries(es, query), max_results).len() ==> is_substring(
                lowercase(query),
                lowercase((#[trigger] first_n(matching_entries(es, query), max_results)[j]).name),
            ),
        matching_entries(es, query).len() < max_results ==> forall|i: int|
            #![trigger es[i]]
            0 <= i < es.len() && is_substring(lowercase(query), lowercase(es[i].name)) ==> first_n(
                matching_entries(es, query),
                max_results,
            ).contains(es[i]),
{
    lemma_entries_found_match(es, query);
    let all = matching_entries(es, query);
    let r = first_n(all, max_results);
    assert forall|j: int| 0 <= j < r.len() implies is_substring(lowercase(query), lowercase((#[trigger] r[j]).name)) by {
        assert(r[j] == all[j]);
    }
    if all.len() < max_results {
        assert forall|i: int|
            #![trigger es[i]]
            0 <= i < es.len() && is_substring(lowercase(query), lowercase(es[i].name)) implies r.contains(es[i]) by {
            lemma_matching_entry_found(es, query, i);
        }
    }
}

} // verus!
