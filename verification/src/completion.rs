//! Completion indexes: known agents (for `@` completion) and filesystem
//! paths, searched by case-insensitive substring.
use vstd::prelude::*;

use crate::text::{chars_of, contains_chars, is_substring, lowercase, to_lowercase};

verus! {

/// Whether `name` matches `query` (case-insensitive substring).
pub open spec fn name_matches(name: Seq<char>, query: Seq<char>) -> bool {
    is_substring(lowercase(query), lowercase(name))
}

/// Whether the lower-cased `name` contains the already lower-cased query.
pub(crate) fn contains_lowercase(name: &str, query_lower: &Vec<char>) -> (r: bool)
    ensures
        r == is_substring(query_lower@, lowercase(name@)),
{
    let lower = to_lowercase(name);
    let hay = chars_of(lower.as_str());
    contains_chars(&hay, query_lower)
}

/// The kind of agent.
#[derive(Debug, Clone, Copy, PartialEq, Eq, Structural)]
pub enum AgentKind {
    ClaudeInternal,
    DaemonOrchestrated,
    TeamMember,
}

/// The current status of an agent.
#[derive(Debug, Clone, Copy, PartialEq, Eq, Structural)]
pub enum AgentStatus {
    Idle,
    Working,
    Done,
    Failed,
}

/// Information about a single agent.
#[derive(Debug, Clone)]
pub struct AgentInfo {
    pub name: String,
    pub kind: AgentKind,
    pub status: AgentStatus,
    pub session_id: Option<String>,
}

/// The abstract value of an [`AgentInfo`].
pub struct AgentInfoView {
    pub name: Seq<char>,
    pub kind: AgentKind,
    pub status: AgentStatus,
    pub session_id: Option<Seq<char>>,
}

impl View for AgentInfo {
    type V = AgentInfoView;

    open spec fn view(&self) -> AgentInfoView {
        AgentInfoView {
            name: self.name@,
            kind: self.kind,
            status: self.status,
            session_id: match self.session_id {
                Some(s) => Some(s@),
                None => None,
            },
        }
    }
}

impl AgentInfo {
    /// A copy with the same value.
    pub fn duplicate(&self) -> (r: AgentInfo)
        ensures
            r@ == self@,
    {
        AgentInfo {
            name: self.name.clone(),
            kind: self.kind,
            status: self.status,
            session_id: match &self.session_id {
                Some(s) => Some(s.clone()),
                None => None,
            },
        }
    }
}

/// The agents among `agents` that match `query`, in order; an empty query
/// matches every agent.
pub open spec fn matching_agents(agents: Seq<AgentInfoView>, query: Seq<char>) -> Seq<AgentInfoView>
    decreases agents.len(),
{
    if agents.len() == 0 {
        Seq::empty()
    } else {
        let rest = matching_agents(agents.drop_last(), query);
        if query.len() == 0 || name_matches(agents.last().name, query) {
            rest.push(agents.last())
        } else {
            rest
        }
    }
}

proof fn lemma_matching_agents_prefix(agents: Seq<AgentInfoView>, query: Seq<char>, i: int)
    requires
        0 <= i <= agents.len(),
    ensures
        matching_agents(agents.take(i), query).len() <= matching_agents(agents, query).len(),
        forall|j: int| 0 <= j < matching_agents(agents.take(i), query).len()
            ==> #[trigger] matching_agents(agents.take(i), query)[j] == matching_agents(agents, query)[j],
    decreases agents.len() - i,
{
    if i < agents.len() {
        lemma_matching_agents_prefix(agents, query, i + 1);
        assert(agents.take(i + 1).drop_last() =~= agents.take(i));
        let a = matching_agents(agents.take(i), query);
        let b = matching_agents(agents.take(i + 1), query);
        assert forall|j: int| 0 <= j < a.len() implies #[trigger] a[j] == matching_agents(agents, query)[j] by {
            assert(a[j] == b[j]);
        }
    } else {
        assert(agents.take(i) =~= agents);
    }
}

/// The first `max` elements of `s` (all of them when there are fewer).
pub open spec fn first_n<A>(s: Seq<A>, max: nat) -> Seq<A> {
    if s.len() <= max {
        s
    } else {
        s.take(max as int)
    }
}

/// Tracks known agents for `@`-prefix completion, one entry per name, in
/// the order in which the names were first added.
pub struct AgentLister {
    agents: Vec<AgentInfo>,
}

impl View for AgentLister {
    type V = Seq<AgentInfoView>;

    closed spec fn view(&self) -> Seq<AgentInfoView> {
        self.agents@.map_values(|a: AgentInfo| a@)
    }
}

/// No two entries share a name.
pub open spec fn names_unique(agents: Seq<AgentInfoView>) -> bool {
    forall|i: int, j: int| 0 <= i < agents.len() && 0 <= j < agents.len() && i != j ==> agents[i].name != agents[j].name
}

impl AgentLister {
    /// The entries' names are unique.
    pub open spec fn wf(&self) -> bool {
        names_unique(self@)
    }

    /// An empty lister.
    pub fn new() -> (r: AgentLister)
        ensures
            r.wf(),
            r@ == Seq::<AgentInfoView>::empty(),
    {
        let r = AgentLister { agents: Vec::new() };
        assert(r@ =~= Seq::<AgentInfoView>::empty());
        r
    }

    fn position(&self, name: &String) -> (r: Option<usize>)
        ensures
            match r {
                Some(i) => i < self@.len() && self@[i as int].name == name@,
                None => forall|j: int| 0 <= j < self@.len() ==> self@[j].name != name@,
            },
    {
        let mut i: usize = 0;
        while i < self.agents.len()
            invariant
                i <= self.agents.len(),
                forall|j: int| 0 <= j < i ==> self@[j].name != name@,
            decreases self.agents.len() - i,
        {
            if self.agents[i].name == *name {
                return Some(i);
            }
            i = i + 1;
        }
        None
    }

    /// Inserts an agent, or replaces the entry with the same name.
    pub fn update(&mut self, info: AgentInfo)
        requires
            old(self).wf(),
        ensures
            final(self).wf(),
            (exists|i: int| 0 <= i < old(self)@.len() && old(self)@[i].name == info@.name && final(self)@ == old(self)@.update(i, info@))
                || ((forall|i: int| 0 <= i < old(self)@.len() ==> old(self)@[i].name != info@.name)
                    && final(self)@ == old(self)@.push(info@)),
    {
        let ghost iv = info@;
        match self.position(&info.name) {
            Some(i) => {
                self.agents.set(i, info);
                assert(self@ =~= old(self)@.update(i as int, iv));
            },
            None => {
                self.agents.push(info);
                assert(self@ =~= old(self)@.push(iv));
            },
        }
    }

    /// Removes the agent with the given name, if any.
    pub fn remove(&mut self, name: &str)
        requires
            old(self).wf(),
        ensures
            final(self).wf(),
            (exists|i: int| 0 <= i < old(self)@.len() && old(self)@[i].name == name@ && final(self)@ == old(self)@.remove(i))
                || ((forall|i: int| 0 <= i < old(self)@.len() ==> old(self)@[i].name != name@)
                    && final(self)@ == old(self)@),
            forall|i: int| 0 <= i < final(self)@.len() ==> final(self)@[i].name != name@,
    {
        let key = name.to_owned();
        match self.position(&key) {
            Some(i) => {
                self.agents.remove(i);
                assert(self@ =~= old(self)@.remove(i as int));
                assert forall|j: int| 0 <= j < self@.len() implies self@[j].name != name@ by {
                    let k = if j < i { j } else { j + 1 };
                    assert(self@[j] == old(self)@[k]);
                }
            },
            None => {},
        }
    }

    /// Searches the agents by name substring (case-insensitive); an empty
    /// query matches every agent. Returns at most `max_results` agents.
    pub fn search(&self, query: &str, max_results: usize) -> (r: Vec<AgentInfo>)
        ensures
            r@.map_values(|a: AgentInfo| a@) == first_n(matching_agents(self@, query@), max_results as nat),
    {
        let ghost all = self@;
        let empty = query.is_empty();
        let query_lower = chars_of(to_lowercase(query).as_str());
        let mut r: Vec<AgentInfo> = Vec::new();
        let mut i: usize = 0;
        while i < self.agents.len() && r.len() < max_results
            invariant
                i <= self.agents.len(),
                all == self@,
                empty == (query@.len() == 0),
                query_lower@ == lowercase(query@),
                r@.len() <= max_results,
                r@.map_values(|a: AgentInfo| a@) == matching_agents(all.take(i as int), query@),
            decreases self.agents.len() - i,
        {
            assert(all.take(i as int + 1).drop_last() =~= all.take(i as int));
            assert(all.take(i as int + 1).last() == self.agents@[i as int]@);
            let ghost before = r@.map_values(|a: AgentInfo| a@);
            if empty || contains_lowercase(self.agents[i].name.as_str(), &query_lower) {
                r.push(self.agents[i].duplicate());
                assert(r@.map_values(|a: AgentInfo| a@) =~= before.push(self.agents@[i as int]@));
            }
            i = i + 1;
        }
        proof {
            lemma_matching_agents_prefix(all, query@, i as int);
            let m = matching_agents(all, query@);
            let mr = r@.map_values(|a: AgentInfo| a@);
            if i == self.agents.len() {
                assert(all.take(i as int) =~= all);
            } else {
                assert(mr =~= m.take(max_results as int));
            }
        }
        r
    }
}

/// The kind of a filesystem entry.
#[derive(Debug, Clone, Copy, PartialEq, Eq, Structural)]
pub enum PathKind {
    File,
    Directory,
    Symlink,
}

/// A single indexed filesystem path.
#[derive(Debug, Clone)]
pub struct IndexedPath {
    /// Path relative to the index root.
    pub path: String,
    pub kind: PathKind,
}

impl View for IndexedPath {
    type V = (Seq<char>, PathKind);

    open spec fn view(&self) -> (Seq<char>, PathKind) {
        (self.path@, self.kind)
    }
}

impl IndexedPath {
    /// A copy with the same value.
    pub fn duplicate(&self) -> (r: IndexedPath)
        ensures
            r@ == self@,
    {
        IndexedPath { path: self.path.clone(), kind: self.kind }
    }
}

/// The entries whose path contains `query` (case-insensitive), in order.
pub open spec fn matching_paths(entries: Seq<(Seq<char>, PathKind)>, query: Seq<char>) -> Seq<(Seq<char>, PathKind)>
    decreases entries.len(),
{
    if entries.len() == 0 {
        Seq::empty()
    } else {
        let rest = matching_paths(entries.drop_last(), query);
        if name_matches(entries.last().0, query) {
            rest.push(entries.last())
        } else {
            rest
        }
    }
}

proof fn lemma_matching_paths_prefix(entries: Seq<(Seq<char>, PathKind)>, query: Seq<char>, i: int)
    requires
        0 <= i <= entries.len(),
    ensures
        matching_paths(entries.take(i), query).len() <= matching_paths(entries, query).len(),
        forall|j: int| 0 <= j < matching_paths(entries.take(i), query).len()
            ==> #[trigger] matching_paths(entries.take(i), query)[j] == matching_paths(entries, query)[j],
    decreases entries.len() - i,
{
    if i < entries.len() {
        lemma_matching_paths_prefix(entries, query, i + 1);
        assert(entries.take(i + 1).drop_last() =~= entries.take(i));
        let a = matching_paths(entries.take(i), query);
        let b = matching_paths(entries.take(i + 1), query);
        assert forall|j: int| 0 <= j < a.len() implies #[trigger] a[j] == matching_paths(entries, query)[j] by {
            assert(a[j] == b[j]);
        }
    } else {
        assert(entries.take(i) =~= entries);
    }
}

/// The value of a list of indexed paths.
pub open spec fn paths_view(entries: Seq<IndexedPath>) -> Seq<(Seq<char>, PathKind)> {
    entries.map_values(|e: IndexedPath| e@)
}

/// An index of filesystem paths for completion.
pub struct FileIndex {
    entries: Vec<IndexedPath>,
    root: String,
}

impl FileIndex {
    /// The indexed paths.
    pub closed spec fn entries_view(&self) -> Seq<(Seq<char>, PathKind)> {
        paths_view(self.entries@)
    }

    /// The index root.
    pub closed spec fn root_view(&self) -> Seq<char> {
        self.root@
    }

    /// An empty index with an empty root.
    pub fn empty() -> (r: FileIndex)
        ensures
            r.entries_view() == Seq::<(Seq<char>, PathKind)>::empty(),
            r.root_view() == Seq::<char>::empty(),
    {
        let r = FileIndex { entries: Vec::new(), root: String::new() };
        assert(r.entries_view() =~= Seq::<(Seq<char>, PathKind)>::empty());
        r
    }

    /// An index over the given entries, rooted at `root`.
    pub fn from_entries(entries: Vec<IndexedPath>, root: String) -> (r: FileIndex)
        ensures
            r.entries_view() == paths_view(entries@),
            r.root_view() == root@,
    {
        FileIndex { entries, root }
    }

    /// Searches for paths containing the query substring (case-insensitive).
    /// Returns at most `max_results` entries.
    pub fn search(&self, query: &str, max_results: usize) -> (r: Vec<IndexedPath>)
        ensures
            paths_view(r@) == first_n(matching_paths(self.entries_view(), query@), max_results as nat),
    {
        let ghost all = self.entries_view();
        let query_lower = chars_of(to_lowercase(query).as_str());
        let mut r: Vec<IndexedPath> = Vec::new();
        let mut i: usize = 0;
        while i < self.entries.len() && r.len() < max_results
            invariant
                i <= self.entries.len(),
                all == self.entries_view(),
                query_lower@ == lowercase(query@),
                r@.len() <= max_results,
                paths_view(r@) == matching_paths(all.take(i as int), query@),
            decreases self.entries.len() - i,
        {
            assert(all.take(i as int + 1).drop_last() =~= all.take(i as int));
            assert(all.take(i as int + 1).last() == self.entries@[i as int]@);
            let ghost before = paths_view(r@);
            if contains_lowercase(self.entries[i].path.as_str(), &query_lower) {
                r.push(self.entries[i].duplicate());
                assert(paths_view(r@) =~= before.push(self.entries@[i as int]@));
            }
            i = i + 1;
        }
        proof {
            lemma_matching_paths_prefix(all, query@, i as int);
            let m = matching_paths(all, query@);
            if i == self.entries.len() {
                assert(all.take(i as int) =~= all);
            } else {
                assert(paths_view(r@) =~= m.take(max_results as int));
            }
        }
        r
    }

    /// The number of indexed entries.
    pub fn entry_count(&self) -> (n: usize)
        ensures
            n == self.entries_view().len(),
    {
        self.entries.len()
    }

    /// The index root.
    pub fn root(&self) -> (r: &String)
        ensures
            r@ == self.root_view(),
    {
        &self.root
    }

    /// Whether the index can be watched: only an index with a root can.
    pub fn can_watch(&self) -> (r: bool)
        ensures
            r == (self.root_view().len() > 0),
    {
        !self.root.as_str().is_empty()
    }
}

/// Records a created path: it is appended unless an entry already has it.
pub fn index_created(entries: &mut Vec<IndexedPath>, path: String, kind: PathKind)
    ensures
        (exists|i: int| 0 <= i < old(entries)@.len() && #[trigger] old(entries)@[i].path@ == path@)
            ==> paths_view(final(entries)@) == paths_view(old(entries)@),
        (forall|i: int| 0 <= i < old(entries)@.len() ==> #[trigger] old(entries)@[i].path@ != path@)
            ==> paths_view(final(entries)@) == paths_view(old(entries)@).push((path@, kind)),
{
    let ghost before = paths_view(entries@);
    let mut i: usize = 0;
    while i < entries.len()
        invariant
            i <= entries.len(),
            entries@ == old(entries)@,
            forall|j: int| 0 <= j < i ==> #[trigger] entries@[j].path@ != path@,
        decreases entries.len() - i,
    {
        if entries[i].path == path {
            return;
        }
        i = i + 1;
    }
    entries.push(IndexedPath { path, kind });
    assert(paths_view(entries@) =~= before.push((path@, kind)));
}

/// The entries whose path differs from `path`, in order.
pub open spec fn without_path(entries: Seq<(Seq<char>, PathKind)>, path: Seq<char>) -> Seq<(Seq<char>, PathKind)>
    decreases entries.len(),
{
    if entries.len() == 0 {
        Seq::empty()
    } else {
        let rest = without_path(entries.drop_last(), path);
        if entries.last().0 != path {
            rest.push(entries.last())
        } else {
            rest
        }
    }
}

/// Records a removed path: every entry with that path is dropped.
pub fn index_removed(entries: &mut Vec<IndexedPath>, path: &str)
    ensures
        paths_view(final(entries)@) == without_path(paths_view(old(entries)@), path@),
{
    let key = path.to_owned();
    let ghost all = paths_view(entries@);
    let mut kept: Vec<IndexedPath> = Vec::new();
    let mut i: usize = 0;
    while i < entries.len()
        invariant
            i <= entries.len(),
            all == paths_view(entries@),
            key@ == path@,
            paths_view(kept@) == without_path(all.take(i as int), path@),
        decreases entries.len() - i,
    {
        assert(all.take(i as int + 1).drop_last() =~= all.take(i as int));
        assert(all.take(i as int + 1).last() == entries@[i as int]@);
        let ghost before = paths_view(kept@);
        if entries[i].path != key {
            kept.push(entries[i].duplicate());
            assert(paths_view(kept@) =~= before.push(entries@[i as int]@));
        }
        i = i + 1;
    }
    assert(all.take(i as int) =~= all);
    *entries = kept;
}

/// Records a rename: the first entry with the old path takes the new path
/// and kind.
pub fn index_renamed(entries: &mut Vec<IndexedPath>, old_path: &str, new_path: String, kind: PathKind)
    ensures
        (exists|i: int|
            0 <= i < old(entries)@.len() && old(entries)@[i].path@ == old_path@ && (forall|j: int|
                0 <= j < i ==> old(entries)@[j].path@ != old_path@) && paths_view(final(entries)@)
                == paths_view(old(entries)@).update(i, (new_path@, kind))) || ((forall|j: int|
            0 <= j < old(entries)@.len() ==> old(entries)@[j].path@ != old_path@) && paths_view(final(entries)@)
            == paths_view(old(entries)@)),
{
    let key = old_path.to_owned();
    let mut i: usize = 0;
    while i < entries.len()
        invariant
            i <= entries.len(),
            entries@ == old(entries)@,
            key@ == old_path@,
            forall|j: int| 0 <= j < i ==> entries@[j].path@ != old_path@,
        decreases entries.len() - i,
    {
        if entries[i].path == key {
            let ghost nv = (new_path@, kind);
            entries.set(i, IndexedPath { path: new_path, kind });
            assert(paths_view(entries@) =~= paths_view(old(entries)@).update(i as int, nv));
            return;
        }
        i = i + 1;
    }
}


// ---------------------------------------------------------------------------
// Laws of search
// ---------------------------------------------------------------------------

/// Every path a search can return contains the query, compared without
/// case.
proof fn lemma_paths_found_match(entries: Seq<(Seq<char>, PathKind)>, query: Seq<char>)
    ensures
        forall|j: int|
            0 <= j < matching_paths(entries, query).len() ==> is_substring(
                lowercase(query),
                lowercase((#[trigger] matching_paths(entries, query)[j]).0),
            ),
    decreases entries.len(),
{
    if entries.len() > 0 {
        lemma_paths_found_match(entries.drop_last(), query);
        let rest = matching_paths(entries.drop_last(), query);
        let all = matching_paths(entries, query);
        assert forall|j: int| 0 <= j < all.len() implies is_substring(lowercase(query), lowercase((#[trigger] all[j]).0)) by {
            if j < rest.len() {
                assert(all[j] == rest[j]);
            }
        }
    }
}

/// Every indexed path that contains the query (without case) is among the
/// matches, whatever its kind.
proof fn lemma_matching_path_found(entries: Seq<(Seq<char>, PathKind)>, query: Seq<char>, i: int)
    requires
        0 <= i < entries.len(),
        is_substring(lowercase(query), lowercase(entries[i].0)),
    ensures
        matching_paths(entries, query).contains(entries[i]),
    decreases entries.len(),
{
    let rest = matching_paths(entries.drop_last(), query);
    let all = matching_paths(entries, query);
    if i == entries.len() - 1 {
        assert(all == rest.push(entries[i]));
        assert(all[rest.len() as int] == entries[i]);
    } else {
        assert(entries.drop_last()[i] == entries[i]);
        lemma_matching_path_found(entries.drop_last(), query, i);
        let k = choose|k: int| 0 <= k < rest.len() && rest[k] == entries[i];
        assert(all[k] == rest[k]);
    }
}

/// File search is by path alone: every path it returns contains the query
/// (compared without case), and when fewer than `max_results` paths match,
/// every indexed path that contains the query is returned, whatever its
/// kind.
pub proof fn law_path_search_by_path_alone(
    entries: Seq<(Seq<char>, PathKind)>,
    query: Seq<char>,
    max_results: nat,
)
    ensures
        forall|j: int|
            0 <= j < first_n(matching_paths(entries, query), max_results).len() ==> is_substring(
                lowercase(query),
                lowercase((#[trigger] first_n(matching_paths(entries, query), max_results)[j]).0),
            ),
        matching_paths(entries, query).len() < max_results ==> forall|i: int|
            0 <= i < entries.len() && is_substring(lowercase(query), lowercase(#[trigger] entries[i].0))
                ==> first_n(matching_paths(entries, query), max_results).contains(entries[i]),
{
    lemma_paths_found_match(entries, query);
    let all = matching_paths(entries, query);
    let r = first_n(all, max_results);
    assert forall|j: int| 0 <= j < r.len() implies is_substring(lowercase(query), lowercase((#[trigger] r[j]).0)) by {
        assert(r[j] == all[j]);
    }
    if all.len() < max_results {
        assert forall|i: int|
            0 <= i < entries.len() && is_substring(lowercase(query), lowercase(#[trigger] entries[i].0)) implies r.contains(
            entries[i],
        ) by {
            lemma_matching_path_found(entries, query, i);
        }
    }
}

/// Every agent a search can return has a name that contains the query
/// (compared without case), unless the query is empty.
proof fn lemma_agents_found_match(agents: Seq<AgentInfoView>, query: Seq<char>)
    ensures
        forall|j: int|
            0 <= j < matching_agents(agents, query).len() ==> query.len() == 0 || is_substring(
                lowercase(query),
                lowercase((#[trigger] matching_agents(agents, query)[j]).name),
            ),
    decreases agents.len(),
{
    if agents.len() > 0 {
        lemma_agents_found_match(agents.drop_last(), query);
        let rest = matching_agents(agents.drop_last(), query);
        let all = matching_agents(agents, query);
        assert forall|j: int| 0 <= j < all.len() implies query.len() == 0 || is_substring(
            lowercase(query),
            lowercase((#[trigger] all[j]).name),
        ) by {
            if j < rest.len() {
                assert(all[j] == rest[j]);
            }
        }
    }
}

/// Every known agent whose name contains the query (or every agent, for an
/// empty query) is among the matches.
proof fn lemma_matching_agent_found(agents: Seq<AgentInfoView>, query: Seq<char>, i: int)
    requires
        0 <= i < agents.len(),
        query.len() == 0 || is_substring(lowercase(query), lowercase(agents[i].name)),
    ensures
        matching_agents(agents, query).contains(agents[i]),
    decreases agents.len(),
{
    let rest = matching_agents(agents.drop_last(), query);
    let all = matching_agents(agents, query);
    if i == agents.len() - 1 {
        assert(all == rest.push(agents[i]));
        assert(all[rest.len() as int] == agents[i]);
    } else {
        assert(agents.drop_last()[i] == agents[i]);
        lemma_matching_agent_found(agents.drop_last(), query, i);
        let k = choose|k: int| 0 <= k < rest.len() && rest[k] == agents[i];
        assert(all[k] == rest[k]);
    }
}

/// Agent search is by name: every agent it returns has a name containing
/// the query (compared without case; an empty query matches all), and when
/// fewer than `max_results` agents match, every matching agent is returned.
pub proof fn law_agent_search_by_name(agents: Seq<AgentInfoView>, query: Seq<char>, max_results: nat)
    ensures
        forall|j: int|
            0 <= j < first_n(matching_agents(agents, query), max_results).len() ==> query.len() == 0 || is_substring(
                lowercase(query),
                lowercase((#[trigger] first_n(matching_agents(agents, query), max_results)[j]).name),
            ),
        matching_agents(agents, query).len() < max_results ==> forall|i: int|
            #![trigger agents[i]]
            0 <= i < agents.len() && (query.len() == 0 || is_substring(lowercase(query), lowercase(agents[i].name)))
                ==> first_n(matching_agents(agents, query), max_results).contains(agents[i]),
{
    lemma_agents_found_match(agents, query);
    let all = matching_agents(agents, query);
    let r = first_n(all, max_results);
    assert forall|j: int| 0 <= j < r.len() implies query.len() == 0 || is_substring(
        lowercase(query),
        lowercase((#[trigger] r[j]).name),
    ) by {
        assert(r[j] == all[j]);
    }
    if all.len() < max_results {
        assert forall|i: int|
            #![trigger agents[i]]
            0 <= i < agents.len() && (query.len() == 0 || is_substring(lowercase(query), lowercase(agents[i].name)))
            implies r.contains(agents[i]) by {
            lemma_matching_agent_found(agents, query, i);
        }
    }
}

} // verus!
