//! Session multiplexing: which clients are connected to which session, who
//! holds the input lock, event sequence numbers and heartbeat-based
//! cleanup.
//!
//! Times are milliseconds on the daemon's monotonic clock; the caller passes
//! the current time in. The event channels themselves live with the caller.
use vstd::prelude::*;

verus! {

/// Configuration for the session multiplexer.
#[derive(Debug, Clone, Copy)]
pub struct MultiplexerConfig {
    /// Maximum clients per session.
    pub max_clients: usize,
    /// Event broadcast channel capacity.
    pub broadcast_capacity: usize,
    /// Heartbeat timeout for client connections (milliseconds).
    pub heartbeat_timeout: u64,
}

impl MultiplexerConfig {
    /// Five clients per session, 256 buffered events, 30-second heartbeat
    /// timeout.
    pub fn default() -> (c: MultiplexerConfig)
        ensures
            c.max_clients == 5,
            c.broadcast_capacity == 256,
            c.heartbeat_timeout == 30_000,
    {
        MultiplexerConfig { max_clients: 5, broadcast_capacity: 256, heartbeat_timeout: 30_000 }
    }
}

/// Result of an input lock request.
#[derive(Debug)]
pub struct InputLockResult {
    /// Whether the lock was granted.
    pub granted: bool,
    /// Previous lock holder (if denied).
    pub previous_holder: Option<String>,
}

/// Multiplexer statistics.
#[derive(Debug, Clone, Copy)]
pub struct MultiplexerStats {
    /// Number of active sessions.
    pub session_count: usize,
    /// Total connected clients across all sessions.
    pub total_clients: usize,
}

/// Multiplexer errors.
#[derive(Debug)]
pub enum MultiplexerError {
    SessionNotFound { session_id: String },
    TooManyClients { session_id: String, max: usize },
    ClientAlreadyConnected { client_id: String },
    ClientNotConnected { client_id: String },
}

/// A client connected to a session.
#[derive(Debug)]
pub struct ClientState {
    pub client_id: String,
    pub client_type: String,
    pub last_heartbeat: u64,
    pub has_input_lock: bool,
}

/// The abstract value of a client.
pub struct ClientView {
    pub client_id: Seq<char>,
    pub client_type: Seq<char>,
    pub last_heartbeat: u64,
    pub has_input_lock: bool,
}

impl View for ClientState {
    type V = ClientView;

    open spec fn view(&self) -> ClientView {
        ClientView {
            client_id: self.client_id@,
            client_type: self.client_type@,
            last_heartbeat: self.last_heartbeat,
            has_input_lock: self.has_input_lock,
        }
    }
}

impl ClientState {
    fn duplicate(&self) -> (r: ClientState)
        ensures
            r@ == self@,
    {
        ClientState {
            client_id: self.client_id.clone(),
            client_type: self.client_type.clone(),
            last_heartbeat: self.last_heartbeat,
            has_input_lock: self.has_input_lock,
        }
    }
}

/// The values of a list of clients.
pub open spec fn clients_view(c: Seq<ClientState>) -> Seq<ClientView> {
    c.map_values(|x: ClientState| x@)
}

/// The value of an optional string.
pub open spec fn opt_view(o: Option<String>) -> Option<Seq<char>> {
    match o {
        Some(s) => Some(s@),
        None => None,
    }
}

/// Whether a client with the given ID is connected.
pub open spec fn has_client(c: Seq<ClientView>, id: Seq<char>) -> bool {
    exists|i: int| 0 <= i < c.len() && c[i].client_id == id
}

/// The state of one session.
#[derive(Debug)]
pub struct SessionState {
    /// Session identifier.
    pub session_id: String,
    /// Connected clients, in order of connection.
    pub clients: Vec<ClientState>,
    /// Client that currently holds the input lock (if any).
    pub input_lock_holder: Option<String>,
    /// Event sequence counter.
    sequence: u64,
}

/// The abstract value of a session.
pub struct SessionView {
    pub session_id: Seq<char>,
    pub clients: Seq<ClientView>,
    pub input_lock_holder: Option<Seq<char>>,
    pub sequence: u64,
}

impl View for SessionState {
    type V = SessionView;

    closed spec fn view(&self) -> SessionView {
        SessionView {
            session_id: self.session_id@,
            clients: clients_view(self.clients@),
            input_lock_holder: opt_view(self.input_lock_holder),
            sequence: self.sequence,
        }
    }
}

/// A session is consistent: client IDs are unique, the lock holder (if any)
/// is connected, and no client but the holder carries the lock flag.
pub open spec fn session_ok(s: SessionView) -> bool {
    &&& forall|i: int, j: int|
        0 <= i < s.clients.len() && 0 <= j < s.clients.len() && i != j ==> s.clients[i].client_id != s.clients[j].client_id
    &&& match s.input_lock_holder {
        Some(h) => has_client(s.clients, h),
        None => true,
    }
    &&& forall|i: int| 0 <= i < s.clients.len() ==> (#[trigger] s.clients[i].has_input_lock ==> s.input_lock_holder
        == Some(s.clients[i].client_id))
}

/// The clients after removing the one with the given ID.
pub open spec fn without_client(c: Seq<ClientView>, id: Seq<char>) -> Seq<ClientView> {
    if has_client(c, id) {
        c.remove(choose|i: int| 0 <= i < c.len() && c[i].client_id == id)
    } else {
        c
    }
}

/// The session after connecting a client: its entry replaces one with the
/// same ID in place, or else comes last; the lock holder is unchanged.
pub open spec fn session_with(s: SessionView, c: ClientView) -> SessionView {
    SessionView {
        clients: if has_client(s.clients, c.client_id) {
            s.clients.update(choose|i: int| 0 <= i < s.clients.len() && s.clients[i].client_id == c.client_id, c)
        } else {
            s.clients.push(c)
        },
        ..s
    }
}

/// The session after removing a client: the lock is released if it held it.
pub open spec fn session_without(s: SessionView, id: Seq<char>) -> SessionView {
    SessionView {
        session_id: s.session_id,
        clients: without_client(s.clients, id),
        input_lock_holder: if has_client(s.clients, id) && s.input_lock_holder == Some(id) {
            None
        } else {
            s.input_lock_holder
        },
        sequence: s.sequence,
    }
}

proof fn lemma_client_index(c: Seq<ClientView>, i: int)
    requires
        forall|a: int, b: int| 0 <= a < c.len() && 0 <= b < c.len() && a != b ==> c[a].client_id != c[b].client_id,
        0 <= i < c.len(),
    ensures
        has_client(c, c[i].client_id),
        (choose|j: int| 0 <= j < c.len() && c[j].client_id == c[i].client_id) == i,
{
    let j = choose|j: int| 0 <= j < c.len() && c[j].client_id == c[i].client_id;
}

impl SessionState {
    /// The event sequence counter.
    pub fn sequence(&self) -> (n: u64)
        ensures
            n == self@.sequence,
    {
        self.sequence
    }

    /// A session with no clients, no lock holder and sequence 0.
    pub fn new(session_id: String) -> (s: SessionState)
        ensures
            s@ == (SessionView {
                session_id: session_id@,
                clients: Seq::empty(),
                input_lock_holder: None,
                sequence: 0,
            }),
    {
        let s = SessionState { session_id, clients: Vec::new(), input_lock_holder: None, sequence: 0 };
        assert(s@.clients =~= Seq::<ClientView>::empty());
        s
    }

    fn duplicate(&self) -> (r: SessionState)
        ensures
            r@ == self@,
    {
        let mut clients: Vec<ClientState> = Vec::new();
        let mut i: usize = 0;
        while i < self.clients.len()
            invariant
                i <= self.clients.len(),
                clients@.len() == i,
                forall|t: int| 0 <= t < i ==> #[trigger] clients@[t]@ == self.clients@[t]@,
            decreases self.clients.len() - i,
        {
            clients.push(self.clients[i].duplicate());
            i = i + 1;
        }
        assert(clients_view(clients@) =~= clients_view(self.clients@));
        SessionState {
            session_id: self.session_id.clone(),
            clients,
            input_lock_holder: match &self.input_lock_holder {
                Some(h) => Some(h.clone()),
                None => None,
            },
            sequence: self.sequence,
        }
    }

    /// Advances the sequence counter and returns the new value.
    pub fn next_sequence(&mut self) -> (n: u64)
        requires
            old(self)@.sequence < u64::MAX,
        ensures
            n == old(self)@.sequence + 1,
            final(self)@ == (SessionView { sequence: n, ..old(self)@ }),
    {
        self.sequence = self.sequence + 1;
        self.sequence
    }

    fn client_position(&self, client_id: &String) -> (r: Option<usize>)
        ensures
            match r {
                Some(i) => i < self@.clients.len() && self@.clients[i as int].client_id == client_id@,
                None => !has_client(self@.clients, client_id@),
            },
    {
        let mut i: usize = 0;
        while i < self.clients.len()
            invariant
                i <= self.clients.len(),
                forall|j: int| 0 <= j < i ==> self@.clients[j].client_id != client_id@,
            decreases self.clients.len() - i,
        {
            if self.clients[i].client_id == *client_id {
                return Some(i);
            }
            i = i + 1;
        }
        None
    }

    /// Whether a client with the given ID is connected.
    pub fn contains_client(&self, client_id: &str) -> (r: bool)
        ensures
            r == has_client(self@.clients, client_id@),
    {
        let key = client_id.to_owned();
        self.client_position(&key).is_some()
    }

    /// Connects a client without the lock flag. A client already connected
    /// under that ID has its entry replaced in place; the lock holder is
    /// left as it was.
    pub fn add_client(&mut self, client_id: String, client_type: String, now: u64)
        requires
            session_ok(old(self)@),
        ensures
            session_ok(final(self)@),
            final(self)@ == session_with(
                old(self)@,
                ClientView { client_id: client_id@, client_type: client_type@, last_heartbeat: now, has_input_lock: false },
            ),
    {
        let c = ClientState { client_id, client_type, last_heartbeat: now, has_input_lock: false };
        let ghost cv = c@;
        let ghost before = self@;
        match self.client_position(&c.client_id) {
            Some(i) => {
                proof {
                    lemma_client_index(before.clients, i as int);
                }
                self.clients.set(i, c);
                assert(clients_view(self.clients@) =~= before.clients.update(i as int, cv));
                proof {
                    let s = self@;
                    assert forall|a: int, b: int|
                        0 <= a < s.clients.len() && 0 <= b < s.clients.len() && a != b implies s.clients[a].client_id
                        != s.clients[b].client_id by {
                        if a != i && b != i {
                            assert(s.clients[a] == before.clients[a] && s.clients[b] == before.clients[b]);
                        } else if a == i {
                            assert(s.clients[b] == before.clients[b]);
                        } else {
                            assert(s.clients[a] == before.clients[a]);
                        }
                    }
                    assert forall|t: int| 0 <= t < s.clients.len() implies (#[trigger] s.clients[t].has_input_lock
                        ==> s.input_lock_holder == Some(s.clients[t].client_id)) by {
                        if t != i {
                            assert(s.clients[t] == before.clients[t]);
                        }
                    }
                    match s.input_lock_holder {
                        Some(h) => {
                            let j = choose|j: int| 0 <= j < before.clients.len() && before.clients[j].client_id == h;
                            assert(s.clients[j].client_id == h);
                        },
                        None => {},
                    }
                }
            },
            None => {
                self.clients.push(c);
                assert(clients_view(self.clients@) =~= before.clients.push(cv));
                proof {
                    let s = self@;
                    assert forall|t: int| 0 <= t < s.clients.len() implies (#[trigger] s.clients[t].has_input_lock
                        ==> s.input_lock_holder == Some(s.clients[t].client_id)) by {
                        if t < s.clients.len() - 1 {
                            assert(s.clients[t] == before.clients[t]);
                        }
                    }
                    match s.input_lock_holder {
                        Some(h) => {
                            let j = choose|j: int| 0 <= j < before.clients.len() && before.clients[j].client_id == h;
                            assert(s.clients[j] == before.clients[j]);
                        },
                        None => {},
                    }
                }
            },
        }
    }

    /// Disconnects a client; releases the lock if it held it. Returns
    /// whether the client was connected.
    pub fn remove_client(&mut self, client_id: &str) -> (r: bool)
        requires
            session_ok(old(self)@),
        ensures
            session_ok(final(self)@),
            r == has_client(old(self)@.clients, client_id@),
            final(self)@ == session_without(old(self)@, client_id@),
    {
        let key = client_id.to_owned();
        let ghost before = self@;
        match self.client_position(&key) {
            None => {
                proof {
                    assert(self@ == session_without(before, client_id@));
                }
                false
            },
            Some(i) => {
                proof {
                    lemma_client_index(before.clients, i as int);
                }
                self.clients.remove(i);
                assert(clients_view(self.clients@) =~= before.clients.remove(i as int));
                let holds = match &self.input_lock_holder {
                    Some(h) => *h == key,
                    None => false,
                };
                if holds {
                    self.input_lock_holder = None;
                }
                proof {
                    let s = self@;
                    assert(s.clients == without_client(before.clients, client_id@));
                    assert forall|a: int, b: int|
                        0 <= a < s.clients.len() && 0 <= b < s.clients.len() && a != b implies s.clients[a].client_id
                        != s.clients[b].client_id by {
                        let a2 = if a < i { a } else { a + 1 };
                        let b2 = if b < i { b } else { b + 1 };
                        assert(s.clients[a] == before.clients[a2] && s.clients[b] == before.clients[b2]);
                    }
                    assert forall|t: int| 0 <= t < s.clients.len() implies (#[trigger] s.clients[t].has_input_lock
                        ==> s.input_lock_holder == Some(s.clients[t].client_id)) by {
                        let t2 = if t < i { t } else { t + 1 };
                        assert(s.clients[t] == before.clients[t2]);
                        assert(before.clients[t2].client_id != client_id@);
                    }
                    match s.input_lock_holder {
                        Some(h) => {
                            assert(h != client_id@);
                            let j = choose|j: int| 0 <= j < before.clients.len() && before.clients[j].client_id == h;
                            assert(j != i);
                            let j2 = if j < i { j } else { j - 1 };
                            assert(s.clients[j2] == before.clients[j]);
                        },
                        None => {},
                    }
                }
                true
            },
        }
    }

    /// Whether no client is connected.
    pub fn is_empty(&self) -> (r: bool)
        ensures
            r == (self@.clients.len() == 0),
    {
        self.clients.len() == 0
    }

    /// The number of connected clients.
    pub fn client_count(&self) -> (n: usize)
        ensures
            n == self@.clients.len(),
    {
        self.clients.len()
    }
}

// ---------------------------------------------------------------------------
// The multiplexer
// ---------------------------------------------------------------------------

/// Whether a session with the given ID exists.
pub open spec fn has_session(m: Seq<SessionView>, id: Seq<char>) -> bool {
    exists|i: int| 0 <= i < m.len() && m[i].session_id == id
}

/// The position of the session with the given ID.
pub open spec fn session_index(m: Seq<SessionView>, id: Seq<char>) -> int {
    choose|i: int| 0 <= i < m.len() && m[i].session_id == id
}

/// A new, empty session.
pub open spec fn fresh_session(id: Seq<char>) -> SessionView {
    SessionView { session_id: id, clients: Seq::empty(), input_lock_holder: None, sequence: 0 }
}

/// The sessions with the given one present (created empty if missing).
pub open spec fn with_session(m: Seq<SessionView>, id: Seq<char>) -> Seq<SessionView> {
    if has_session(m, id) {
        m
    } else {
        m.push(fresh_session(id))
    }
}

/// The sessions are consistent: IDs unique, each session consistent and
/// within the client limit.
pub open spec fn sessions_ok(m: Seq<SessionView>, max_clients: usize) -> bool {
    &&& forall|i: int, j: int| 0 <= i < m.len() && 0 <= j < m.len() && i != j ==> m[i].session_id != m[j].session_id
    &&& forall|i: int| 0 <= i < m.len() ==> session_ok(#[trigger] m[i]) && m[i].clients.len() <= max_clients
}

/// The total number of connected clients.
pub open spec fn total_clients(m: Seq<SessionView>) -> nat
    decreases m.len(),
{
    if m.len() == 0 {
        0
    } else {
        total_clients(m.drop_last()) + m.last().clients.len()
    }
}

/// A client is stale when more than `timeout` has passed since its last
/// heartbeat.
pub open spec fn is_stale(c: ClientView, now: u64, timeout: u64) -> bool {
    now > c.last_heartbeat && now - c.last_heartbeat > timeout
}

/// The clients that are not stale, in order.
pub open spec fn live_clients(c: Seq<ClientView>, now: u64, timeout: u64) -> Seq<ClientView>
    decreases c.len(),
{
    if c.len() == 0 {
        Seq::empty()
    } else {
        let rest = live_clients(c.drop_last(), now, timeout);
        if !is_stale(c.last(), now, timeout) {
            rest.push(c.last())
        } else {
            rest
        }
    }
}

/// The IDs of the stale clients, in order.
pub open spec fn stale_ids(c: Seq<ClientView>, now: u64, timeout: u64) -> Seq<Seq<char>>
    decreases c.len(),
{
    if c.len() == 0 {
        Seq::empty()
    } else {
        let rest = stale_ids(c.drop_last(), now, timeout);
        if is_stale(c.last(), now, timeout) {
            rest.push(c.last().client_id)
        } else {
            rest
        }
    }
}

/// A session without its stale clients; the lock goes with its holder.
pub open spec fn pruned(s: SessionView, now: u64, timeout: u64) -> SessionView {
    let live = live_clients(s.clients, now, timeout);
    SessionView {
        session_id: s.session_id,
        clients: live,
        input_lock_holder: match s.input_lock_holder {
            Some(h) => if has_client(live, h) {
                Some(h)
            } else {
                None
            },
            None => None,
        },
        sequence: s.sequence,
    }
}

/// Each ID paired with the session ID.
pub open spec fn pair_with(session: Seq<char>, ids: Seq<Seq<char>>) -> Seq<(Seq<char>, Seq<char>)> {
    ids.map_values(|c: Seq<char>| (session, c))
}

/// The `(session, client)` pairs that cleanup removes, in order.
pub open spec fn stale_pairs(m: Seq<SessionView>, now: u64, timeout: u64) -> Seq<(Seq<char>, Seq<char>)>
    decreases m.len(),
{
    if m.len() == 0 {
        Seq::empty()
    } else {
        stale_pairs(m.drop_last(), now, timeout) + pair_with(m.last().session_id, stale_ids(m.last().clients, now, timeout))
    }
}

/// The sessions after cleanup: stale clients pruned, then every session
/// without clients dropped.
pub open spec fn after_cleanup(m: Seq<SessionView>, now: u64, timeout: u64) -> Seq<SessionView>
    decreases m.len(),
{
    if m.len() == 0 {
        Seq::empty()
    } else {
        let rest = after_cleanup(m.drop_last(), now, timeout);
        let p = pruned(m.last(), now, timeout);
        if p.clients.len() > 0 {
            rest.push(p)
        } else {
            rest
        }
    }
}

/// The values of a list of sessions.
pub open spec fn sessions_view(v: Seq<SessionState>) -> Seq<SessionView> {
    v.map_values(|s: SessionState| s@)
}

/// Tracks the clients of every session.
pub struct SessionMultiplexer {
    sessions: Vec<SessionState>,
    config: MultiplexerConfig,
}

impl View for SessionMultiplexer {
    type V = Seq<SessionView>;

    closed spec fn view(&self) -> Seq<SessionView> {
        sessions_view(self.sessions@)
    }
}

impl SessionMultiplexer {
    pub closed spec fn wf(&self) -> bool {
        sessions_ok(self@, self.config.max_clients)
    }

    /// The configuration.
    pub closed spec fn config_view(&self) -> MultiplexerConfig {
        self.config
    }

    /// A multiplexer with no sessions.
    pub fn new(config: MultiplexerConfig) -> (m: SessionMultiplexer)
        ensures
            m.wf(),
            m@ == Seq::<SessionView>::empty(),
            m.config_view() == config,
    {
        let m = SessionMultiplexer { sessions: Vec::new(), config };
        assert(m@ =~= Seq::<SessionView>::empty());
        m
    }

    /// A multiplexer with the default configuration.
    pub fn with_defaults() -> (m: SessionMultiplexer)
        ensures
            m.wf(),
            m@ == Seq::<SessionView>::empty(),
            m.config_view().max_clients == 5,
            m.config_view().broadcast_capacity == 256,
            m.config_view().heartbeat_timeout == 30_000,
    {
        SessionMultiplexer::new(MultiplexerConfig::default())
    }

    /// The configuration.
    pub fn config(&self) -> (c: MultiplexerConfig)
        ensures
            c == self.config_view(),
    {
        self.config
    }

    fn position(&self, id: &String) -> (r: Option<usize>)
        requires
            self.wf(),
        ensures
            match r {
                Some(i) => i < self@.len() && self@[i as int].session_id == id@ && session_index(self@, id@) == i,
                None => !has_session(self@, id@),
            },
    {
        let mut i: usize = 0;
        while i < self.sessions.len()
            invariant
                i <= self.sessions.len(),
                self.wf(),
                forall|j: int| 0 <= j < i ==> self@[j].session_id != id@,
            decreases self.sessions.len() - i,
        {
            if self.sessions[i].session_id == *id {
                proof {
                    let j = session_index(self@, id@);
                }
                return Some(i);
            }
            i = i + 1;
        }
        None
    }

    proof fn lemma_replace_ok(&self, i: int, s: SessionView)
        requires
            self.wf(),
            0 <= i < self@.len(),
            s.session_id == self@[i].session_id,
            session_ok(s),
            s.clients.len() <= self.config.max_clients,
        ensures
            sessions_ok(self@.update(i, s), self.config.max_clients),
    {
        let m = self@.update(i, s);
        assert forall|a: int, b: int| 0 <= a < m.len() && 0 <= b < m.len() && a != b implies m[a].session_id != m[b].session_id by {
            assert(m[a].session_id == self@[a].session_id);
            assert(m[b].session_id == self@[b].session_id);
        }
    }

    /// Creates the session if it does not exist; returns whether it did not.
    pub fn get_or_create_session(&mut self, session_id: &str) -> (created: bool)
        requires
            old(self).wf(),
        ensures
            final(self).wf(),
            created == !has_session(old(self)@, session_id@),
            final(self)@ == with_session(old(self)@, session_id@),
            final(self).config_view() == old(self).config_view(),
    {
        let key = session_id.to_owned();
        match self.position(&key) {
            Some(_) => false,
            None => {
                let s = SessionState::new(key);
                let ghost sv = s@;
                self.sessions.push(s);
                proof {
                    assert(self@ =~= old(self)@.push(fresh_session(session_id@)));
                    assert(session_ok(sv));
                    let m = self@;
                    assert forall|a: int, b: int| 0 <= a < m.len() && 0 <= b < m.len() && a != b implies m[a].session_id != m[b].session_id by {
                        if a < m.len() - 1 && b < m.len() - 1 {
                            assert(m[a] == old(self)@[a] && m[b] == old(self)@[b]);
                        } else if a < m.len() - 1 {
                            assert(m[a] == old(self)@[a]);
                        } else if b < m.len() - 1 {
                            assert(m[b] == old(self)@[b]);
                        }
                    }
                    assert forall|a: int| 0 <= a < m.len() implies session_ok(#[trigger] m[a]) && m[a].clients.len() <= self.config.max_clients by {
                        if a < m.len() - 1 {
                            assert(m[a] == old(self)@[a]);
                        }
                    }
                }
                true
            },
        }
    }

    /// Subscribes a client to a session (creating the session if needed).
    pub fn subscribe(&mut self, session_id: &str, client_id: &str, client_type: &str, now: u64) -> (r: Result<(), MultiplexerError>)
        requires
            old(self).wf(),
        ensures
            final(self).wf(),
            final(self).config_view() == old(self).config_view(),
            ({
                let base = with_session(old(self)@, session_id@);
                let k = session_index(base, session_id@);
                let s = base[k];
                if s.clients.len() >= old(self).config_view().max_clients {
                    r matches Err(MultiplexerError::TooManyClients { session_id: sid, max }) && sid@ == session_id@
                        && max == old(self).config_view().max_clients && final(self)@ == base
                } else if has_client(s.clients, client_id@) {
                    r matches Err(MultiplexerError::ClientAlreadyConnected { client_id: cid }) && cid@ == client_id@
                        && final(self)@ == base
                } else {
                    r is Ok && final(self)@ == base.update(
                        k,
                        SessionView {
                            clients: s.clients.push(
                                ClientView {
                                    client_id: client_id@,
                                    client_type: client_type@,
                                    last_heartbeat: now,
                                    has_input_lock: false,
                                },
                            ),
                            ..s
                        },
                    )
                }
            }),
    {
        self.get_or_create_session(session_id);
        let key = session_id.to_owned();
        let ghost base = self@;
        proof {
            if !has_session(old(self)@, session_id@) {
                assert(base[old(self)@.len() as int].session_id == session_id@);
            }
            assert(has_session(base, session_id@));
        }
        let k = match self.position(&key) {
            Some(k) => k,
            None => {
                assert(false);
                0
            },
        };
        if self.sessions[k].client_count() >= self.config.max_clients {
            return Err(MultiplexerError::TooManyClients { session_id: key, max: self.config.max_clients });
        }
        if self.sessions[k].contains_client(client_id) {
            return Err(MultiplexerError::ClientAlreadyConnected { client_id: client_id.to_owned() });
        }
        let mut s = self.sessions[k].duplicate();
        s.add_client(client_id.to_owned(), client_type.to_owned(), now);
        let ghost sv = s@;
        proof {
            self.lemma_replace_ok(k as int, sv);
        }
        self.sessions.set(k, s);
        assert(self@ =~= base.update(k as int, sv));
        Ok(())
    }

    /// Unsubscribes a client; a session left without clients is removed.
    pub fn unsubscribe(&mut self, session_id: &str, client_id: &str)
        requires
            old(self).wf(),
        ensures
            final(self).wf(),
            final(self).config_view() == old(self).config_view(),
            ({
                let m = old(self)@;
                if has_session(m, session_id@) && has_client(m[session_index(m, session_id@)].clients, client_id@) {
                    let k = session_index(m, session_id@);
                    let s = session_without(m[k], client_id@);
                    final(self)@ == if s.clients.len() == 0 {
                        m.remove(k)
                    } else {
                        m.update(k, s)
                    }
                } else {
                    final(self)@ == m
                }
            }),
    {
        let key = session_id.to_owned();
        let ghost m = self@;
        match self.position(&key) {
            None => {},
            Some(k) => {
                let mut s = self.sessions[k].duplicate();
                proof {
                    assert(session_ok(m[k as int]));
                }
                if s.remove_client(client_id) {
                    let ghost sv = s@;
                    if s.is_empty() {
                        self.sessions.remove(k);
                        proof {
                            assert(self@ =~= m.remove(k as int));
                            let n = self@;
                            assert forall|a: int, b: int| 0 <= a < n.len() && 0 <= b < n.len() && a != b implies n[a].session_id != n[b].session_id by {
                                let a2 = if a < k { a } else { a + 1 };
                                let b2 = if b < k { b } else { b + 1 };
                                assert(n[a] == m[a2] && n[b] == m[b2]);
                            }
                            assert forall|a: int| 0 <= a < n.len() implies session_ok(#[trigger] n[a]) && n[a].clients.len() <= self.config.max_clients by {
                                let a2 = if a < k { a } else { a + 1 };
                                assert(n[a] == m[a2]);
                            }
                        }
                    } else {
                        proof {
                            assert(sv.clients.len() <= m[k as int].clients.len());
                            self.lemma_replace_ok(k as int, sv);
                        }
                        self.sessions.set(k, s);
                        assert(self@ =~= m.update(k as int, sv));
                    }
                }
            },
        }
    }

    /// Requests the input lock of a session for a client.
    pub fn request_input_lock(&mut self, session_id: &str, client_id: &str) -> (r: Result<InputLockResult, MultiplexerError>)
        requires
            old(self).wf(),
        ensures
            final(self).wf(),
            final(self).config_view() == old(self).config_view(),
            ({
                let m = old(self)@;
                if !has_session(m, session_id@) {
                    r matches Err(MultiplexerError::SessionNotFound { session_id: sid }) && sid@ == session_id@
                        && final(self)@ == m
                } else {
                    let k = session_index(m, session_id@);
                    let s = m[k];
                    if !has_client(s.clients, client_id@) {
                        r matches Err(MultiplexerError::ClientNotConnected { client_id: cid }) && cid@ == client_id@
                            && final(self)@ == m
                    } else {
                        match s.input_lock_holder {
                            Some(h) => r matches Ok(res) && res.granted == (h == client_id@) && opt_view(res.previous_holder)
                                == (if h == client_id@ {
                                None
                            } else {
                                Some(h)
                            }) && final(self)@ == m,
                            None => r matches Ok(res) && res.granted && res.previous_holder is None && final(self)@
                                == m.update(
                                k,
                                SessionView {
                                    input_lock_holder: Some(client_id@),
                                    clients: s.clients.update(
                                        choose|i: int| 0 <= i < s.clients.len() && s.clients[i].client_id == client_id@,
                                        ClientView {
                                            has_input_lock: true,
                                            ..s.clients[choose|i: int|
                                                0 <= i < s.clients.len() && s.clients[i].client_id == client_id@]
                                        },
                                    ),
                                    ..s
                                },
                            ),
                        }
                    }
                }
            }),
    {
        let key = session_id.to_owned();
        let cid = client_id.to_owned();
        let ghost m = self@;
        let k = match self.position(&key) {
            None => {
                return Err(MultiplexerError::SessionNotFound { session_id: key });
            },
            Some(k) => k,
        };
        let ghost s = m[k as int];
        let ci = match self.sessions[k].client_position(&cid) {
            None => {
                return Err(MultiplexerError::ClientNotConnected { client_id: cid });
            },
            Some(ci) => ci,
        };
        match &self.sessions[k].input_lock_holder {
            Some(h) => {
                if *h == cid {
                    return Ok(InputLockResult { granted: true, previous_holder: None });
                }
                return Ok(InputLockResult { granted: false, previous_holder: Some(h.clone()) });
            },
            None => {},
        }
        let mut st = self.sessions[k].duplicate();
        proof {
            assert(session_ok(s));
            lemma_client_index(s.clients, ci as int);
        }
        let old_client = &st.clients[ci];
        let c = ClientState {
            client_id: old_client.client_id.clone(),
            client_type: old_client.client_type.clone(),
            last_heartbeat: old_client.last_heartbeat,
            has_input_lock: true,
        };
        let ghost cv = c@;
        st.clients.set(ci, c);
        st.input_lock_holder = Some(cid);
        let ghost sv = st@;
        proof {
            assert(sv.clients =~= s.clients.update(ci as int, cv));
            assert forall|a: int, b: int|
                0 <= a < sv.clients.len() && 0 <= b < sv.clients.len() && a != b implies sv.clients[a].client_id != sv.clients[b].client_id by {
                assert(sv.clients[a].client_id == s.clients[a].client_id);
                assert(sv.clients[b].client_id == s.clients[b].client_id);
            }
            assert forall|t: int| 0 <= t < sv.clients.len() implies (#[trigger] sv.clients[t].has_input_lock ==> sv.input_lock_holder
                == Some(sv.clients[t].client_id)) by {
                if t != ci {
                    assert(sv.clients[t] == s.clients[t]);
                    assert(s.clients[t].client_id != client_id@);
                }
            }
            assert(sv.clients[ci as int].client_id == client_id@);
            assert(has_client(sv.clients, client_id@));
            self.lemma_replace_ok(k as int, sv);
        }
        self.sessions.set(k, st);
        assert(self@ =~= m.update(k as int, sv));
        Ok(InputLockResult { granted: true, previous_holder: None })
    }

    /// Releases the input lock if the client holds it.
    pub fn release_input_lock(&mut self, session_id: &str, client_id: &str)
        requires
            old(self).wf(),
        ensures
            final(self).wf(),
            final(self).config_view() == old(self).config_view(),
            ({
                let m = old(self)@;
                if has_session(m, session_id@) && m[session_index(m, session_id@)].input_lock_holder == Some(client_id@) {
                    let k = session_index(m, session_id@);
                    let s = m[k];
                    let i = choose|i: int| 0 <= i < s.clients.len() && s.clients[i].client_id == client_id@;
                    final(self)@ == m.update(
                        k,
                        SessionView {
                            input_lock_holder: None,
                            clients: s.clients.update(i, ClientView { has_input_lock: false, ..s.clients[i] }),
                            ..s
                        },
                    )
                } else {
                    final(self)@ == m
                }
            }),
    {
        let key = session_id.to_owned();
        let cid = client_id.to_owned();
        let ghost m = self@;
        let k = match self.position(&key) {
            None => {
                return;
            },
            Some(k) => k,
        };
        let ghost s = m[k as int];
        let holds = match &self.sessions[k].input_lock_holder {
            Some(h) => *h == cid,
            None => false,
        };
        if !holds {
            return;
        }
        proof {
            assert(session_ok(s));
            assert(s == self.sessions@[k as int]@);
            assert(s.input_lock_holder == Some(client_id@));
            assert(has_client(s.clients, client_id@));
            assert(has_client(self.sessions@[k as int]@.clients, cid@));
        }
        let ci = match self.sessions[k].client_position(&cid) {
            None => {
                assert(!has_client(self.sessions@[k as int]@.clients, cid@));
                assert(false);
                return;
            },
            Some(ci) => ci,
        };
        proof {
            lemma_client_index(s.clients, ci as int);
        }
        let mut st = self.sessions[k].duplicate();
        let old_client = &st.clients[ci];
        let c = ClientState {
            client_id: old_client.client_id.clone(),
            client_type: old_client.client_type.clone(),
            last_heartbeat: old_client.last_heartbeat,
            has_input_lock: false,
        };
        let ghost cv = c@;
        st.clients.set(ci, c);
        st.input_lock_holder = None;
        let ghost sv = st@;
        proof {
            assert(sv.clients =~= s.clients.update(ci as int, cv));
            assert forall|a: int, b: int|
                0 <= a < sv.clients.len() && 0 <= b < sv.clients.len() && a != b implies sv.clients[a].client_id != sv.clients[b].client_id by {
                assert(sv.clients[a].client_id == s.clients[a].client_id);
                assert(sv.clients[b].client_id == s.clients[b].client_id);
            }
            assert forall|t: int| 0 <= t < sv.clients.len() implies (#[trigger] sv.clients[t].has_input_lock ==> sv.input_lock_holder
                == Some(sv.clients[t].client_id)) by {
                if t != ci {
                    assert(sv.clients[t] == s.clients[t]);
                    assert(s.clients[t].client_id != client_id@);
                }
            }
            self.lemma_replace_ok(k as int, sv);
        }
        self.sessions.set(k, st);
        assert(self@ =~= m.update(k as int, sv));
    }

    /// Assigns the next event sequence number of a session (for a broadcast);
    /// `None` when the session does not exist.
    pub fn next_sequence(&mut self, session_id: &str) -> (r: Option<u64>)
        requires
            old(self).wf(),
            has_session(old(self)@, session_id@) ==> old(self)@[session_index(old(self)@, session_id@)].sequence < u64::MAX,
        ensures
            final(self).wf(),
            final(self).config_view() == old(self).config_view(),
            ({
                let m = old(self)@;
                if has_session(m, session_id@) {
                    let k = session_index(m, session_id@);
                    r == Some((m[k].sequence + 1) as u64) && final(self)@ == m.update(
                        k,
                        SessionView { sequence: (m[k].sequence + 1) as u64, ..m[k] },
                    )
                } else {
                    r is None && final(self)@ == m
                }
            }),
    {
        let key = session_id.to_owned();
        let ghost m = self@;
        match self.position(&key) {
            None => None,
            Some(k) => {
                let mut st = self.sessions[k].duplicate();
                let n = st.next_sequence();
                let ghost sv = st@;
                proof {
                    self.lemma_replace_ok(k as int, sv);
                }
                self.sessions.set(k, st);
                assert(self@ =~= m.update(k as int, sv));
                Some(n)
            },
        }
    }

    /// Records a heartbeat of a client at time `now`.
    pub fn heartbeat(&mut self, session_id: &str, client_id: &str, now: u64)
        requires
            old(self).wf(),
        ensures
            final(self).wf(),
            final(self).config_view() == old(self).config_view(),
            ({
                let m = old(self)@;
                if has_session(m, session_id@) && has_client(m[session_index(m, session_id@)].clients, client_id@) {
                    let k = session_index(m, session_id@);
                    let s = m[k];
                    let i = choose|i: int| 0 <= i < s.clients.len() && s.clients[i].client_id == client_id@;
                    final(self)@ == m.update(
                        k,
                        SessionView { clients: s.clients.update(i, ClientView { last_heartbeat: now, ..s.clients[i] }), ..s },
                    )
                } else {
                    final(self)@ == m
                }
            }),
    {
        let key = session_id.to_owned();
        let cid = client_id.to_owned();
        let ghost m = self@;
        let k = match self.position(&key) {
            None => {
                return;
            },
            Some(k) => k,
        };
        let ghost s = m[k as int];
        let ci = match self.sessions[k].client_position(&cid) {
            None => {
                return;
            },
            Some(ci) => ci,
        };
        proof {
            assert(session_ok(s));
            lemma_client_index(s.clients, ci as int);
        }
        let mut st = self.sessions[k].duplicate();
        let old_client = &st.clients[ci];
        let c = ClientState {
            client_id: old_client.client_id.clone(),
            client_type: old_client.client_type.clone(),
            last_heartbeat: now,
            has_input_lock: old_client.has_input_lock,
        };
        let ghost cv = c@;
        st.clients.set(ci, c);
        let ghost sv = st@;
        proof {
            assert(sv.clients =~= s.clients.update(ci as int, cv));
            assert forall|a: int, b: int|
                0 <= a < sv.clients.len() && 0 <= b < sv.clients.len() && a != b implies sv.clients[a].client_id != sv.clients[b].client_id by {
                assert(sv.clients[a].client_id == s.clients[a].client_id);
                assert(sv.clients[b].client_id == s.clients[b].client_id);
            }
            assert forall|t: int| 0 <= t < sv.clients.len() implies (#[trigger] sv.clients[t].has_input_lock ==> sv.input_lock_holder
                == Some(sv.clients[t].client_id)) by {
                if t != ci {
                    assert(sv.clients[t] == s.clients[t]);
                }
            }
            match sv.input_lock_holder {
                Some(h) => {
                    let j = choose|j: int| 0 <= j < s.clients.len() && s.clients[j].client_id == h;
                    assert(sv.clients[j].client_id == h);
                },
                None => {},
            }
            self.lemma_replace_ok(k as int, sv);
        }
        self.sessions.set(k, st);
        assert(self@ =~= m.update(k as int, sv));
    }

    /// Whether the client holds the input lock of the session.
    pub fn has_input_lock(&self, session_id: &str, client_id: &str) -> (r: bool)
        requires
            self.wf(),
        ensures
            r == (has_session(self@, session_id@) && self@[session_index(self@, session_id@)].input_lock_holder
                == Some(client_id@)),
    {
        let key = session_id.to_owned();
        let cid = client_id.to_owned();
        match self.position(&key) {
            None => false,
            Some(k) => match &self.sessions[k].input_lock_holder {
                Some(h) => *h == cid,
                None => false,
            },
        }
    }

    /// The number of sessions and of connected clients.
    pub fn stats(&self) -> (st: MultiplexerStats)
        requires
            total_clients(self@) <= usize::MAX,
        ensures
            st.session_count == self@.len(),
            st.total_clients == total_clients(self@),
    {
        let ghost m = self@;
        let mut total: usize = 0;
        let mut i: usize = 0;
        while i < self.sessions.len()
            invariant
                i <= self.sessions.len(),
                m == self@,
                total_clients(m) <= usize::MAX,
                total == total_clients(m.take(i as int)),
            decreases self.sessions.len() - i,
        {
            assert(m.take(i as int + 1).drop_last() =~= m.take(i as int));
            assert(m.take(i as int + 1).last() == m[i as int]);
            proof {
                lemma_total_prefix(m, i as int + 1);
            }
            total = total + self.sessions[i].client_count();
            i = i + 1;
        }
        assert(m.take(i as int) =~= m);
        MultiplexerStats { session_count: self.sessions.len(), total_clients: total }
    }
}

proof fn lemma_total_prefix(m: Seq<SessionView>, i: int)
    requires
        0 <= i <= m.len(),
    ensures
        total_clients(m.take(i)) <= total_clients(m),
    decreases m.len() - i,
{
    if i < m.len() {
        lemma_total_prefix(m, i + 1);
        assert(m.take(i + 1).drop_last() =~= m.take(i));
    } else {
        assert(m.take(i) =~= m);
    }
}

/// Prunes the stale clients of one session, appending the removed
/// `(session, client)` pairs to `removed`.
fn prune_session(
    st: &SessionState,
    now: u64,
    timeout: u64,
    removed: &mut Vec<(String, String)>,
) -> (r: SessionState)
    requires
        session_ok(st@),
    ensures
        r@ == pruned(st@, now, timeout),
        session_ok(r@),
        final(removed).deep_view() == old(removed).deep_view() + pair_with(
            st@.session_id,
            stale_ids(st@.clients, now, timeout),
        ),
{
    let ghost cs = st@.clients;
    let ghost sid = st@.session_id;
    let ghost start = removed.deep_view();
    let mut live: Vec<ClientState> = Vec::new();
    let mut j: usize = 0;
    while j < st.clients.len()
        invariant
            j <= st.clients.len(),
            cs == st@.clients,
            sid == st@.session_id,
            session_ok(st@),
            clients_view(live@) == live_clients(cs.take(j as int), now, timeout),
            removed.deep_view() == start + pair_with(sid, stale_ids(cs.take(j as int), now, timeout)),
            forall|a: int, b: int|
                0 <= a < live@.len() && 0 <= b < live@.len() && a != b ==> live@[a]@.client_id != live@[b]@.client_id,
            forall|a: int| 0 <= a < live@.len() ==> exists|b: int| 0 <= b < j && #[trigger] live@[a]@ == cs[b],
        decreases st.clients.len() - j,
    {
        assert(cs.take(j as int + 1).drop_last() =~= cs.take(j as int));
        assert(cs.take(j as int + 1).last() == cs[j as int]);
        let c = &st.clients[j];
        let ghost before_live = clients_view(live@);
        let ghost before_removed = removed.deep_view();
        let stale = now > c.last_heartbeat && now - c.last_heartbeat > timeout;
        if stale {
            removed.push((st.session_id.clone(), c.client_id.clone()));
            proof {
                let ids = stale_ids(cs.take(j as int), now, timeout);
                assert(removed.deep_view() =~= before_removed.push((sid, cs[j as int].client_id)));
                assert(is_stale(cs[j as int], now, timeout));
                assert(stale_ids(cs.take(j as int + 1), now, timeout) == ids.push(cs[j as int].client_id));
                assert(pair_with(sid, ids.push(cs[j as int].client_id)) =~= pair_with(sid, ids).push((sid, cs[j as int].client_id)));
                assert(removed.deep_view() =~= start + pair_with(sid, stale_ids(cs.take(j as int + 1), now, timeout)));
            }
        } else {
            live.push(c.duplicate());
            proof {
                assert(clients_view(live@) =~= before_live.push(cs[j as int]));
                assert forall|a: int, b: int|
                    0 <= a < live@.len() && 0 <= b < live@.len() && a != b implies live@[a]@.client_id != live@[b]@.client_id by {
                    if a == live@.len() - 1 || b == live@.len() - 1 {
                        let o = if a == live@.len() - 1 { b } else { a };
                        let e = choose|e: int| 0 <= e < j && #[trigger] live@[o]@ == cs[e];
                        assert(cs[e].client_id != cs[j as int].client_id);
                    }
                }
                assert forall|a: int| 0 <= a < live@.len() implies exists|b: int| 0 <= b < j + 1 && #[trigger] live@[a]@ == cs[b] by {
                    if a == live@.len() - 1 {
                        assert(live@[a]@ == cs[j as int]);
                    } else {
                        let e = choose|e: int| 0 <= e < j && #[trigger] live@[a]@ == cs[e];
                    }
                }
            }
        }
        j = j + 1;
    }
    assert(cs.take(j as int) =~= cs);
    let ghost lv = clients_view(live@);
    let holder = match &st.input_lock_holder {
        None => None,
        Some(h) => {
            let mut found = false;
            let mut t: usize = 0;
            while t < live.len()
                invariant
                    t <= live.len(),
                    lv == clients_view(live@),
                    found == exists|a: int| 0 <= a < t && live@[a]@.client_id == h@,
                decreases live.len() - t,
            {
                if live[t].client_id == *h {
                    found = true;
                }
                t = t + 1;
            }
            proof {
                if found {
                    let a = choose|a: int| 0 <= a < t && live@[a]@.client_id == h@;
                    assert(lv[a].client_id == h@);
                    assert(has_client(lv, h@));
                } else {
                    assert forall|a: int| 0 <= a < lv.len() implies lv[a].client_id != h@ by {
                        assert(lv[a] == live@[a]@);
                    }
                    assert(!has_client(lv, h@));
                }
            }
            if found {
                Some(h.clone())
            } else {
                None
            }
        },
    };
    let r = SessionState { session_id: st.session_id.clone(), clients: live, input_lock_holder: holder, sequence: st.sequence };
    proof {
        let rv = r@;
        assert(rv.clients == lv);
        assert(lv == live_clients(cs, now, timeout));
        match st@.input_lock_holder {
            Some(h) => {
                assert(rv.input_lock_holder == (if has_client(lv, h) { Some(h) } else { None }));
            },
            None => {
                assert(rv.input_lock_holder is None);
            },
        }
        assert(rv == pruned(st@, now, timeout));
        assert forall|i: int| 0 <= i < rv.clients.len() implies (#[trigger] rv.clients[i].has_input_lock ==> rv.input_lock_holder
            == Some(rv.clients[i].client_id)) by {
            let e = choose|e: int| 0 <= e < cs.len() && #[trigger] live@[i]@ == cs[e];
            assert(rv.clients[i] == cs[e]);
            assert(cs[e].has_input_lock ==> st@.input_lock_holder == Some(cs[e].client_id));
            if st@.input_lock_holder == Some(cs[e].client_id) {
                assert(has_client(lv, cs[e].client_id));
            }
        }
    }
    r
}

impl SessionMultiplexer {
    /// Removes, at time `now`, every client whose last heartbeat is older
    /// than the heartbeat timeout (releasing the lock it held), then every
    /// session without clients. Returns the removed `(session, client)`
    /// pairs.
    pub fn cleanup_stale_clients(&mut self, now: u64) -> (r: Vec<(String, String)>)
        requires
            old(self).wf(),
        ensures
            final(self).wf(),
            final(self).config_view() == old(self).config_view(),
            final(self)@ == after_cleanup(old(self)@, now, old(self).config_view().heartbeat_timeout),
            r.deep_view() == stale_pairs(old(self)@, now, old(self).config_view().heartbeat_timeout),
    {
        let ghost m = self@;
        let timeout = self.config.heartbeat_timeout;
        let mut kept: Vec<SessionState> = Vec::new();
        let mut removed: Vec<(String, String)> = Vec::new();
        let mut i: usize = 0;
        while i < self.sessions.len()
            invariant
                i <= self.sessions.len(),
                m == self@,
                self.wf(),
                timeout == self.config.heartbeat_timeout,
                sessions_view(kept@) == after_cleanup(m.take(i as int), now, timeout),
                removed.deep_view() == stale_pairs(m.take(i as int), now, timeout),
                sessions_ok(sessions_view(kept@), self.config.max_clients),
                forall|a: int| 0 <= a < kept@.len() ==> exists|b: int| 0 <= b < i && #[trigger] kept@[a]@.session_id == m[b].session_id,
            decreases self.sessions.len() - i,
        {
            assert(m.take(i as int + 1).drop_last() =~= m.take(i as int));
            assert(m.take(i as int + 1).last() == m[i as int]);
            proof {
                assert(session_ok(m[i as int]));
            }
            let ghost before_kept = sessions_view(kept@);
            let p = prune_session(&self.sessions[i], now, timeout, &mut removed);
            proof {
                lemma_live_len(m[i as int].clients, now, timeout);
            }
            if !p.is_empty() {
                let ghost pv = p@;
                kept.push(p);
                proof {
                    assert(sessions_view(kept@) =~= before_kept.push(pv));
                    let n = sessions_view(kept@);
                    assert forall|a: int, b: int| 0 <= a < n.len() && 0 <= b < n.len() && a != b implies n[a].session_id != n[b].session_id by {
                        if a == n.len() - 1 || b == n.len() - 1 {
                            let o = if a == n.len() - 1 { b } else { a };
                            let e = choose|e: int| 0 <= e < i && #[trigger] kept@[o]@.session_id == m[e].session_id;
                            assert(n[o] == kept@[o]@);
                            assert(m[e].session_id != m[i as int].session_id);
                        } else {
                            assert(n[a] == before_kept[a] && n[b] == before_kept[b]);
                        }
                    }
                    assert forall|a: int| 0 <= a < n.len() implies session_ok(#[trigger] n[a]) && n[a].clients.len() <= self.config.max_clients by {
                        if a < n.len() - 1 {
                            assert(n[a] == before_kept[a]);
                        }
                    }
                    assert forall|a: int| 0 <= a < kept@.len() implies exists|b: int| 0 <= b < i + 1 && #[trigger] kept@[a]@.session_id == m[b].session_id by {
                        if a == kept@.len() - 1 {
                            assert(kept@[a]@.session_id == m[i as int].session_id);
                        } else {
                            let e = choose|e: int| 0 <= e < i && #[trigger] kept@[a]@.session_id == m[e].session_id;
                        }
                    }
                }
            }
            i = i + 1;
        }
        assert(m.take(i as int) =~= m);
        self.sessions = kept;
        removed
    }
}

proof fn lemma_live_len(c: Seq<ClientView>, now: u64, timeout: u64)
    ensures
        live_clients(c, now, timeout).len() <= c.len(),
    decreases c.len(),
{
    if c.len() > 0 {
        lemma_live_len(c.drop_last(), now, timeout);
    }
}

/// With a consistent session, at most one client holds the input lock.
pub proof fn law_single_lock_holder(s: SessionView, i: int, j: int)
    requires
        session_ok(s),
        0 <= i < s.clients.len(),
        0 <= j < s.clients.len(),
        s.clients[i].has_input_lock,
        s.clients[j].has_input_lock,
    ensures
        i == j,
{
}

} // verus!
