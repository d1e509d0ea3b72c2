//! Permission decisions: pending requests awaiting a client's answer
//! (with tiered timeouts), session-scoped grants, and the evaluation order
//! that combines them with stored grants and rule decisions.
//!
//! Times are milliseconds on the daemon's monotonic clock; the caller
//! passes the current time in.
use vstd::prelude::*;

verus! {

/// The value of an optional string.
pub open spec fn opt_view(o: Option<String>) -> Option<Seq<char>> {
    match o {
        Some(s) => Some(s@),
        None => None,
    }
}

fn clone_opt(o: &Option<String>) -> (r: Option<String>)
    ensures
        opt_view(r) == opt_view(*o),
{
    match o {
        Some(s) => Some(s.clone()),
        None => None,
    }
}

/// Configuration of pending permission requests (milliseconds).
#[derive(Debug, Clone, Copy)]
pub struct PendingConfig {
    /// Timeout for connected clients.
    pub connected_timeout: u64,
    /// Timeout for disconnected clients (grants preserved).
    pub disconnected_timeout: u64,
    /// Cleanup interval for expired requests.
    pub cleanup_interval: u64,
}

impl PendingConfig {
    /// The timeout that applies to a client in the given state.
    pub open spec fn timeout_for(&self, connected: bool) -> u64 {
        if connected {
            self.connected_timeout
        } else {
            self.disconnected_timeout
        }
    }

    /// One minute for connected clients, seven days for disconnected ones,
    /// cleanup every minute.
    pub fn default() -> (c: PendingConfig)
        ensures
            c.connected_timeout == 60_000,
            c.disconnected_timeout == 604_800_000,
            c.cleanup_interval == 60_000,
    {
        PendingConfig { connected_timeout: 60_000, disconnected_timeout: 604_800_000, cleanup_interval: 60_000 }
    }
}

/// A permission request awaiting a client's answer.
#[derive(Debug, Clone)]
pub struct PendingRequest {
    /// Unique request ID.
    pub request_id: String,
    /// Session this request belongs to.
    pub session_id: String,
    /// Tool name being requested.
    pub tool_name: String,
    /// Tool description.
    pub description: String,
    /// Tool input (as JSON string).
    pub input_json: String,
    /// Client that should respond (if any).
    pub target_client: Option<String>,
    /// When the request was created.
    pub created_at: u64,
    /// When the request expires.
    pub expires_at: u64,
    /// Whether the client is connected.
    pub client_connected: bool,
}

/// The abstract value of a pending request.
pub struct PendingView {
    pub request_id: Seq<char>,
    pub session_id: Seq<char>,
    pub tool_name: Seq<char>,
    pub description: Seq<char>,
    pub input_json: Seq<char>,
    pub target_client: Option<Seq<char>>,
    pub created_at: u64,
    pub expires_at: u64,
    pub client_connected: bool,
}

impl View for PendingRequest {
    type V = PendingView;

    open spec fn view(&self) -> PendingView {
        PendingView {
            request_id: self.request_id@,
            session_id: self.session_id@,
            tool_name: self.tool_name@,
            description: self.description@,
            input_json: self.input_json@,
            target_client: opt_view(self.target_client),
            created_at: self.created_at,
            expires_at: self.expires_at,
            client_connected: self.client_connected,
        }
    }
}

/// A request has expired once the clock has passed its expiry.
pub open spec fn expired_at(r: PendingView, now: u64) -> bool {
    now > r.expires_at
}

/// A request after its client's status is refreshed at `now`.
pub open spec fn refreshed(r: PendingView, connected: bool, config: PendingConfig, now: u64) -> PendingView {
    PendingView { client_connected: connected, expires_at: (now + config.timeout_for(connected)) as u64, ..r }
}

impl PendingRequest {
    /// A copy with the same value.
    pub fn duplicate(&self) -> (r: PendingRequest)
        ensures
            r@ == self@,
    {
        PendingRequest {
            request_id: self.request_id.clone(),
            session_id: self.session_id.clone(),
            tool_name: self.tool_name.clone(),
            description: self.description.clone(),
            input_json: self.input_json.clone(),
            target_client: clone_opt(&self.target_client),
            created_at: self.created_at,
            expires_at: self.expires_at,
            client_connected: self.client_connected,
        }
    }

    /// Whether the request has expired at time `now`.
    pub fn is_expired(&self, now: u64) -> (r: bool)
        ensures
            r == expired_at(self@, now),
    {
        now > self.expires_at
    }

    /// Refreshes the expiry from `now` according to the client's status.
    pub fn refresh_expiry(&mut self, connected: bool, config: &PendingConfig, now: u64)
        requires
            now + config.timeout_for(connected) <= u64::MAX,
        ensures
            final(self)@ == refreshed(old(self)@, connected, *config, now),
    {
        self.client_connected = connected;
        let timeout = if connected {
            config.connected_timeout
        } else {
            config.disconnected_timeout
        };
        self.expires_at = now + timeout;
    }
}

/// Parameters for creating a new pending request.
pub struct PendingRequestParams {
    /// Unique request ID.
    pub request_id: String,
    /// Session this request belongs to.
    pub session_id: String,
    /// Tool name being requested.
    pub tool_name: String,
    /// Tool description.
    pub description: String,
    /// Tool input (as JSON string).
    pub input_json: String,
    /// Client that should respond (if any).
    pub target_client: Option<String>,
    /// Whether the client is connected.
    pub client_connected: bool,
}

/// The request that `create` makes from its parameters at time `now`.
pub open spec fn created_request(p: PendingRequestParams, config: PendingConfig, now: u64) -> PendingView {
    PendingView {
        request_id: p.request_id@,
        session_id: p.session_id@,
        tool_name: p.tool_name@,
        description: p.description@,
        input_json: p.input_json@,
        target_client: opt_view(p.target_client),
        created_at: now,
        expires_at: (now + config.timeout_for(p.client_connected)) as u64,
        client_connected: p.client_connected,
    }
}

/// No two requests share an ID.
pub open spec fn ids_unique(m: Seq<PendingView>) -> bool {
    forall|i: int, j: int| 0 <= i < m.len() && 0 <= j < m.len() && i != j ==> m[i].request_id != m[j].request_id
}

/// Whether some request has the given ID.
pub open spec fn has_id(m: Seq<PendingView>, id: Seq<char>) -> bool {
    exists|i: int| 0 <= i < m.len() && m[i].request_id == id
}

/// The position of the request with the given ID.
pub open spec fn index_of_id(m: Seq<PendingView>, id: Seq<char>) -> int {
    choose|i: int| 0 <= i < m.len() && m[i].request_id == id
}

/// The requests after adding `r`: it replaces the request with the same ID,
/// or is appended.
pub open spec fn added(m: Seq<PendingView>, r: PendingView) -> Seq<PendingView> {
    if has_id(m, r.request_id) {
        m.update(index_of_id(m, r.request_id), r)
    } else {
        m.push(r)
    }
}

/// The requests after taking out the one with the given ID.
pub open spec fn taken(m: Seq<PendingView>, id: Seq<char>) -> Seq<PendingView> {
    if has_id(m, id) {
        m.remove(index_of_id(m, id))
    } else {
        m
    }
}

/// The request with the given ID, if any.
pub open spec fn lookup(m: Seq<PendingView>, id: Seq<char>) -> Option<PendingView> {
    if has_id(m, id) {
        Some(m[index_of_id(m, id)])
    } else {
        None
    }
}

/// The requests of one session, in order.
pub open spec fn for_session(m: Seq<PendingView>, session: Seq<char>) -> Seq<PendingView>
    decreases m.len(),
{
    if m.len() == 0 {
        Seq::empty()
    } else {
        let rest = for_session(m.drop_last(), session);
        if m.last().session_id == session {
            rest.push(m.last())
        } else {
            rest
        }
    }
}

/// The requests after refreshing those that target `client`.
pub open spec fn client_refreshed(
    m: Seq<PendingView>,
    client: Seq<char>,
    connected: bool,
    config: PendingConfig,
    now: u64,
) -> Seq<PendingView> {
    m.map_values(
        |r: PendingView|
            if r.target_client == Some(client) {
                refreshed(r, connected, config, now)
            } else {
                r
            },
    )
}

/// The requests that have not expired at `now`, in order.
pub open spec fn unexpired(m: Seq<PendingView>, now: u64) -> Seq<PendingView>
    decreases m.len(),
{
    if m.len() == 0 {
        Seq::empty()
    } else {
        let rest = unexpired(m.drop_last(), now);
        if !expired_at(m.last(), now) {
            rest.push(m.last())
        } else {
            rest
        }
    }
}

/// The IDs of the requests that have expired at `now`, in order.
pub open spec fn expired_ids(m: Seq<PendingView>, now: u64) -> Seq<Seq<char>>
    decreases m.len(),
{
    if m.len() == 0 {
        Seq::empty()
    } else {
        let rest = expired_ids(m.drop_last(), now);
        if expired_at(m.last(), now) {
            rest.push(m.last().request_id)
        } else {
            rest
        }
    }
}

proof fn lemma_index_of_id(m: Seq<PendingView>, i: int)
    requires
        ids_unique(m),
        0 <= i < m.len(),
    ensures
        has_id(m, m[i].request_id),
        index_of_id(m, m[i].request_id) == i,
{
    let j = index_of_id(m, m[i].request_id);
}

/// Requests awaiting an answer, keyed by request ID.
pub struct PendingManager {
    requests: Vec<PendingRequest>,
    config: PendingConfig,
}

impl View for PendingManager {
    type V = Seq<PendingView>;

    closed spec fn view(&self) -> Seq<PendingView> {
        self.requests@.map_values(|r: PendingRequest| r@)
    }
}

impl PendingManager {
    pub closed spec fn wf(&self) -> bool {
        ids_unique(self@)
    }

    /// The configuration.
    pub closed spec fn config_view(&self) -> PendingConfig {
        self.config
    }

    /// An empty manager with the given configuration.
    pub fn new(config: PendingConfig) -> (m: PendingManager)
        ensures
            m.wf(),
            m@ == Seq::<PendingView>::empty(),
            m.config_view() == config,
    {
        let m = PendingManager { requests: Vec::new(), config };
        assert(m@ =~= Seq::<PendingView>::empty());
        m
    }

    /// An empty manager with the default configuration.
    pub fn with_defaults() -> (m: PendingManager)
        ensures
            m.wf(),
            m@ == Seq::<PendingView>::empty(),
            m.config_view().connected_timeout == 60_000,
            m.config_view().disconnected_timeout == 604_800_000,
            m.config_view().cleanup_interval == 60_000,
    {
        PendingManager::new(PendingConfig::default())
    }

    fn position(&self, id: &String) -> (r: Option<usize>)
        requires
            self.wf(),
        ensures
            match r {
                Some(i) => i < self@.len() && self@[i as int].request_id == id@ && index_of_id(self@, id@) == i,
                None => !has_id(self@, id@),
            },
    {
        let mut i: usize = 0;
        while i < self.requests.len()
            invariant
                i <= self.requests.len(),
                self.wf(),
                forall|j: int| 0 <= j < i ==> self@[j].request_id != id@,
            decreases self.requests.len() - i,
        {
            if self.requests[i].request_id == *id {
                proof {
                    lemma_index_of_id(self@, i as int);
                }
                return Some(i);
            }
            i = i + 1;
        }
        None
    }

    /// Adds a request, replacing any with the same ID.
    pub fn add(&mut self, request: PendingRequest)
        requires
            old(self).wf(),
        ensures
            final(self).wf(),
            final(self)@ == added(old(self)@, request@),
            final(self).config_view() == old(self).config_view(),
    {
        let ghost rv = request@;
        match self.position(&request.request_id) {
            Some(i) => {
                self.requests.set(i, request);
                assert(self@ =~= old(self)@.update(i as int, rv));
            },
            None => {
                self.requests.push(request);
                assert(self@ =~= old(self)@.push(rv));
            },
        }
    }

    /// Creates a request from `params` at time `now`, adds it and returns it.
    pub fn create(&mut self, params: PendingRequestParams, now: u64) -> (r: PendingRequest)
        requires
            old(self).wf(),
            now + old(self).config_view().timeout_for(params.client_connected) <= u64::MAX,
        ensures
            final(self).wf(),
            r@ == created_request(params, old(self).config_view(), now),
            final(self)@ == added(old(self)@, r@),
            final(self).config_view() == old(self).config_view(),
    {
        let timeout = if params.client_connected {
            self.config.connected_timeout
        } else {
            self.config.disconnected_timeout
        };
        let ghost pv = params;
        let request = PendingRequest {
            request_id: params.request_id,
            session_id: params.session_id,
            tool_name: params.tool_name,
            description: params.description,
            input_json: params.input_json,
            target_client: params.target_client,
            created_at: now,
            expires_at: now + timeout,
            client_connected: params.client_connected,
        };
        let copy = request.duplicate();
        self.add(request);
        copy
    }

    /// The request with the given ID, if any.
    pub fn get(&self, request_id: &str) -> (r: Option<PendingRequest>)
        requires
            self.wf(),
        ensures
            match r {
                Some(req) => lookup(self@, request_id@) == Some(req@),
                None => lookup(self@, request_id@) is None,
            },
    {
        let key = request_id.to_owned();
        match self.position(&key) {
            Some(i) => Some(self.requests[i].duplicate()),
            None => None,
        }
    }

    /// Removes and returns the request with the given ID.
    pub fn take(&mut self, request_id: &str) -> (r: Option<PendingRequest>)
        requires
            old(self).wf(),
        ensures
            final(self).wf(),
            final(self)@ == taken(old(self)@, request_id@),
            final(self).config_view() == old(self).config_view(),
            match r {
                Some(req) => lookup(old(self)@, request_id@) == Some(req@),
                None => lookup(old(self)@, request_id@) is None,
            },
            !has_id(final(self)@, request_id@),
    {
        let key = request_id.to_owned();
        match self.position(&key) {
            Some(i) => {
                let r = self.requests.remove(i);
                assert(self@ =~= old(self)@.remove(i as int));
                assert forall|j: int| 0 <= j < self@.len() implies self@[j].request_id != request_id@ by {
                    let k = if j < i { j } else { j + 1 };
                    assert(self@[j] == old(self)@[k]);
                }
                Some(r)
            },
            None => None,
        }
    }

    /// Whether a request with the given ID is pending.
    pub fn contains(&self, request_id: &str) -> (r: bool)
        requires
            self.wf(),
        ensures
            r == has_id(self@, request_id@),
    {
        let key = request_id.to_owned();
        self.position(&key).is_some()
    }

    /// The pending requests of one session, in order.
    pub fn get_for_session(&self, session_id: &str) -> (r: Vec<PendingRequest>)
        ensures
            r@.map_values(|q: PendingRequest| q@) == for_session(self@, session_id@),
    {
        let key = session_id.to_owned();
        let ghost all = self@;
        let mut r: Vec<PendingRequest> = Vec::new();
        let mut i: usize = 0;
        while i < self.requests.len()
            invariant
                i <= self.requests.len(),
                all == self@,
                key@ == session_id@,
                r@.map_values(|q: PendingRequest| q@) == for_session(all.take(i as int), session_id@),
            decreases self.requests.len() - i,
        {
            assert(all.take(i as int + 1).drop_last() =~= all.take(i as int));
            assert(all.take(i as int + 1).last() == self.requests@[i as int]@);
            let ghost before = r@.map_values(|q: PendingRequest| q@);
            if self.requests[i].session_id == key {
                r.push(self.requests[i].duplicate());
                assert(r@.map_values(|q: PendingRequest| q@) =~= before.push(self.requests@[i as int]@));
            }
            i = i + 1;
        }
        assert(all.take(i as int) =~= all);
        r
    }

    /// Refreshes, at time `now`, every request that targets the client.
    pub fn update_client_status(&mut self, client_id: &str, connected: bool, now: u64)
        requires
            old(self).wf(),
            now + old(self).config_view().timeout_for(connected) <= u64::MAX,
        ensures
            final(self).wf(),
            final(self)@ == client_refreshed(old(self)@, client_id@, connected, old(self).config_view(), now),
            final(self).config_view() == old(self).config_view(),
    {
        let key = client_id.to_owned();
        let ghost all = self@;
        let config = self.config;
        let mut i: usize = 0;
        while i < self.requests.len()
            invariant
                i <= self.requests.len(),
                self.requests.len() == all.len(),
                self.config == config,
                config == old(self).config,
                all == old(self)@,
                key@ == client_id@,
                now + config.timeout_for(connected) <= u64::MAX,
                forall|t: int| #![trigger self.requests@[t]] 0 <= t < i ==> self.requests@[t]@ == (if all[t].target_client
                    == Some(client_id@) {
                    refreshed(all[t], connected, config, now)
                } else {
                    all[t]
                }),
                forall|t: int| #![trigger self.requests@[t]] i <= t < all.len() ==> self.requests@[t]@ == all[t],
            decreases self.requests.len() - i,
        {
            let targets = match &self.requests[i].target_client {
                Some(c) => *c == key,
                None => false,
            };
            if targets {
                let mut r = self.requests[i].duplicate();
                r.refresh_expiry(connected, &config, now);
                self.requests.set(i, r);
            }
            i = i + 1;
        }
        assert(self@ =~= client_refreshed(all, client_id@, connected, config, now));
        proof {
            assert forall|a: int, b: int|
                0 <= a < self@.len() && 0 <= b < self@.len() && a != b implies self@[a].request_id != self@[b].request_id by {
                assert(self@[a].request_id == all[a].request_id);
                assert(self@[b].request_id == all[b].request_id);
            }
        }
    }

    /// Removes the requests that have expired at `now`; returns their IDs in
    /// order.
    pub fn cleanup_expired(&mut self, now: u64) -> (r: Vec<String>)
        requires
            old(self).wf(),
        ensures
            final(self).wf(),
            final(self)@ == unexpired(old(self)@, now),
            r.deep_view() == expired_ids(old(self)@, now),
            final(self).config_view() == old(self).config_view(),
    {
        let ghost all = self@;
        let mut kept: Vec<PendingRequest> = Vec::new();
        let mut gone: Vec<String> = Vec::new();
        let mut i: usize = 0;
        while i < self.requests.len()
            invariant
                i <= self.requests.len(),
                all == self@,
                ids_unique(all),
                kept@.map_values(|q: PendingRequest| q@) == unexpired(all.take(i as int), now),
                gone.deep_view() == expired_ids(all.take(i as int), now),
                forall|a: int| 0 <= a < kept@.len() ==> exists|b: int| 0 <= b < i && #[trigger] kept@[a]@ == all[b],
                ids_unique(kept@.map_values(|q: PendingRequest| q@)),
            decreases self.requests.len() - i,
        {
            assert(all.take(i as int + 1).drop_last() =~= all.take(i as int));
            assert(all.take(i as int + 1).last() == self.requests@[i as int]@);
            let ghost before = kept@.map_values(|q: PendingRequest| q@);
            let ghost before_gone = gone.deep_view();
            if self.requests[i].is_expired(now) {
                gone.push(self.requests[i].request_id.clone());
                assert(gone.deep_view() =~= before_gone.push(all[i as int].request_id));
            } else {
                kept.push(self.requests[i].duplicate());
                assert(kept@.map_values(|q: PendingRequest| q@) =~= before.push(all[i as int]));
                proof {
                    let kv = kept@.map_values(|q: PendingRequest| q@);
                    assert forall|a: int, b: int|
                        0 <= a < kv.len() && 0 <= b < kv.len() && a != b implies kv[a].request_id != kv[b].request_id by {
                        if a == kv.len() - 1 || b == kv.len() - 1 {
                            let o = if a == kv.len() - 1 { b } else { a };
                            let c = choose|c: int| 0 <= c < i && #[trigger] kept@[o]@ == all[c];
                            assert(kv[o] == all[c]);
                        }
                    }
                    assert forall|a: int| 0 <= a < kept@.len() implies exists|b: int| 0 <= b < i + 1 && #[trigger] kept@[a]@ == all[b] by {
                        if a == kept@.len() - 1 {
                            assert(kept@[a]@ == all[i as int]);
                        } else {
                            let c = choose|c: int| 0 <= c < i && #[trigger] kept@[a]@ == all[c];
                        }
                    }
                }
            }
            i = i + 1;
        }
        assert(all.take(i as int) =~= all);
        self.requests = kept;
        gone
    }

    /// The number of pending requests.
    pub fn count(&self) -> (n: usize)
        ensures
            n == self@.len(),
    {
        self.requests.len()
    }

    /// The configuration.
    pub fn config(&self) -> (c: &PendingConfig)
        ensures
            *c == self.config_view(),
    {
        &self.config
    }
}

/// Taking a request out returns exactly what was last added under its ID,
/// and leaves no request with that ID behind.
pub proof fn law_take_returns_added(m: Seq<PendingView>, r: PendingView)
    requires
        ids_unique(m),
    ensures
        lookup(added(m, r), r.request_id) == Some(r),
        !has_id(taken(added(m, r), r.request_id), r.request_id),
{
    let a = added(m, r);
    let id = r.request_id;
    if has_id(m, id) {
        let i = index_of_id(m, id);
        assert(ids_unique(a)) by {
            assert forall|x: int, y: int| 0 <= x < a.len() && 0 <= y < a.len() && x != y implies a[x].request_id != a[y].request_id by {
                if x != i && y != i {
                    assert(a[x] == m[x] && a[y] == m[y]);
                }
            }
        }
        lemma_index_of_id(a, i);
        let t = a.remove(i);
        assert forall|k: int| 0 <= k < t.len() implies t[k].request_id != id by {
            if k < i {
                assert(t[k] == a[k]);
            } else {
                assert(t[k] == a[k + 1]);
            }
        }
    } else {
        assert(ids_unique(a)) by {
            assert forall|x: int, y: int| 0 <= x < a.len() && 0 <= y < a.len() && x != y implies a[x].request_id != a[y].request_id by {
                if x < m.len() && y < m.len() {
                    assert(a[x] == m[x] && a[y] == m[y]);
                } else if x < m.len() {
                    assert(a[x] == m[x]);
                } else if y < m.len() {
                    assert(a[y] == m[y]);
                }
            }
        }
        lemma_index_of_id(a, m.len() as int);
        let t = a.remove(m.len() as int);
        assert(t =~= m);
    }
}

/// Cleanup splits the requests: every request is either kept (not expired)
/// or reported (expired), never both.
pub proof fn law_cleanup_partitions(m: Seq<PendingView>, now: u64)
    ensures
        unexpired(m, now).len() + expired_ids(m, now).len() == m.len(),
        forall|i: int| 0 <= i < unexpired(m, now).len() ==> !expired_at(#[trigger] unexpired(m, now)[i], now),
    decreases m.len(),
{
    if m.len() > 0 {
        law_cleanup_partitions(m.drop_last(), now);
        let u = unexpired(m, now);
        let u0 = unexpired(m.drop_last(), now);
        assert forall|i: int| 0 <= i < u.len() implies !expired_at(#[trigger] u[i], now) by {
            if i < u0.len() {
                assert(u[i] == u0[i]);
            }
        }
    }
}

// ---------------------------------------------------------------------------
// Session grants
// ---------------------------------------------------------------------------

/// Session-scoped permission grant.
#[derive(Debug, Clone)]
pub struct SessionGrant {
    pub tool_name: String,
    pub path_pattern: Option<String>,
    pub granted: bool,
}

/// The abstract value of a grant.
pub struct GrantView {
    pub tool_name: Seq<char>,
    pub path_pattern: Option<Seq<char>>,
    pub granted: bool,
}

impl View for SessionGrant {
    type V = GrantView;

    open spec fn view(&self) -> GrantView {
        GrantView { tool_name: self.tool_name@, path_pattern: opt_view(self.path_pattern), granted: self.granted }
    }
}

/// The values of a list of grants.
pub open spec fn grants_view(v: Seq<SessionGrant>) -> Seq<GrantView> {
    v.map_values(|g: SessionGrant| g@)
}

/// `p` starts with `prefix`.
pub open spec fn starts_with(p: Seq<char>, prefix: Seq<char>) -> bool {
    prefix.len() <= p.len() && p.take(prefix.len() as int) == prefix
}

/// A grant applies to a request for `tool` on `path`: same tool, and either
/// no pattern or a path that starts with the pattern.
pub open spec fn grant_applies(g: GrantView, tool: Seq<char>, path: Option<Seq<char>>) -> bool {
    g.tool_name == tool && match g.path_pattern {
        None => true,
        Some(pattern) => match path {
            Some(p) => starts_with(p, pattern),
            None => false,
        },
    }
}

/// The decision of the most recent applicable grant, if any.
pub open spec fn grant_decision(grants: Seq<GrantView>, tool: Seq<char>, path: Option<Seq<char>>) -> Option<bool>
    decreases grants.len(),
{
    if grants.len() == 0 {
        None
    } else if grant_applies(grants.last(), tool, path) {
        Some(grants.last().granted)
    } else {
        grant_decision(grants.drop_last(), tool, path)
    }
}

/// The grants recorded for a session (none when it has no entry).
pub open spec fn grants_in(table: Seq<(Seq<char>, Seq<GrantView>)>, session: Seq<char>) -> Seq<GrantView> {
    if exists|i: int| 0 <= i < table.len() && table[i].0 == session {
        table[choose|i: int| 0 <= i < table.len() && table[i].0 == session].1
    } else {
        Seq::empty()
    }
}

/// No two entries are for the same session.
pub open spec fn sessions_unique(table: Seq<(Seq<char>, Seq<GrantView>)>) -> bool {
    forall|i: int, j: int| 0 <= i < table.len() && 0 <= j < table.len() && i != j ==> table[i].0 != table[j].0
}

proof fn lemma_grants_in_at(table: Seq<(Seq<char>, Seq<GrantView>)>, i: int)
    requires
        sessions_unique(table),
        0 <= i < table.len(),
    ensures
        grants_in(table, table[i].0) == table[i].1,
{
    let j = choose|j: int| 0 <= j < table.len() && table[j].0 == table[i].0;
}

/// Whether `p` starts with `prefix`.
fn starts_with_exec(p: &str, prefix: &String) -> (r: bool)
    ensures
        r == starts_with(p@, prefix@),
{
    let pc = crate::text::chars_of(p);
    let qc = crate::text::chars_of(prefix.as_str());
    if qc.len() > pc.len() {
        return false;
    }
    let mut i: usize = 0;
    while i < qc.len()
        invariant
            i <= qc.len(),
            qc.len() <= pc.len(),
            pc@ == p@,
            qc@ == prefix@,
            forall|t: int| 0 <= t < i ==> pc@[t] == qc@[t],
        decreases qc.len() - i,
    {
        if pc[i] != qc[i] {
            assert(p@.take(prefix@.len() as int)[i as int] != prefix@[i as int]);
            return false;
        }
        i = i + 1;
    }
    assert(p@.take(prefix@.len() as int) =~= prefix@);
    true
}

/// Session-scoped grants, one list per session, most recent last.
pub struct GrantTable {
    sessions: Vec<(String, Vec<SessionGrant>)>,
}

impl View for GrantTable {
    type V = Seq<(Seq<char>, Seq<GrantView>)>;

    closed spec fn view(&self) -> Seq<(Seq<char>, Seq<GrantView>)> {
        self.sessions@.map_values(|e: (String, Vec<SessionGrant>)| (e.0@, grants_view(e.1@)))
    }
}

impl GrantTable {
    pub closed spec fn wf(&self) -> bool {
        sessions_unique(self@)
    }

    /// No grants.
    pub fn new() -> (t: GrantTable)
        ensures
            t.wf(),
            forall|s: Seq<char>| grants_in(t@, s) == Seq::<GrantView>::empty(),
    {
        let t = GrantTable { sessions: Vec::new() };
        assert(t@ =~= Seq::<(Seq<char>, Seq<GrantView>)>::empty());
        t
    }

    fn position(&self, session: &String) -> (r: Option<usize>)
        requires
            self.wf(),
        ensures
            match r {
                Some(i) => i < self@.len() && self@[i as int].0 == session@,
                None => forall|j: int| 0 <= j < self@.len() ==> self@[j].0 != session@,
            },
    {
        let mut i: usize = 0;
        while i < self.sessions.len()
            invariant
                i <= self.sessions.len(),
                forall|j: int| 0 <= j < i ==> self@[j].0 != session@,
            decreases self.sessions.len() - i,
        {
            if self.sessions[i].0 == *session {
                return Some(i);
            }
            i = i + 1;
        }
        None
    }

    /// Records a grant for a session; it takes precedence over earlier ones.
    pub fn add_session_grant(&mut self, session_id: &str, tool_name: &str, path_pattern: Option<&str>, granted: bool)
        requires
            old(self).wf(),
        ensures
            final(self).wf(),
            grants_in(final(self)@, session_id@) == grants_in(old(self)@, session_id@).push(
                GrantView {
                    tool_name: tool_name@,
                    path_pattern: match path_pattern {
                        Some(p) => Some(p@),
                        None => None,
                    },
                    granted,
                },
            ),
            forall|s: Seq<char>| s != session_id@ ==> grants_in(final(self)@, s) == grants_in(old(self)@, s),
    {
        let key = session_id.to_owned();
        let grant = SessionGrant {
            tool_name: tool_name.to_owned(),
            path_pattern: match path_pattern {
                Some(p) => Some(p.to_owned()),
                None => None,
            },
            granted,
        };
        let ghost gv = grant@;
        let ghost before = self@;
        match self.position(&key) {
            Some(i) => {
                let mut list: Vec<SessionGrant> = Vec::new();
                let old_list = &self.sessions[i].1;
                let mut k: usize = 0;
                while k < old_list.len()
                    invariant
                        k <= old_list.len(),
                        list@.len() == k,
                        forall|t: int| 0 <= t < k ==> #[trigger] list@[t]@ == old_list@[t]@,
                    decreases old_list.len() - k,
                {
                    let g = &old_list[k];
                    list.push(SessionGrant { tool_name: g.tool_name.clone(), path_pattern: clone_opt(&g.path_pattern), granted: g.granted });
                    k = k + 1;
                }
                list.push(grant);
                let ghost nl = grants_view(list@);
                assert(nl =~= before[i as int].1.push(gv));
                self.sessions.set(i, (key, list));
                proof {
                    assert(self@ =~= before.update(i as int, (session_id@, before[i as int].1.push(gv))));
                    assert(sessions_unique(self@));
                    lemma_grants_in_at(self@, i as int);
                    lemma_grants_in_at(before, i as int);
                    assert forall|s: Seq<char>| s != session_id@ implies grants_in(self@, s) == grants_in(before, s) by {
                        if exists|j: int| 0 <= j < before.len() && before[j].0 == s {
                            let j = choose|j: int| 0 <= j < before.len() && before[j].0 == s;
                            lemma_grants_in_at(before, j);
                            lemma_grants_in_at(self@, j);
                        } else {
                            assert(!exists|j: int| 0 <= j < self@.len() && self@[j].0 == s) by {
                                assert forall|j: int| 0 <= j < self@.len() implies self@[j].0 != s by {
                                    if j != i {
                                        assert(self@[j] == before[j]);
                                    }
                                }
                            }
                        }
                    }
                }
            },
            None => {
                let mut list: Vec<SessionGrant> = Vec::new();
                list.push(grant);
                assert(grants_view(list@) =~= seq![gv]);
                self.sessions.push((key, list));
                proof {
                    let nl = seq![gv];
                    assert(self@ =~= before.push((session_id@, nl)));
                    assert(sessions_unique(self@));
                    lemma_grants_in_at(self@, before.len() as int);
                    assert(grants_in(before, session_id@) =~= Seq::<GrantView>::empty());
                    assert(nl =~= Seq::<GrantView>::empty().push(gv));
                    assert forall|s: Seq<char>| s != session_id@ implies grants_in(self@, s) == grants_in(before, s) by {
                        if exists|j: int| 0 <= j < before.len() && before[j].0 == s {
                            let j = choose|j: int| 0 <= j < before.len() && before[j].0 == s;
                            lemma_grants_in_at(before, j);
                            lemma_grants_in_at(self@, j);
                        } else {
                            assert(!exists|j: int| 0 <= j < self@.len() && self@[j].0 == s) by {
                                assert forall|j: int| 0 <= j < self@.len() implies self@[j].0 != s by {
                                    if j < before.len() {
                                        assert(self@[j] == before[j]);
                                    }
                                }
                            }
                        }
                    }
                }
            },
        }
    }

    /// The decision of the most recent grant of the session that applies to
    /// the tool (and path), if any.
    pub fn check_session_grant(&self, session_id: &str, tool_name: &str, path: Option<&str>) -> (r: Option<bool>)
        requires
            self.wf(),
        ensures
            r == grant_decision(
                grants_in(self@, session_id@),
                tool_name@,
                match path {
                    Some(p) => Some(p@),
                    None => None,
                },
            ),
    {
        let key = session_id.to_owned();
        let tool = tool_name.to_owned();
        let ghost pv = match path {
            Some(p) => Some(p@),
            None => None,
        };
        match self.position(&key) {
            None => {
                assert(grants_in(self@, session_id@) =~= Seq::<GrantView>::empty());
                None
            },
            Some(i) => {
                proof {
                    lemma_grants_in_at(self@, i as int);
                }
                let list = &self.sessions[i].1;
                let ghost gs = grants_view(list@);
                assert(gs.take(list.len() as int) =~= gs);
                let mut k: usize = list.len();
                while k > 0
                    invariant
                        k <= list.len(),
                        gs == grants_view(list@),
                        tool@ == tool_name@,
                        grants_in(self@, session_id@) == gs,
                        pv == match path {
                            Some(p) => Some(p@),
                            None => None,
                        },
                        grant_decision(gs, tool_name@, pv) == grant_decision(gs.take(k as int), tool_name@, pv),
                    decreases k,
                {
                    let g = &list[k - 1];
                    assert(gs.take(k as int).drop_last() =~= gs.take(k as int - 1));
                    assert(gs.take(k as int).last() == g@);
                    let applies = if g.tool_name == tool {
                        match &g.path_pattern {
                            None => true,
                            Some(pattern) => match path {
                                Some(p) => starts_with_exec(p, pattern),
                                None => false,
                            },
                        }
                    } else {
                        false
                    };
                    if applies {
                        return Some(g.granted);
                    }
                    k = k - 1;
                }
                assert(gs.take(0) =~= Seq::<GrantView>::empty());
                None
            },
        }
    }

    /// Forgets every grant of a session.
    pub fn clear_session_grants(&mut self, session_id: &str)
        requires
            old(self).wf(),
        ensures
            final(self).wf(),
            grants_in(final(self)@, session_id@) == Seq::<GrantView>::empty(),
            forall|s: Seq<char>| s != session_id@ ==> grants_in(final(self)@, s) == grants_in(old(self)@, s),
    {
        let key = session_id.to_owned();
        let ghost before = self@;
        match self.position(&key) {
            Some(i) => {
                self.sessions.remove(i);
                proof {
                    assert(self@ =~= before.remove(i as int));
                    assert(sessions_unique(self@)) by {
                        assert forall|a: int, b: int| 0 <= a < self@.len() && 0 <= b < self@.len() && a != b implies self@[a].0 != self@[b].0 by {
                            let a2 = if a < i { a } else { a + 1 };
                            let b2 = if b < i { b } else { b + 1 };
                            assert(self@[a] == before[a2] && self@[b] == before[b2]);
                        }
                    }
                    assert(!exists|j: int| 0 <= j < self@.len() && self@[j].0 == session_id@) by {
                        assert forall|j: int| 0 <= j < self@.len() implies self@[j].0 != session_id@ by {
                            let j2 = if j < i { j } else { j + 1 };
                            assert(self@[j] == before[j2]);
                        }
                    }
                    assert forall|s: Seq<char>| s != session_id@ implies grants_in(self@, s) == grants_in(before, s) by {
                        if exists|j: int| 0 <= j < before.len() && before[j].0 == s {
                            let j = choose|j: int| 0 <= j < before.len() && before[j].0 == s;
                            lemma_grants_in_at(before, j);
                            assert(j != i);
                            let j2 = if j < i { j } else { j - 1 };
                            assert(self@[j2] == before[j]);
                            lemma_grants_in_at(self@, j2);
                        } else {
                            assert(!exists|j: int| 0 <= j < self@.len() && self@[j].0 == s) by {
                                assert forall|j: int| 0 <= j < self@.len() implies self@[j].0 != s by {
                                    let j2 = if j < i { j } else { j + 1 };
                                    assert(self@[j] == before[j2]);
                                }
                            }
                        }
                    }
                }
            },
            None => {},
        }
    }
}

/// The most recent grant decides: after a session grant without a path
/// pattern, that grant's decision answers every request of the session for
/// that tool, whatever the path.
pub proof fn law_latest_grant_wins(grants: Seq<GrantView>, g: GrantView, path: Option<Seq<char>>)
    requires
        g.path_pattern is None,
    ensures
        grant_decision(grants.push(g), g.tool_name, path) == Some(g.granted),
{
    assert(grants.push(g).last() == g);
}

// ---------------------------------------------------------------------------
// Evaluation
// ---------------------------------------------------------------------------

/// Response to a permission request from a client.
#[derive(Debug, Clone)]
pub struct PermissionResponse {
    /// Request ID being responded to.
    pub request_id: String,
    /// Whether permission was granted.
    pub granted: bool,
    /// Whether to remember this decision for the session.
    pub remember_session: bool,
    /// Whether to remember this decision permanently.
    pub remember_permanent: bool,
}

/// Result of permission evaluation.
#[derive(Debug)]
pub enum PermissionEvaluation {
    /// Permission allowed (immediately).
    Allowed { cached: bool },
    /// Permission denied (immediately).
    Denied { cached: bool },
    /// Permission requires user approval (request created).
    Pending { request: PendingRequest },
}

/// Result of processing a permission response.
#[derive(Debug)]
pub struct ProcessedResponse {
    /// The original request.
    pub request: PendingRequest,
    /// Whether permission was granted.
    pub granted: bool,
}

/// Permission engine errors.
#[derive(Debug)]
pub enum PermissionError {
    RequestNotFound { request_id: String },
    Database(String),
}

impl PermissionError {
    /// Renders the error as text.
    pub fn to_string(&self) -> (s: String)
        ensures
            s@ == match self {
                PermissionError::RequestNotFound { request_id } => "Permission request not found: "@ + request_id@,
                PermissionError::Database(m) => "Database error: "@ + m@,
            },
    {
        match self {
            PermissionError::RequestNotFound { request_id } => {
                let mut s = "Permission request not found: ".to_owned();
                s.append(request_id.as_str());
                s
            },
            PermissionError::Database(m) => {
                let mut s = "Database error: ".to_owned();
                s.append(m.as_str());
                s
            },
        }
    }
}

/// What the permission rules decide for a tool (and path).
#[derive(Debug, Clone, Copy, PartialEq, Eq, Structural)]
pub enum RuleAction {
    Allow,
    Deny,
    Ask,
    AskSession,
}

/// Parameters for a permission evaluation request.
pub struct PermissionEvalRequest<'a> {
    /// Session identifier.
    pub session_id: &'a str,
    /// Unique request identifier.
    pub request_id: &'a str,
    /// Tool name being requested.
    pub tool_name: &'a str,
    /// Human-readable description.
    pub description: &'a str,
    /// Tool input as JSON.
    pub input_json: &'a str,
    /// Optional file path context.
    pub path: Option<&'a str>,
    /// Client that should respond (if any).
    pub target_client: Option<&'a str>,
    /// Whether the client is currently connected.
    pub client_connected: bool,
}

/// The value of an optional string slice.
pub open spec fn opt_str_view(o: Option<&str>) -> Option<Seq<char>> {
    match o {
        Some(s) => Some(s@),
        None => None,
    }
}

/// The pending request that an evaluation at time `now` creates.
pub open spec fn requested(req: PermissionEvalRequest, config: PendingConfig, now: u64) -> PendingView {
    PendingView {
        request_id: req.request_id@,
        session_id: req.session_id@,
        tool_name: req.tool_name@,
        description: req.description@,
        input_json: req.input_json@,
        target_client: opt_str_view(req.target_client),
        created_at: now,
        expires_at: (now + config.timeout_for(req.client_connected)) as u64,
        client_connected: req.client_connected,
    }
}

/// Daemon permission engine: session grants first, then the stored grant,
/// then the rules; a rule that asks creates a pending request.
pub struct DaemonPermissionEngine {
    pending: PendingManager,
    session_grants: GrantTable,
}

impl DaemonPermissionEngine {
    pub closed spec fn wf(&self) -> bool {
        self.pending.wf() && self.session_grants.wf()
    }

    /// The pending requests.
    pub closed spec fn pending_view(&self) -> Seq<PendingView> {
        self.pending@
    }

    /// The session grants.
    pub closed spec fn grants_view(&self) -> Seq<(Seq<char>, Seq<GrantView>)> {
        self.session_grants@
    }

    /// The pending-request configuration.
    pub closed spec fn config_view(&self) -> PendingConfig {
        self.pending.config_view()
    }

    /// An engine with no grants and no pending requests.
    pub fn new(pending_config: PendingConfig) -> (e: DaemonPermissionEngine)
        ensures
            e.wf(),
            e.pending_view() == Seq::<PendingView>::empty(),
            forall|s: Seq<char>| grants_in(e.grants_view(), s) == Seq::<GrantView>::empty(),
            e.config_view() == pending_config,
    {
        DaemonPermissionEngine { pending: PendingManager::new(pending_config), session_grants: GrantTable::new() }
    }

    /// Evaluates a permission request. `stored_action` is the action of the
    /// stored grant for the session and tool (if any), `rule` what the rules
    /// decide, `now` the current time.
    pub fn evaluate(
        &mut self,
        req: &PermissionEvalRequest,
        stored_action: Option<&str>,
        rule: RuleAction,
        now: u64,
    ) -> (r: PermissionEvaluation)
        requires
            old(self).wf(),
            now + old(self).config_view().timeout_for(req.client_connected) <= u64::MAX,
        ensures
            final(self).wf(),
            final(self).grants_view() == old(self).grants_view(),
            final(self).config_view() == old(self).config_view(),
            match grant_decision(grants_in(old(self).grants_view(), req.session_id@), req.tool_name@, opt_str_view(req.path)) {
                Some(g) => r == (if g {
                    PermissionEvaluation::Allowed { cached: true }
                } else {
                    PermissionEvaluation::Denied { cached: true }
                }) && final(self).pending_view() == old(self).pending_view(),
                None => match stored_action {
                    Some(a) => r == (if a@ == "allow"@ {
                        PermissionEvaluation::Allowed { cached: true }
                    } else {
                        PermissionEvaluation::Denied { cached: true }
                    }) && final(self).pending_view() == old(self).pending_view(),
                    None => match rule {
                        RuleAction::Allow => r == PermissionEvaluation::Allowed { cached: false }
                            && final(self).pending_view() == old(self).pending_view(),
                        RuleAction::Deny => r == PermissionEvaluation::Denied { cached: false }
                            && final(self).pending_view() == old(self).pending_view(),
                        _ => r matches PermissionEvaluation::Pending { request } && request@ == requested(
                            *req,
                            old(self).config_view(),
                            now,
                        ) && final(self).pending_view() == added(old(self).pending_view(), request@),
                    },
                },
            },
    {
        match self.session_grants.check_session_grant(req.session_id, req.tool_name, req.path) {
            Some(g) => {
                return if g {
                    PermissionEvaluation::Allowed { cached: true }
                } else {
                    PermissionEvaluation::Denied { cached: true }
                };
            },
            None => {},
        }
        match stored_action {
            Some(a) => {
                let allow = "allow".to_owned();
                return if a.to_owned() == allow {
                    PermissionEvaluation::Allowed { cached: true }
                } else {
                    PermissionEvaluation::Denied { cached: true }
                };
            },
            None => {},
        }
        match rule {
            RuleAction::Allow => PermissionEvaluation::Allowed { cached: false },
            RuleAction::Deny => PermissionEvaluation::Denied { cached: false },
            _ => {
                let params = PendingRequestParams {
                    request_id: req.request_id.to_owned(),
                    session_id: req.session_id.to_owned(),
                    tool_name: req.tool_name.to_owned(),
                    description: req.description.to_owned(),
                    input_json: req.input_json.to_owned(),
                    target_client: match req.target_client {
                        Some(c) => Some(c.to_owned()),
                        None => None,
                    },
                    client_connected: req.client_connected,
                };
                let request = self.pending.create(params, now);
                PermissionEvaluation::Pending { request }
            },
        }
    }

    /// Processes a client's answer: the pending request is taken out, and a
    /// session grant for its tool is recorded when the client asked to
    /// remember the decision for the session.
    pub fn process_response(&mut self, response: PermissionResponse) -> (r: Result<ProcessedResponse, PermissionError>)
        requires
            old(self).wf(),
        ensures
            final(self).wf(),
            final(self).config_view() == old(self).config_view(),
            final(self).pending_view() == taken(old(self).pending_view(), response.request_id@),
            lookup(final(self).pending_view(), response.request_id@) is None,
            match lookup(old(self).pending_view(), response.request_id@) {
                None => r matches Err(PermissionError::RequestNotFound { request_id }) && request_id@
                    == response.request_id@ && final(self).grants_view() == old(self).grants_view(),
                Some(req) => r matches Ok(p) && p.request@ == req && p.granted == response.granted && if response.remember_session {
                    grants_in(final(self).grants_view(), req.session_id) == grants_in(old(self).grants_view(), req.session_id).push(
                        GrantView { tool_name: req.tool_name, path_pattern: None, granted: response.granted },
                    ) && forall|s: Seq<char>|
                        s != req.session_id ==> grants_in(final(self).grants_view(), s) == grants_in(
                            old(self).grants_view(),
                            s,
                        )
                } else {
                    final(self).grants_view() == old(self).grants_view()
                },
            },
    {
        match self.pending.take(response.request_id.as_str()) {
            None => Err(PermissionError::RequestNotFound { request_id: response.request_id }),
            Some(request) => {
                if response.remember_session {
                    self.session_grants.add_session_grant(
                        request.session_id.as_str(),
                        request.tool_name.as_str(),
                        None,
                        response.granted,
                    );
                }
                Ok(ProcessedResponse { request, granted: response.granted })
            },
        }
    }

    /// Records a session-scoped grant.
    pub fn add_session_grant(&mut self, session_id: &str, tool_name: &str, path_pattern: Option<&str>, granted: bool)
        requires
            old(self).wf(),
        ensures
            final(self).wf(),
            final(self).pending_view() == old(self).pending_view(),
            final(self).config_view() == old(self).config_view(),
            grants_in(final(self).grants_view(), session_id@) == grants_in(old(self).grants_view(), session_id@).push(
                GrantView { tool_name: tool_name@, path_pattern: opt_str_view(path_pattern), granted },
            ),
            forall|s: Seq<char>| s != session_id@ ==> grants_in(final(self).grants_view(), s) == grants_in(old(self).grants_view(), s),
    {
        self.session_grants.add_session_grant(session_id, tool_name, path_pattern, granted);
    }

    /// Forgets the grants of a session.
    pub fn clear_session_grants(&mut self, session_id: &str)
        requires
            old(self).wf(),
        ensures
            final(self).wf(),
            final(self).pending_view() == old(self).pending_view(),
            final(self).config_view() == old(self).config_view(),
            grants_in(final(self).grants_view(), session_id@) == Seq::<GrantView>::empty(),
            forall|s: Seq<char>| s != session_id@ ==> grants_in(final(self).grants_view(), s) == grants_in(old(self).grants_view(), s),
    {
        self.session_grants.clear_session_grants(session_id);
    }

    /// The pending request with the given ID, if any.
    pub fn get_pending(&self, request_id: &str) -> (r: Option<PendingRequest>)
        requires
            self.wf(),
        ensures
            match r {
                Some(req) => lookup(self.pending_view(), request_id@) == Some(req@),
                None => lookup(self.pending_view(), request_id@) is None,
            },
    {
        self.pending.get(request_id)
    }

    /// The pending requests of a session, in order.
    pub fn get_pending_for_session(&self, session_id: &str) -> (r: Vec<PendingRequest>)
        ensures
            r@.map_values(|q: PendingRequest| q@) == for_session(self.pending_view(), session_id@),
    {
        self.pending.get_for_session(session_id)
    }

    /// Refreshes, at time `now`, the pending requests that target a client.
    pub fn update_client_status(&mut self, client_id: &str, connected: bool, now: u64)
        requires
            old(self).wf(),
            now + old(self).config_view().timeout_for(connected) <= u64::MAX,
        ensures
            final(self).wf(),
            final(self).grants_view() == old(self).grants_view(),
            final(self).config_view() == old(self).config_view(),
            final(self).pending_view() == client_refreshed(old(self).pending_view(), client_id@, connected, old(self).config_view(), now),
    {
        self.pending.update_client_status(client_id, connected, now);
    }

    /// Drops the pending requests that have expired at `now`; returns their
    /// IDs.
    pub fn cleanup_expired(&mut self, now: u64) -> (r: Vec<String>)
        requires
            old(self).wf(),
        ensures
            final(self).wf(),
            final(self).grants_view() == old(self).grants_view(),
            final(self).config_view() == old(self).config_view(),
            final(self).pending_view() == unexpired(old(self).pending_view(), now),
            r.deep_view() == expired_ids(old(self).pending_view(), now),
    {
        self.pending.cleanup_expired(now)
    }
}


/// A grant that does not apply to a request (another tool, or a path
/// pattern the request's path does not start with, or a pattern and no
/// path) never changes the decision for it.
pub proof fn law_inapplicable_grant_ignored(gs: Seq<GrantView>, g: GrantView, tool: Seq<char>, path: Option<Seq<char>>)
    requires
        g.tool_name != tool || match g.path_pattern {
            None => false,
            Some(pattern) => match path {
                None => true,
                Some(p) => !(pattern.len() <= p.len() && p.take(pattern.len() as int) == pattern),
            },
        },
    ensures
        grant_decision(gs.push(g), tool, path) == grant_decision(gs, tool, path),
{
    assert(gs.push(g).drop_last() =~= gs);
}

/// A grant that applies to a request (same tool, and no pattern or a path
/// that starts with the pattern) decides it, whatever came before.
pub proof fn law_applicable_grant_decides(gs: Seq<GrantView>, g: GrantView, tool: Seq<char>, path: Option<Seq<char>>)
    requires
        g.tool_name == tool,
        match g.path_pattern {
            None => true,
            Some(pattern) => match path {
                None => false,
                Some(p) => pattern.len() <= p.len() && p.take(pattern.len() as int) == pattern,
            },
        },
    ensures
        grant_decision(gs.push(g), tool, path) == Some(g.granted),
{
    assert(gs.push(g).last() == g);
}

/// With no grants there is no decision.
pub proof fn law_no_grants_no_decision(tool: Seq<char>, path: Option<Seq<char>>)
    ensures
        grant_decision(Seq::<GrantView>::empty(), tool, path) is None,
{
}

} // verus!
