//! The session registry: running wallet-headless instances keyed by
//! session id, and the orchestrator's settings.
use vstd::prelude::*;
use vstd::string::*;

verus! {

/// A running wallet-headless instance.
///
/// Times are readings of a monotonic clock in nanoseconds.
#[derive(Debug, Clone)]
pub struct Instance {
    /// Unique session token (used as both session id and container name suffix)
    pub session_id: String,
    /// Docker container id
    pub container_id: String,
    /// The host port mapped to the container's headless port
    pub port: u16,
    /// API key for authenticating with this wallet-headless instance
    pub api_key: String,
    /// When this instance was created
    pub created_at: u64,
    /// Last time a request was authorized for this instance
    pub last_activity: u64,
}

/// The mathematical value of an `Instance`.
pub struct InstanceView {
    pub session_id: Seq<char>,
    pub container_id: Seq<char>,
    pub port: u16,
    pub api_key: Seq<char>,
    pub created_at: u64,
    pub last_activity: u64,
}

impl View for Instance {
    type V = InstanceView;

    open spec fn view(&self) -> InstanceView {
        InstanceView {
            session_id: self.session_id@,
            container_id: self.container_id@,
            port: self.port,
            api_key: self.api_key@,
            created_at: self.created_at,
            last_activity: self.last_activity,
        }
    }
}

/// The instance with its last activity moved to `now`.
pub open spec fn touched(v: InstanceView, now: u64) -> InstanceView {
    InstanceView { last_activity: now, ..v }
}

/// Why a request about a session was refused.
#[derive(Debug, Clone, Copy, PartialEq, Eq, Structural)]
pub enum SessionError {
    /// No session with that id is running.
    NotFound,
    /// The caller presented no api key.
    MissingApiKey,
    /// The caller's api key is not the session's.
    InvalidApiKey,
    /// The instance limit is reached.
    CapacityReached,
}

/// The HTTP status with which a refusal is answered.
pub open spec fn error_status(e: SessionError) -> u16 {
    match e {
        SessionError::NotFound => 404,
        SessionError::MissingApiKey => 401,
        SessionError::InvalidApiKey => 401,
        SessionError::CapacityReached => 503,
    }
}

/// The message with which a refusal is answered.
pub open spec fn error_message(e: SessionError) -> Seq<char> {
    match e {
        SessionError::NotFound => "Session not found"@,
        SessionError::MissingApiKey => "Missing x-api-key header"@,
        SessionError::InvalidApiKey => "Invalid api key"@,
        SessionError::CapacityReached => "Maximum number of instances reached"@,
    }
}

impl SessionError {
    /// The HTTP status code of this refusal.
    pub fn status(&self) -> (r: u16)
        ensures
            r == error_status(*self),
    {
        match self {
            SessionError::NotFound => 404,
            SessionError::MissingApiKey => 401,
            SessionError::InvalidApiKey => 401,
            SessionError::CapacityReached => 503,
        }
    }

    /// The error message of this refusal.
    pub fn message(&self) -> (r: String)
        ensures
            r@ == error_message(*self),
    {
        match self {
            SessionError::NotFound => String::from_str("Session not found"),
            SessionError::MissingApiKey => String::from_str("Missing x-api-key header"),
            SessionError::InvalidApiKey => String::from_str("Invalid api key"),
            SessionError::CapacityReached => String::from_str(
                "Maximum number of instances reached",
            ),
        }
    }
}

/// The view of an optional caller key.
pub open spec fn key_view(k: Option<&str>) -> Option<Seq<char>> {
    match k {
        Some(s) => Some(s@),
        None => None,
    }
}

/// The refusal owed to a caller who presents `caller` for session `id`,
/// or `None` where the caller is let through.
pub open spec fn auth_refusal(
    m: Map<Seq<char>, InstanceView>,
    id: Seq<char>,
    caller: Option<Seq<char>>,
) -> Option<SessionError> {
    if !m.dom().contains(id) {
        Some(SessionError::NotFound)
    } else {
        match caller {
            None => Some(SessionError::MissingApiKey),
            Some(k) => if k != m[id].api_key {
                Some(SessionError::InvalidApiKey)
            } else {
                None
            },
        }
    }
}

/// Nanoseconds since the instance's last activity; zero if the clock
/// reading `now` is not later.
pub open spec fn idle_nanos(v: InstanceView, now: u64) -> int {
    if now >= v.last_activity {
        now - v.last_activity
    } else {
        0
    }
}

/// Whether the instance has been idle for longer than `timeout_secs`.
pub open spec fn is_expired(v: InstanceView, now: u64, timeout_secs: u64) -> bool {
    idle_nanos(v, now) > timeout_secs * 1_000_000_000
}

/// Whole seconds of idleness, as `Duration::as_secs` gives them.
pub open spec fn idle_secs(v: InstanceView, now: u64) -> int {
    idle_nanos(v, now) / 1_000_000_000
}

/// The sessions that stay when the expired ones are reaped.
pub open spec fn live_sessions(
    m: Map<Seq<char>, InstanceView>,
    now: u64,
    timeout_secs: u64,
) -> Map<Seq<char>, InstanceView> {
    Map::new(|k: Seq<char>| m.dom().contains(k) && !is_expired(m[k], now, timeout_secs), |k: Seq<char>| m[k])
}

/// One line of the session listing.
#[derive(Debug)]
pub struct SessionSummary {
    pub session_id: String,
    pub port: u16,
    pub idle_secs: u64,
}

fn idle_nanos_of(inst: &Instance, now: u64) -> (r: u64)
    ensures
        r == idle_nanos(inst@, now),
{
    if now >= inst.last_activity {
        now - inst.last_activity
    } else {
        0
    }
}

fn expired_at(inst: &Instance, now: u64, timeout_secs: u64) -> (r: bool)
    ensures
        r == is_expired(inst@, now, timeout_secs),
{
    let idle = idle_nanos_of(inst, now);
    (idle as u128) > (timeout_secs as u128) * 1_000_000_000u128
}

/// Session ids are pairwise distinct.
pub open spec fn ids_distinct(s: Seq<Instance>) -> bool {
    forall|i: int, j: int| 0 <= i < j < s.len() ==> s[i].session_id@ != s[j].session_id@
}

/// The map from session id to instance that a sequence of instances
/// describes (later entries win).
pub open spec fn entries_map(s: Seq<Instance>) -> Map<Seq<char>, InstanceView>
    decreases s.len(),
{
    if s.len() == 0 {
        Map::empty()
    } else {
        entries_map(s.drop_last()).insert(s.last().session_id@, s.last()@)
    }
}

proof fn lemma_entries_dom(s: Seq<Instance>, k: Seq<char>)
    ensures
        entries_map(s).dom().contains(k) <==> exists|i: int|
            0 <= i < s.len() && #[trigger] s[i].session_id@ == k,
    decreases s.len(),
{
    if s.len() > 0 {
        let d = s.drop_last();
        lemma_entries_dom(d, k);
        if entries_map(s).dom().contains(k) {
            if k == s.last().session_id@ {
                assert(s[s.len() - 1].session_id@ == k);
            } else {
                let i = choose|i: int| 0 <= i < d.len() && #[trigger] d[i].session_id@ == k;
                assert(s[i].session_id@ == k);
            }
        }
        if exists|i: int| 0 <= i < s.len() && #[trigger] s[i].session_id@ == k {
            let i = choose|i: int| 0 <= i < s.len() && #[trigger] s[i].session_id@ == k;
            if i < s.len() - 1 {
                assert(d[i].session_id@ == k);
            }
        }
    }
}

proof fn lemma_entries_keys(s: Seq<Instance>)
    ensures
        entries_map(s).dom().finite(),
        forall|k: Seq<char>| #[trigger]
            entries_map(s).dom().contains(k) ==> entries_map(s)[k].session_id == k,
    decreases s.len(),
{
    if s.len() > 0 {
        lemma_entries_keys(s.drop_last());
    }
}

proof fn lemma_entries_value(s: Seq<Instance>, i: int)
    requires
        ids_distinct(s),
        0 <= i < s.len(),
    ensures
        entries_map(s).dom().contains(s[i].session_id@),
        entries_map(s)[s[i].session_id@] == s[i]@,
    decreases s.len(),
{
    let d = s.drop_last();
    if i < s.len() - 1 {
        lemma_entries_value(d, i);
        assert(d[i] == s[i]);
    }
}

proof fn lemma_entries_len(s: Seq<Instance>)
    requires
        ids_distinct(s),
    ensures
        entries_map(s).dom().finite(),
        entries_map(s).dom().len() == s.len(),
    decreases s.len(),
{
    if s.len() > 0 {
        let d = s.drop_last();
        lemma_entries_len(d);
        lemma_entries_dom(d, s.last().session_id@);
        if entries_map(d).dom().contains(s.last().session_id@) {
            let i = choose|i: int| 0 <= i < d.len() && #[trigger] d[i].session_id@ == s.last().session_id@;
            assert(s[i].session_id@ == s[s.len() - 1].session_id@);
        }
    }
}

proof fn lemma_entries_update(s: Seq<Instance>, i: int, x: Instance)
    requires
        ids_distinct(s),
        0 <= i < s.len(),
        x.session_id@ == s[i].session_id@,
    ensures
        ids_distinct(s.update(i, x)),
        entries_map(s.update(i, x)) == entries_map(s).insert(x.session_id@, x@),
    decreases s.len(),
{
    let u = s.update(i, x);
    assert(ids_distinct(u)) by {
        assert forall|a: int, b: int| 0 <= a < b < u.len() implies u[a].session_id@ != u[b].session_id@ by {
            assert(s[a].session_id@ != s[b].session_id@);
        }
    }
    let d = s.drop_last();
    if i == s.len() - 1 {
        assert(u.drop_last() =~= d);
        lemma_entries_dom(d, x.session_id@);
        if entries_map(d).dom().contains(x.session_id@) {
            let j = choose|j: int| 0 <= j < d.len() && #[trigger] d[j].session_id@ == x.session_id@;
            assert(s[j].session_id@ == s[i].session_id@);
        }
        assert(entries_map(u) =~= entries_map(s).insert(x.session_id@, x@));
    } else {
        lemma_entries_update(d, i, x);
        assert(u.drop_last() =~= d.update(i, x));
        assert(s.last().session_id@ != x.session_id@) by {
            assert(s[i].session_id@ != s[s.len() - 1].session_id@);
        }
        assert(entries_map(u) =~= entries_map(s).insert(x.session_id@, x@));
    }
}

proof fn lemma_entries_push(s: Seq<Instance>, x: Instance)
    requires
        ids_distinct(s),
        !entries_map(s).dom().contains(x.session_id@),
    ensures
        ids_distinct(s.push(x)),
        entries_map(s.push(x)) == entries_map(s).insert(x.session_id@, x@),
{
    let p = s.push(x);
    assert(p.drop_last() =~= s);
    assert forall|a: int, b: int| 0 <= a < b < p.len() implies p[a].session_id@ != p[b].session_id@ by {
        if b == s.len() {
            lemma_entries_dom(s, x.session_id@);
            assert(s[a].session_id@ != x.session_id@);
        } else {
            assert(s[a].session_id@ != s[b].session_id@);
        }
    }
}

proof fn lemma_entries_remove(s: Seq<Instance>, i: int)
    requires
        ids_distinct(s),
        0 <= i < s.len(),
    ensures
        ids_distinct(s.remove(i)),
        entries_map(s.remove(i)) == entries_map(s).remove(s[i].session_id@),
    decreases s.len(),
{
    let r = s.remove(i);
    assert(ids_distinct(r)) by {
        assert forall|a: int, b: int| 0 <= a < b < r.len() implies r[a].session_id@ != r[b].session_id@ by {
            let sa = if a < i { a } else { a + 1 };
            let sb = if b < i { b } else { b + 1 };
            assert(r[a] == s[sa]);
            assert(r[b] == s[sb]);
            assert(s[sa].session_id@ != s[sb].session_id@);
        }
    }
    let d = s.drop_last();
    let k = s[i].session_id@;
    if i == s.len() - 1 {
        assert(r =~= d);
        lemma_entries_dom(d, k);
        if entries_map(d).dom().contains(k) {
            let j = choose|j: int| 0 <= j < d.len() && #[trigger] d[j].session_id@ == k;
            assert(s[j].session_id@ == s[i].session_id@);
        }
        assert(entries_map(r) =~= entries_map(s).remove(k));
    } else {
        lemma_entries_remove(d, i);
        assert(r.drop_last() =~= d.remove(i));
        assert(r.last() == s.last());
        assert(s.last().session_id@ != k) by {
            assert(s[i].session_id@ != s[s.len() - 1].session_id@);
        }
        assert(entries_map(r) =~= entries_map(s).remove(k));
    }
}

/// The running instances, keyed by session id.
pub struct SessionRegistry {
    entries: Vec<Instance>,
}

impl View for SessionRegistry {
    type V = Map<Seq<char>, InstanceView>;

    open spec fn view(&self) -> Map<Seq<char>, InstanceView> {
        self.as_map()
    }
}

impl SessionRegistry {
    #[verifier::type_invariant]
    spec fn keys_unique(self) -> bool {
        ids_distinct(self.entries@)
    }

    /// The registry as a map from session id to instance.
    pub closed spec fn as_map(self) -> Map<Seq<char>, InstanceView> {
        entries_map(self.entries@)
    }

    /// Every registry describes a finite map whose keys are the session ids
    /// of its instances.
    pub proof fn lemma_well_formed(&self)
        ensures
            self@.dom().finite(),
            forall|k: Seq<char>| #[trigger]
                self@.dom().contains(k) ==> self@[k].session_id == k,
    {
        lemma_entries_keys(self.entries@);
    }

    /// An empty registry.
    pub fn new() -> (r: Self)
        ensures
            r@ == Map::<Seq<char>, InstanceView>::empty(),
    {
        let r = SessionRegistry { entries: Vec::new() };
        assert(r@ =~= Map::<Seq<char>, InstanceView>::empty());
        r
    }

    /// The number of running instances.
    pub fn len(&self) -> (n: usize)
        ensures
            n == self@.len(),
    {
        proof {
            use_type_invariant(self);
            lemma_entries_len(self.entries@);
        }
        self.entries.len()
    }

    fn take_entries(&mut self) -> (e: Vec<Instance>)
        ensures
            e@ == old(self).entries@,
            final(self).entries@ == Seq::<Instance>::empty(),
    {
        let mut e: Vec<Instance> = Vec::new();
        std::mem::swap(&mut e, &mut self.entries);
        e
    }

    fn position(&self, session_id: &str) -> (r: Option<usize>)
        ensures
            match r {
                Some(i) => i < self.entries@.len() && self.entries@[i as int].session_id@
                    == session_id@,
                None => forall|i: int|
                    0 <= i < self.entries@.len() ==> #[trigger] self.entries@[i].session_id@
                        != session_id@,
            },
    {
        let key = String::from_str(session_id);
        let mut i: usize = 0;
        while i < self.entries.len()
            invariant
                i <= self.entries@.len(),
                key@ == session_id@,
                forall|j: int| 0 <= j < i ==> #[trigger] self.entries@[j].session_id@ != session_id@,
            decreases self.entries@.len() - i,
        {
            if self.entries[i].session_id == key {
                return Some(i);
            }
            i = i + 1;
        }
        None
    }

    fn lookup(&self, session_id: &str) -> (r: Option<usize>)
        ensures
            r is Some <==> self@.dom().contains(session_id@),
            r matches Some(i) ==> i < self.entries@.len() && self.entries@[i as int]@
                == self@[session_id@] && self.entries@[i as int].session_id@ == session_id@,
    {
        proof {
            use_type_invariant(self);
            lemma_entries_dom(self.entries@, session_id@);
        }
        let r = self.position(session_id);
        proof {
            if let Some(i) = r {
                lemma_entries_value(self.entries@, i as int);
            }
        }
        r
    }

    /// Whether a session with this id is running.
    pub fn contains(&self, session_id: &str) -> (r: bool)
        ensures
            r == self@.dom().contains(session_id@),
    {
        self.lookup(session_id).is_some()
    }

    /// The instance of a session, if it is running.
    pub fn get(&self, session_id: &str) -> (r: Option<&Instance>)
        ensures
            r is Some <==> self@.dom().contains(session_id@),
            r matches Some(v) ==> v@ == self@[session_id@],
    {
        match self.lookup(session_id) {
            Some(i) => Some(&self.entries[i]),
            None => None,
        }
    }

    /// Stores an instance under its session id, replacing any instance
    /// stored under the same id.
    pub fn insert(&mut self, instance: Instance)
        ensures
            final(self)@ == old(self)@.insert(instance.session_id@, instance@),
    {
        proof {
            use_type_invariant(&*self);
        }
        let pos = self.lookup(instance.session_id.as_str());
        match pos {
            Some(i) => {
                proof {
                    lemma_entries_update(self.entries@, i as int, instance);
                }
                let mut e = self.take_entries();
                e.set(i, instance);
                self.entries = e;
            },
            None => {
                proof {
                    lemma_entries_push(self.entries@, instance);
                }
                let mut e = self.take_entries();
                e.push(instance);
                self.entries = e;
            },
        }
    }

    /// Takes the instance of a session out of the registry.
    pub fn remove(&mut self, session_id: &str) -> (r: Option<Instance>)
        ensures
            r is Some <==> old(self)@.dom().contains(session_id@),
            r matches Some(v) ==> v@ == old(self)@[session_id@],
            final(self)@ == old(self)@.remove(session_id@),
    {
        proof {
            use_type_invariant(&*self);
        }
        match self.lookup(session_id) {
            Some(i) => {
                proof {
                    lemma_entries_remove(self.entries@, i as int);
                }
                let mut e = self.take_entries();
                let v = e.remove(i);
                self.entries = e;
                Some(v)
            },
            None => {
                assert(old(self)@.remove(session_id@) =~= old(self)@);
                None
            },
        }
    }

    /// Checks that the caller presented the session's api key.
    ///
    /// On success returns the instance's `(port, container_id, api_key)` and
    /// moves its last activity to `now`; a refused caller changes nothing.
    pub fn authorize(&mut self, session_id: &str, caller_api_key: Option<&str>, now: u64) -> (r:
        Result<(u16, String, String), SessionError>)
        ensures
            r is Ok <==> auth_refusal(old(self)@, session_id@, key_view(caller_api_key)) is None,
            r matches Err(e) ==> auth_refusal(old(self)@, session_id@, key_view(caller_api_key))
                == Some(e) && final(self)@ == old(self)@,
            final(self)@ == after_step(
                old(self)@,
                SessionStep::Authorize(session_id@, key_view(caller_api_key), now),
            ),
            r matches Ok(g) ==> {
                let v = old(self)@[session_id@];
                &&& g.0 == v.port
                &&& g.1@ == v.container_id
                &&& g.2@ == v.api_key
                &&& final(self)@ == old(self)@.insert(session_id@, touched(v, now))
            },
    {
        proof {
            use_type_invariant(&*self);
        }
        let i = match self.lookup(session_id) {
            Some(i) => i,
            None => {
                return Err(SessionError::NotFound);
            },
        };
        let caller = match caller_api_key {
            Some(c) => c,
            None => {
                return Err(SessionError::MissingApiKey);
            },
        };
        let presented = String::from_str(caller);
        if !(presented == self.entries[i].api_key) {
            return Err(SessionError::InvalidApiKey);
        }
        let e = &self.entries[i];
        let grant = (e.port, e.container_id.clone(), e.api_key.clone());
        let refreshed = Instance {
            session_id: e.session_id.clone(),
            container_id: e.container_id.clone(),
            port: e.port,
            api_key: e.api_key.clone(),
            created_at: e.created_at,
            last_activity: now,
        };
        proof {
            lemma_entries_update(self.entries@, i as int, refreshed);
            assert(refreshed@ == touched(old(self)@[session_id@], now));
        }
        let mut entries = self.take_entries();
        entries.set(i, refreshed);
        self.entries = entries;
        Ok(grant)
    }

    /// One summary per running session: its id, port and whole seconds
    /// idle at `now`, in no promised order.
    pub fn list_sessions(&self, now: u64) -> (r: Vec<SessionSummary>)
        ensures
            r@.len() == self@.len(),
            forall|i: int|
                0 <= i < r@.len() ==> {
                    let k = #[trigger] r@[i].session_id@;
                    &&& self@.dom().contains(k)
                    &&& r@[i].port == self@[k].port
                    &&& r@[i].idle_secs == idle_secs(self@[k], now)
                },
            forall|k: Seq<char>| #[trigger]
                self@.dom().contains(k) ==> exists|i: int|
                    0 <= i < r@.len() && #[trigger] r@[i].session_id@ == k,
            forall|i: int, j: int|
                0 <= i < j < r@.len() ==> r@[i].session_id@ != r@[j].session_id@,
    {
        proof {
            use_type_invariant(self);
            lemma_entries_len(self.entries@);
        }
        let mut r: Vec<SessionSummary> = Vec::new();
        let mut i: usize = 0;
        while i < self.entries.len()
            invariant
                i <= self.entries@.len(),
                r@.len() == i,
                ids_distinct(self.entries@),
                forall|j: int|
                    0 <= j < i ==> {
                        &&& #[trigger] r@[j].session_id@ == self.entries@[j].session_id@
                        &&& r@[j].port == self.entries@[j].port
                        &&& r@[j].idle_secs == idle_secs(self.entries@[j]@, now)
                    },
            decreases self.entries@.len() - i,
        {
            let e = &self.entries[i];
            let idle = idle_nanos_of(e, now);
            r.push(SessionSummary { session_id: e.session_id.clone(), port: e.port, idle_secs: idle / 1_000_000_000 });
            i = i + 1;
        }
        proof {
            assert forall|j: int| 0 <= j < r@.len() implies {
                let k = #[trigger] r@[j].session_id@;
                &&& self@.dom().contains(k)
                &&& r@[j].port == self@[k].port
                &&& r@[j].idle_secs == idle_secs(self@[k], now)
            } by {
                lemma_entries_value(self.entries@, j);
            }
            assert forall|k: Seq<char>| #[trigger] self@.dom().contains(k) implies exists|j: int|
                0 <= j < r@.len() && #[trigger] r@[j].session_id@ == k by {
                lemma_entries_dom(self.entries@, k);
                let j = choose|j: int| 0 <= j < self.entries@.len() && #[trigger] self.entries@[j].session_id@ == k;
                assert(r@[j].session_id@ == k);
            }
        }
        r
    }

    /// The ids of the sessions idle for longer than `timeout_secs` at `now`,
    /// each once, in no promised order.
    pub fn expired_sessions(&self, now: u64, timeout_secs: u64) -> (r: Vec<String>)
        ensures
            forall|i: int|
                0 <= i < r@.len() ==> self@.dom().contains(#[trigger] r@[i]@) && is_expired(
                    self@[r@[i]@],
                    now,
                    timeout_secs,
                ),
            forall|k: Seq<char>|
                self@.dom().contains(k) && is_expired(self@[k], now, timeout_secs) ==> exists|i: int|
                    0 <= i < r@.len() && #[trigger] r@[i]@ == k,
            forall|i: int, j: int| 0 <= i < j < r@.len() ==> r@[i]@ != r@[j]@,
    {
        proof {
            use_type_invariant(self);
        }
        let mut r: Vec<String> = Vec::new();
        let ghost mut from: Seq<int> = Seq::empty();
        let mut i: usize = 0;
        while i < self.entries.len()
            invariant
                i <= self.entries@.len(),
                ids_distinct(self.entries@),
                from.len() == r@.len(),
                forall|j: int|
                    0 <= j < from.len() ==> 0 <= #[trigger] from[j] < i && r@[j]@
                        == self.entries@[from[j]].session_id@ && is_expired(
                        self.entries@[from[j]]@,
                        now,
                        timeout_secs,
                    ),
                forall|a: int, b: int| 0 <= a < b < from.len() ==> from[a] < from[b],
                forall|j: int|
                    0 <= j < i && is_expired(#[trigger] self.entries@[j]@, now, timeout_secs)
                        ==> exists|t: int| 0 <= t < from.len() && from[t] == j,
            decreases self.entries@.len() - i,
        {
            let ghost from_before = from;
            let e = &self.entries[i];
            let hit = expired_at(e, now, timeout_secs);
            if hit {
                r.push(e.session_id.clone());
                proof {
                    from = from.push(i as int);
                    assert(from[from.len() - 1] == i);
                }
            }
            proof {
                assert forall|j: int|
                    0 <= j < i + 1 && is_expired(#[trigger] self.entries@[j]@, now, timeout_secs)
                        implies exists|t: int| 0 <= t < from.len() && from[t] == j by {
                    if j == i {
                        assert(hit);
                        assert(from[from.len() - 1] == j);
                    } else {
                        let t = choose|t: int| 0 <= t < from_before.len() && from_before[t] == j;
                        assert(from[t] == j);
                    }
                }
            }
            i = i + 1;
        }
        proof {
            assert forall|j: int| 0 <= j < r@.len() implies self@.dom().contains(#[trigger] r@[j]@)
                && is_expired(self@[r@[j]@], now, timeout_secs) by {
                assert(0 <= from[j] < self.entries@.len());
                lemma_entries_value(self.entries@, from[j]);
            }
            assert forall|k: Seq<char>|
                self@.dom().contains(k) && is_expired(self@[k], now, timeout_secs) implies exists|j: int|
                0 <= j < r@.len() && #[trigger] r@[j]@ == k by {
                lemma_entries_dom(self.entries@, k);
                let n = choose|n: int| 0 <= n < self.entries@.len() && #[trigger] self.entries@[n].session_id@ == k;
                lemma_entries_value(self.entries@, n);
                assert(is_expired(self.entries@[n]@, now, timeout_secs));
                let t = choose|t: int| 0 <= t < from.len() && from[t] == n;
                assert(r@[t]@ == k);
            }
            assert forall|a: int, b: int| 0 <= a < b < r@.len() implies r@[a]@ != r@[b]@ by {
                assert(from[a] < from[b]);
                assert(0 <= from[a]);
                assert(from[b] < self.entries@.len());
            }
        }
        r
    }

    /// Removes every session idle for longer than `timeout_secs` at `now`
    /// and returns their ids, each once.
    pub fn reap_idle(&mut self, now: u64, timeout_secs: u64) -> (r: Vec<String>)
        ensures
            final(self)@ == live_sessions(old(self)@, now, timeout_secs),
            forall|i: int|
                0 <= i < r@.len() ==> old(self)@.dom().contains(#[trigger] r@[i]@) && is_expired(
                    old(self)@[r@[i]@],
                    now,
                    timeout_secs,
                ),
            forall|k: Seq<char>|
                old(self)@.dom().contains(k) && is_expired(old(self)@[k], now, timeout_secs) ==> exists|i: int|
                    0 <= i < r@.len() && #[trigger] r@[i]@ == k,
            forall|i: int, j: int| 0 <= i < j < r@.len() ==> r@[i]@ != r@[j]@,
    {
        let expired = self.expired_sessions(now, timeout_secs);
        let ghost m = self@;
        let mut j: usize = 0;
        while j < expired.len()
            invariant
                j <= expired@.len(),
                m == old(self)@,
                forall|i: int|
                    0 <= i < expired@.len() ==> m.dom().contains(#[trigger] expired@[i]@) && is_expired(
                        m[expired@[i]@],
                        now,
                        timeout_secs,
                    ),
                forall|k: Seq<char>|
                    m.dom().contains(k) && is_expired(m[k], now, timeout_secs) ==> exists|i: int|
                        0 <= i < expired@.len() && #[trigger] expired@[i]@ == k,
                forall|k: Seq<char>|
                    #[trigger] self@.dom().contains(k) <==> m.dom().contains(k) && !(exists|i: int|
                        0 <= i < j && #[trigger] expired@[i]@ == k),
                forall|k: Seq<char>| #[trigger] self@.dom().contains(k) ==> self@[k] == m[k],
            decreases expired@.len() - j,
        {
            let ghost before = self@;
            self.remove(expired[j].as_str());
            proof {
                assert forall|k: Seq<char>|
                    #[trigger] self@.dom().contains(k) <==> m.dom().contains(k) && !(exists|i: int|
                        0 <= i < j + 1 && #[trigger] expired@[i]@ == k) by {
                    if exists|i: int| 0 <= i < j + 1 && #[trigger] expired@[i]@ == k {
                        let i = choose|i: int| 0 <= i < j + 1 && #[trigger] expired@[i]@ == k;
                        if i < j {
                            assert(!before.dom().contains(k));
                        }
                    } else {
                        assert(expired@[j as int]@ != k);
                    }
                }
            }
            j = j + 1;
        }
        proof {
            assert forall|k: Seq<char>| #[trigger] self@.dom().contains(k) <==> live_sessions(m, now, timeout_secs).dom().contains(k) by {
                if m.dom().contains(k) && is_expired(m[k], now, timeout_secs) {
                    let i = choose|i: int| 0 <= i < expired@.len() && #[trigger] expired@[i]@ == k;
                    assert(!self@.dom().contains(k));
                }
                if self@.dom().contains(k) {
                    if is_expired(m[k], now, timeout_secs) {
                        let i = choose|i: int| 0 <= i < expired@.len() && #[trigger] expired@[i]@ == k;
                        assert(false);
                    }
                }
                if live_sessions(m, now, timeout_secs).dom().contains(k) {
                    if exists|i: int| 0 <= i < expired@.len() && #[trigger] expired@[i]@ == k {
                        let i = choose|i: int| 0 <= i < expired@.len() && #[trigger] expired@[i]@ == k;
                        assert(is_expired(m[k], now, timeout_secs));
                    }
                }
            }
            assert(self@ =~= live_sessions(m, now, timeout_secs));
        }
        expired
    }
}


/// One operation's effect on the registry, as the library's operations
/// perform it: registering a spawned instance, authorizing a caller (which
/// every session-scoped request does), destroying a session for a caller,
/// and reaping idle sessions.
pub enum SessionStep {
    /// A session's instance is recorded under its id.
    Register(InstanceView),
    /// A caller presents a key (or none) for a session at a clock reading.
    Authorize(Seq<char>, Option<Seq<char>>, u64),
    /// A caller asks to destroy a session at a clock reading.
    Destroy(Seq<char>, Option<Seq<char>>, u64),
    /// Sessions idle longer than a timeout (seconds) are reaped at a clock
    /// reading.
    Reap(u64, u64),
}

/// The registry after one operation.
pub open spec fn after_step(
    m: Map<Seq<char>, InstanceView>,
    step: SessionStep,
) -> Map<Seq<char>, InstanceView> {
    match step {
        SessionStep::Register(v) => m.insert(v.session_id, v),
        SessionStep::Authorize(id, key, now) => if auth_refusal(m, id, key) is None {
            m.insert(id, touched(m[id], now))
        } else {
            m
        },
        SessionStep::Destroy(id, key, now) => if auth_refusal(m, id, key) is None {
            m.remove(id)
        } else {
            m
        },
        SessionStep::Reap(now, timeout_secs) => live_sessions(m, now, timeout_secs),
    }
}

/// The registry after a sequence of operations, in order.
pub open spec fn after_steps(
    m: Map<Seq<char>, InstanceView>,
    steps: Seq<SessionStep>,
) -> Map<Seq<char>, InstanceView>
    decreases steps.len(),
{
    if steps.len() == 0 {
        m
    } else {
        after_step(after_steps(m, steps.drop_last()), steps.last())
    }
}

/// A map whose keys are among another's, finite one has no more entries.
pub proof fn lemma_len_shrinks(a: Map<Seq<char>, InstanceView>, b: Map<Seq<char>, InstanceView>)
    requires
        b.dom().finite(),
        a.dom().subset_of(b.dom()),
    ensures
        a.dom().finite(),
        a.len() <= b.len(),
{
    vstd::set_lib::lemma_len_subset(a.dom(), b.dom());
}

/// Whether a new session is refused for want of room: a positive limit
/// that the sessions counted already reach.
pub open spec fn at_capacity(max_instances: usize, running: int) -> bool {
    max_instances > 0 && running >= max_instances
}

/// Whether two states hold the same settings (everything but the sessions
/// and the reserved slots).
pub open spec fn same_settings(a: AppState, b: AppState) -> bool {
    &&& a.fullnode_url == b.fullnode_url
    &&& a.tx_mining_url == b.tx_mining_url
    &&& a.network == b.network
    &&& a.headless_image == b.headless_image
    &&& a.docker_network == b.docker_network
    &&& a.max_instances == b.max_instances
    &&& a.idle_timeout_secs == b.idle_timeout_secs
    &&& a.proxy_host == b.proxy_host
}

/// The instance limit holds: with a positive limit, the running sessions
/// plus the slots reserved for sessions still being spawned do not exceed
/// it.
pub open spec fn within_limit(s: AppState) -> bool {
    s.max_instances == 0 || s.instances@.len() + s.pending <= s.max_instances
}

/// The orchestrator's settings and its running sessions.
pub struct AppState {
    /// Running instances keyed by session id
    pub instances: SessionRegistry,
    /// Slots reserved by admitted sessions whose containers are still being
    /// spawned (counted only under a positive limit)
    pub pending: usize,
    /// Fullnode URL passed to containers
    pub fullnode_url: String,
    /// Tx-mining URL passed to containers (optional)
    pub tx_mining_url: Option<String>,
    /// Network name
    pub network: String,
    /// Docker image for wallet-headless
    pub headless_image: String,
    /// Docker network to attach to
    pub docker_network: Option<String>,
    /// Max allowed instances (0 = unlimited)
    pub max_instances: usize,
    /// Idle timeout in seconds
    pub idle_timeout_secs: u64,
    /// Host used by the proxy to reach spawned containers
    pub proxy_host: String,
}

impl AppState {
    /// Settings as given, with no session running and no slot reserved.
    pub fn new(
        fullnode_url: String,
        tx_mining_url: Option<String>,
        network: String,
        headless_image: String,
        docker_network: Option<String>,
        max_instances: usize,
        idle_timeout_secs: u64,
        proxy_host: String,
    ) -> (s: Self)
        ensures
            s.instances@ == Map::<Seq<char>, InstanceView>::empty(),
            s.pending == 0,
            s.fullnode_url == fullnode_url,
            s.tx_mining_url == tx_mining_url,
            s.network == network,
            s.headless_image == headless_image,
            s.docker_network == docker_network,
            s.max_instances == max_instances,
            s.idle_timeout_secs == idle_timeout_secs,
            s.proxy_host == proxy_host,
            within_limit(s),
    {
        AppState {
            instances: SessionRegistry::new(),
            pending: 0,
            fullnode_url,
            tx_mining_url,
            network,
            headless_image,
            docker_network,
            max_instances,
            idle_timeout_secs,
            proxy_host,
        }
    }

    /// Refuses a new session when the running sessions and the reserved
    /// slots reach the instance limit.
    pub fn admit_session(&self) -> (r: Result<(), SessionError>)
        ensures
            r is Err <==> at_capacity(self.max_instances, self.instances@.len() + self.pending),
            r matches Err(e) ==> e == SessionError::CapacityReached,
    {
        if self.max_instances > 0 && (self.pending >= self.max_instances || self.instances.len()
            >= self.max_instances - self.pending) {
            Err(SessionError::CapacityReached)
        } else {
            Ok(())
        }
    }

    /// Removes the sessions idle for longer than the configured timeout at
    /// `now` and returns their ids (see `SessionRegistry::reap_idle`).
    pub fn reap_idle(&mut self, now: u64) -> (r: Vec<String>)
        ensures
            final(self).instances@ == live_sessions(old(self).instances@, now, old(self).idle_timeout_secs),
            final(self).instances@ == after_step(
                old(self).instances@,
                SessionStep::Reap(now, old(self).idle_timeout_secs),
            ),
            forall|i: int|
                0 <= i < r@.len() ==> old(self).instances@.dom().contains(#[trigger] r@[i]@) && is_expired(
                    old(self).instances@[r@[i]@],
                    now,
                    old(self).idle_timeout_secs,
                ),
            forall|k: Seq<char>|
                old(self).instances@.dom().contains(k) && is_expired(old(self).instances@[k], now, old(self).idle_timeout_secs) ==> exists|i: int|
                    0 <= i < r@.len() && #[trigger] r@[i]@ == k,
            forall|i: int, j: int| 0 <= i < j < r@.len() ==> r@[i]@ != r@[j]@,
            same_settings(*final(self), *old(self)),
            final(self).pending == old(self).pending,
            within_limit(*old(self)) ==> within_limit(*final(self)),
    {
        proof {
            self.instances.lemma_well_formed();
        }
        let t = self.idle_timeout_secs;
        let r = self.instances.reap_idle(now, t);
        proof {
            lemma_len_shrinks(self.instances@, old(self).instances@);
        }
        r
    }
}

} // verus!
