//! Properties that hold across the library's operations.
use vstd::prelude::*;

use crate::docker::{container_name_text, is_container_spec_for, texts};
use crate::routes::{forwarded_text, is_forwarded_name, proxied_headers_text};
use crate::state::{
    after_step, after_steps, at_capacity, auth_refusal, idle_secs, is_expired, live_sessions,
    touched, within_limit, AppState, InstanceView, SessionError, SessionStep,
};
use crate::proxy::relayed_status;
use crate::text::{ascii_lower, ascii_lower_text, decimal_text, digit_char, query_text};

verus! {

/// Only the holder of a session's api key gets through: any other key, or
/// none, is refused.
pub proof fn lemma_only_key_holder_admitted(
    m: Map<Seq<char>, InstanceView>,
    id: Seq<char>,
    caller: Option<Seq<char>>,
)
    ensures
        auth_refusal(m, id, caller) is None <==> m.dom().contains(id) && caller == Some(
            m[id].api_key,
        ),
{
}

/// A key that got through keeps getting through: authorizing refreshes
/// the session's activity and leaves its key as it was.
pub proof fn lemma_authorization_repeatable(
    m: Map<Seq<char>, InstanceView>,
    id: Seq<char>,
    caller: Option<Seq<char>>,
    now: u64,
)
    requires
        auth_refusal(m, id, caller) is None,
    ensures
        auth_refusal(m.insert(id, touched(m[id], now)), id, caller) is None,
{
}

/// Once a session is destroyed, it is gone: every later request about it
/// is answered "Session not found", whatever key it carries.
pub proof fn lemma_destroyed_session_not_found(
    m: Map<Seq<char>, InstanceView>,
    id: Seq<char>,
    caller: Option<Seq<char>>,
)
    ensures
        !m.remove(id).dom().contains(id),
        auth_refusal(m.remove(id), id, caller) == Some(SessionError::NotFound),
{
}

/// Destroying or authorizing one session leaves every other session as it
/// was.
pub proof fn lemma_other_sessions_untouched(
    m: Map<Seq<char>, InstanceView>,
    id: Seq<char>,
    other: Seq<char>,
    now: u64,
)
    requires
        m.dom().contains(id),
        m.dom().contains(other),
        other != id,
    ensures
        m.remove(id).dom().contains(other) && m.remove(id)[other] == m[other],
        m.insert(id, touched(m[id], now))[other] == m[other],
{
}

/// A limit of zero means no limit.
pub proof fn lemma_zero_limit_unlimited(running: int)
    ensures
        !at_capacity(0, running),
{
}

/// With a positive limit, a state that keeps the limit runs at most that
/// many sessions. Every operation on `AppState` keeps the limit (each says
/// so in its `ensures`, and `AppState::new` starts within it), so this
/// holds in every state the library reaches, however admissions and
/// registrations of concurrent creations interleave.
pub proof fn lemma_limit_bounds_sessions(s: AppState)
    requires
        within_limit(s),
        s.max_instances > 0,
    ensures
        s.instances@.len() <= s.max_instances,
{
}

/// After reaping, no remaining session is expired, every session that was
/// not expired remains unchanged, and nothing new appears.
pub proof fn lemma_reaping_keeps_exactly_live(
    m: Map<Seq<char>, InstanceView>,
    now: u64,
    timeout_secs: u64,
    k: Seq<char>,
)
    ensures
        live_sessions(m, now, timeout_secs).dom().contains(k) ==> m.dom().contains(k)
            && !is_expired(live_sessions(m, now, timeout_secs)[k], now, timeout_secs),
        m.dom().contains(k) && !is_expired(m[k], now, timeout_secs) ==> live_sessions(
            m,
            now,
            timeout_secs,
        ).dom().contains(k) && live_sessions(m, now, timeout_secs)[k] == m[k],
{
}

/// A session that was just active is not reaped at that moment.
pub proof fn lemma_fresh_activity_not_expired(v: InstanceView, now: u64, timeout_secs: u64)
    ensures
        !is_expired(touched(v, now), now, timeout_secs),
{
}

/// Sessions with different ids get different containers.
pub proof fn lemma_container_names_distinct(a: Seq<char>, b: Seq<char>)
    requires
        a != b,
    ensures
        container_name_text(a) != container_name_text(b),
{
    let p = "headless-"@;
    if container_name_text(a) == container_name_text(b) {
        assert(a =~= container_name_text(a).subrange(p.len() as int, container_name_text(a).len() as int));
        assert(b =~= container_name_text(b).subrange(p.len() as int, container_name_text(b).len() as int));
    }
}

proof fn lemma_forwarded_names(h: Seq<(String, String)>, i: int)
    requires
        0 <= i < forwarded_text(h).len(),
    ensures
        is_forwarded_name(forwarded_text(h)[i].0),
    decreases h.len(),
{
    if h.len() > 0 {
        let rest = forwarded_text(h.drop_last());
        if i < rest.len() {
            lemma_forwarded_names(h.drop_last(), i);
        }
    }
}

/// The api key that reaches an instance is always the session's stored
/// one: a proxied call carries exactly one `x-api-key` header (in any
/// ASCII case), the first, with the stored value; a caller's own
/// `x-api-key` header is never passed on.
pub proof fn lemma_only_stored_key_forwarded(
    api_key: Seq<char>,
    headers: Seq<(String, String)>,
    with_body: bool,
    i: int,
)
    requires
        0 < i < proxied_headers_text(api_key, headers, with_body).len(),
    ensures
        proxied_headers_text(api_key, headers, with_body)[0] == ("x-api-key"@, api_key),
        ascii_lower_text(proxied_headers_text(api_key, headers, with_body)[i].0) != "x-api-key"@,
{
    reveal_strlit("x-api-key");
    reveal_strlit("x-wallet-id");
    reveal_strlit("content-type");
    reveal_strlit("accept");
    assert("x-api-key"@.len() == 9);
    assert("x-wallet-id"@.len() == 11);
    assert("content-type"@.len() == 12);
    assert("accept"@.len() == 6);
    let s = proxied_headers_text(api_key, headers, with_body);
    let f = forwarded_text(headers);
    if i <= f.len() {
        assert(s[i] == f[i - 1]);
        lemma_forwarded_names(headers, i - 1);
        let n = ascii_lower_text(s[i].0);
        assert(n == "x-wallet-id"@ || n == "content-type"@ || n == "accept"@);
        assert(n.len() != 9);
    } else {
        assert(s[i].0 == "content-type"@);
        assert(ascii_lower_text(s[i].0).len() == 12);
    }
}

/// Whether an operation registers an instance under `sid`.
pub open spec fn registers(step: SessionStep, sid: Seq<char>) -> bool {
    match step {
        SessionStep::Register(v) => v.session_id == sid,
        _ => false,
    }
}

/// Whether an operation, applied to `m`, takes session `sid` away: a
/// destroy by the key holder, or a reap that finds it expired.
pub open spec fn removes(m: Map<Seq<char>, InstanceView>, step: SessionStep, sid: Seq<char>) -> bool {
    match step {
        SessionStep::Destroy(id, key, _) => id == sid && auth_refusal(m, id, key) is None,
        SessionStep::Reap(now, timeout_secs) => m.dom().contains(sid) && is_expired(
            m[sid],
            now,
            timeout_secs,
        ),
        _ => false,
    }
}

proof fn lemma_step_keeps(m: Map<Seq<char>, InstanceView>, step: SessionStep, sid: Seq<char>)
    requires
        m.dom().contains(sid),
        !registers(step, sid),
        !removes(m, step, sid),
    ensures
        after_step(m, step).dom().contains(sid),
        after_step(m, step)[sid].api_key == m[sid].api_key,
        after_step(m, step)[sid].port == m[sid].port,
        after_step(m, step)[sid].container_id == m[sid].container_id,
        after_step(m, step)[sid].created_at == m[sid].created_at,
{
}

/// The key handed out with a session keeps opening it, and the session
/// keeps its port, container and creation time, through any later
/// operations, until the session is destroyed by its key holder or reaped
/// (or another instance is registered under its id).
pub proof fn lemma_key_keeps_opening(
    m: Map<Seq<char>, InstanceView>,
    steps: Seq<SessionStep>,
    sid: Seq<char>,
)
    requires
        m.dom().contains(sid),
        forall|i: int| 0 <= i < steps.len() ==> !registers(#[trigger] steps[i], sid),
        forall|i: int|
            0 <= i < steps.len() ==> !removes(after_steps(m, steps.take(i)), #[trigger] steps[i], sid),
    ensures
        after_steps(m, steps).dom().contains(sid),
        after_steps(m, steps)[sid].api_key == m[sid].api_key,
        after_steps(m, steps)[sid].port == m[sid].port,
        after_steps(m, steps)[sid].container_id == m[sid].container_id,
        after_steps(m, steps)[sid].created_at == m[sid].created_at,
        auth_refusal(after_steps(m, steps), sid, Some(m[sid].api_key)) is None,
    decreases steps.len(),
{
    if steps.len() > 0 {
        let d = steps.drop_last();
        assert forall|i: int| 0 <= i < d.len() implies !registers(#[trigger] d[i], sid) by {
            assert(d[i] == steps[i]);
        }
        assert forall|i: int| 0 <= i < d.len() implies !removes(
            after_steps(m, d.take(i)),
            #[trigger] d[i],
            sid,
        ) by {
            assert(d[i] == steps[i]);
            assert(d.take(i) =~= steps.take(i));
        }
        lemma_key_keeps_opening(m, d, sid);
        let n = steps.len() - 1;
        assert(steps.take(n) =~= d);
        assert(!removes(after_steps(m, steps.take(n)), steps[n], sid));
        assert(!registers(steps[n], sid));
        lemma_step_keeps(after_steps(m, d), steps.last(), sid);
    }
}

/// A session taken away (destroyed by its key holder, or reaped) answers
/// "Session not found" to every later request, whatever key it carries,
/// through any later operations that register nothing under its id.
pub proof fn lemma_removed_session_stays_gone(
    m: Map<Seq<char>, InstanceView>,
    step: SessionStep,
    later: Seq<SessionStep>,
    sid: Seq<char>,
    key: Option<Seq<char>>,
)
    requires
        removes(m, step, sid),
        forall|i: int| 0 <= i < later.len() ==> !registers(#[trigger] later[i], sid),
    ensures
        !after_steps(after_step(m, step), later).dom().contains(sid),
        auth_refusal(after_steps(after_step(m, step), later), sid, key) == Some(
            SessionError::NotFound,
        ),
{
    lemma_absent_stays_absent(after_step(m, step), later, sid);
}

proof fn lemma_absent_stays_absent(
    m: Map<Seq<char>, InstanceView>,
    steps: Seq<SessionStep>,
    sid: Seq<char>,
)
    requires
        !m.dom().contains(sid),
        forall|i: int| 0 <= i < steps.len() ==> !registers(#[trigger] steps[i], sid),
    ensures
        !after_steps(m, steps).dom().contains(sid),
    decreases steps.len(),
{
    if steps.len() > 0 {
        let d = steps.drop_last();
        assert forall|i: int| 0 <= i < d.len() implies !registers(#[trigger] d[i], sid) by {
            assert(d[i] == steps[i]);
        }
        lemma_absent_stays_absent(m, d, sid);
        assert(!registers(steps[steps.len() - 1], sid));
    }
}

/// The clock reading at which an operation happens.
pub open spec fn step_time(step: SessionStep) -> u64 {
    match step {
        SessionStep::Register(v) => v.created_at,
        SessionStep::Authorize(_, _, now) => now,
        SessionStep::Destroy(_, _, now) => now,
        SessionStep::Reap(now, _) => now,
    }
}

/// The shape of an instance as `spawned_instance` makes it: its container
/// named after its session, created and last active at the same moment.
pub open spec fn spawned_shape(v: InstanceView) -> bool {
    v.container_id == container_name_text(v.session_id) && v.created_at == v.last_activity
}

/// Registrations record only instances of the spawned shape.
pub open spec fn registers_spawned(step: SessionStep) -> bool {
    match step {
        SessionStep::Register(v) => spawned_shape(v),
        _ => true,
    }
}

/// Every entry is stored under its session id, runs in the container
/// named after it, was created no later than its last activity, and was
/// last active no later than `clock`.
pub open spec fn registry_well_formed(m: Map<Seq<char>, InstanceView>, clock: u64) -> bool {
    forall|k: Seq<char>| #[trigger]
        m.dom().contains(k) ==> {
            &&& m[k].session_id == k
            &&& m[k].container_id == container_name_text(k)
            &&& m[k].created_at <= m[k].last_activity
            &&& m[k].last_activity <= clock
        }
}

proof fn lemma_step_well_formed(m: Map<Seq<char>, InstanceView>, clock: u64, step: SessionStep)
    requires
        registry_well_formed(m, clock),
        clock <= step_time(step),
        registers_spawned(step),
    ensures
        registry_well_formed(after_step(m, step), step_time(step)),
{
}

/// Entry well-formedness is kept by every sequence of operations that
/// happen in clock order and register only spawned instances; the empty
/// registry of a new state has it for any clock reading.
pub proof fn lemma_entries_stay_well_formed(
    m: Map<Seq<char>, InstanceView>,
    clock: u64,
    steps: Seq<SessionStep>,
)
    requires
        registry_well_formed(m, clock),
        forall|i: int| 0 <= i < steps.len() ==> clock <= step_time(#[trigger] steps[i]),
        forall|i: int, j: int|
            0 <= i < j < steps.len() ==> step_time(#[trigger] steps[i]) <= step_time(
                #[trigger] steps[j],
            ),
        forall|i: int| 0 <= i < steps.len() ==> registers_spawned(#[trigger] steps[i]),
    ensures
        registry_well_formed(
            after_steps(m, steps),
            if steps.len() == 0 {
                clock
            } else {
                step_time(steps.last())
            },
        ),
    decreases steps.len(),
{
    if steps.len() > 0 {
        let d = steps.drop_last();
        let n = steps.len() - 1;
        assert forall|i: int| 0 <= i < d.len() implies clock <= step_time(#[trigger] d[i]) by {
            assert(d[i] == steps[i]);
        }
        assert forall|i: int, j: int| 0 <= i < j < d.len() implies step_time(#[trigger] d[i])
            <= step_time(#[trigger] d[j]) by {
            assert(d[i] == steps[i]);
            assert(d[j] == steps[j]);
        }
        assert forall|i: int| 0 <= i < d.len() implies registers_spawned(#[trigger] d[i]) by {
            assert(d[i] == steps[i]);
        }
        lemma_entries_stay_well_formed(m, clock, d);
        let c = if d.len() == 0 {
            clock
        } else {
            step_time(d.last())
        };
        assert(c <= step_time(steps[n])) by {
            if d.len() > 0 {
                assert(d.last() == steps[n - 1]);
            }
        }
        assert(registers_spawned(steps[n]));
        lemma_step_well_formed(after_steps(m, d), c, steps.last());
    }
}

/// A new state's empty registry is well formed at any clock reading.
pub proof fn lemma_empty_registry_well_formed(clock: u64)
    ensures
        registry_well_formed(Map::<Seq<char>, InstanceView>::empty(), clock),
{
}

/// A query string joins its pairs `k=v` with `&`: the empty list gives
/// nothing, one pair gives `k=v`, and each further pair adds `&k=v`.
pub proof fn lemma_query_pairs_joined(p: Seq<(String, String)>)
    ensures
        p.len() == 0 ==> query_text(p) == Seq::<char>::empty(),
        p.len() >= 1 ==> query_text(p.take(1)) == p[0].0@ + "="@ + p[0].1@,
        forall|n: int|
            2 <= n <= p.len() ==> #[trigger] query_text(p.take(n)) == query_text(p.take(n - 1))
                + "&"@ + p[n - 1].0@ + "="@ + p[n - 1].1@,
        query_text(p.take(p.len() as int)) == query_text(p),
{
    if p.len() >= 1 {
        let q = p.take(1);
        assert(q.len() == 1);
        assert(q[0] == p[0]);
    }
    assert forall|n: int| 2 <= n <= p.len() implies #[trigger] query_text(p.take(n)) == query_text(
        p.take(n - 1),
    ) + "&"@ + p[n - 1].0@ + "="@ + p[n - 1].1@ by {
        let q = p.take(n);
        assert(q.drop_last() =~= p.take(n - 1));
        assert(q.last() == p[n - 1]);
        assert(query_text(q) =~= query_text(p.take(n - 1)) + "&"@ + p[n - 1].0@ + "="@ + p[n
            - 1].1@);
    }
    assert(p.take(p.len() as int) =~= p);
}

/// A positive limit refuses exactly when the sessions counted reach it; a
/// zero limit never refuses.
pub proof fn lemma_limit_refuses_exactly_at_limit(max_instances: usize, running: int)
    ensures
        max_instances > 0 ==> (at_capacity(max_instances, running) <==> running
            >= max_instances),
        max_instances > 0 && running < max_instances ==> !at_capacity(max_instances, running),
        max_instances == 0 ==> !at_capacity(max_instances, running),
{
}

/// Authorizing a session changes nothing in its record but the last
/// activity, which becomes the clock reading of the request.
pub proof fn lemma_authorization_touches_only_activity(v: InstanceView, now: u64)
    ensures
        touched(v, now).session_id == v.session_id,
        touched(v, now).container_id == v.container_id,
        touched(v, now).port == v.port,
        touched(v, now).api_key == v.api_key,
        touched(v, now).created_at == v.created_at,
        touched(v, now).last_activity == now,
{
}

/// Idleness is counted from the last activity, not from creation: the
/// listed seconds are the whole seconds since the last activity (zero if
/// the clock reading is not later), a session listed right after a request
/// shows zero, and a session expires once that time exceeds the timeout.
pub proof fn lemma_idle_counted_from_last_activity(v: InstanceView, now: u64, timeout_secs: u64)
    ensures
        now >= v.last_activity ==> idle_secs(v, now) == (now - v.last_activity) / 1_000_000_000,
        now < v.last_activity ==> idle_secs(v, now) == 0,
        idle_secs(touched(v, now), now) == 0,
        is_expired(v, now, timeout_secs) <==> now >= v.last_activity && now - v.last_activity
            > timeout_secs * 1_000_000_000,
{
}

proof fn lemma_env_entry_not_tx(prefix: Seq<char>, rest: Seq<char>, w: Seq<char>)
    requires
        prefix.len() > 9,
        prefix[9] != 'T',
    ensures
        prefix + rest != "HEADLESS_TX_MINING_URL="@ + w,
{
    reveal_strlit("HEADLESS_TX_MINING_URL=");
    assert(("HEADLESS_TX_MINING_URL="@ + w)[9] == 'T');
    assert((prefix + rest)[9] == prefix[9]);
}

/// A container gets the tx-mining service exactly when one is configured,
/// whatever the Docker network setting: its environment holds
/// `HEADLESS_TX_MINING_URL=u` if and only if the tx-mining URL is `u`, and
/// has one entry more with a tx-mining URL than without.
pub proof fn lemma_env_carries_tx_mining(
    c: crate::docker::ContainerSpec,
    state: AppState,
    session_id: Seq<char>,
    host_port: u16,
    api_key: Seq<char>,
    w: Seq<char>,
)
    requires
        is_container_spec_for(c, state, session_id, host_port, api_key),
    ensures
        texts(c.env@).contains("HEADLESS_TX_MINING_URL="@ + w) <==> (state.tx_mining_url is Some
            && state.tx_mining_url->0@ == w),
        state.tx_mining_url is Some ==> texts(c.env@).len() == 7,
        state.tx_mining_url is None ==> texts(c.env@).len() == 6,
{
    reveal_strlit("HEADLESS_HTTP_BIND=0.0.0.0");
    reveal_strlit("HEADLESS_HTTP_PORT=8000");
    reveal_strlit("HEADLESS_NETWORK=");
    reveal_strlit("HEADLESS_SERVER=");
    reveal_strlit("HEADLESS_API_KEY=");
    reveal_strlit(
        "HEADLESS_SEED_DEFAULT=abandon abandon abandon abandon abandon abandon abandon abandon abandon abandon abandon about",
    );
    reveal_strlit("HEADLESS_TX_MINING_URL=");
    let e = texts(c.env@);
    let target = "HEADLESS_TX_MINING_URL="@ + w;
    let empty = Seq::<char>::empty();
    lemma_env_entry_not_tx("HEADLESS_HTTP_BIND=0.0.0.0"@, empty, w);
    assert("HEADLESS_HTTP_BIND=0.0.0.0"@ + empty =~= "HEADLESS_HTTP_BIND=0.0.0.0"@);
    lemma_env_entry_not_tx("HEADLESS_HTTP_PORT=8000"@, empty, w);
    assert("HEADLESS_HTTP_PORT=8000"@ + empty =~= "HEADLESS_HTTP_PORT=8000"@);
    lemma_env_entry_not_tx("HEADLESS_NETWORK="@, state.network@, w);
    lemma_env_entry_not_tx("HEADLESS_SERVER="@, state.fullnode_url@, w);
    lemma_env_entry_not_tx("HEADLESS_API_KEY="@, api_key, w);
    lemma_env_entry_not_tx(
        "HEADLESS_SEED_DEFAULT=abandon abandon abandon abandon abandon abandon abandon abandon abandon abandon abandon about"@,
        empty,
        w,
    );
    assert("HEADLESS_SEED_DEFAULT=abandon abandon abandon abandon abandon abandon abandon abandon abandon abandon abandon about"@
        + empty
        =~= "HEADLESS_SEED_DEFAULT=abandon abandon abandon abandon abandon abandon abandon abandon abandon abandon abandon about"@);
    if e.contains(target) {
        let i = choose|i: int| 0 <= i < e.len() && e[i] == target;
        assert(i >= 6);
        match state.tx_mining_url {
            Some(u) => {
                assert(e[6] == "HEADLESS_TX_MINING_URL="@ + u@);
                assert(u@ =~= ("HEADLESS_TX_MINING_URL="@ + u@).subrange(23, e[6].len() as int));
                assert(w =~= target.subrange(23, target.len() as int));
            },
            None => {},
        }
    }
    if state.tx_mining_url is Some && state.tx_mining_url->0@ == w {
        assert(e[6] == target);
    }
}

/// The value of a text of decimal digits.
pub open spec fn digits_value(s: Seq<char>) -> int
    decreases s.len(),
{
    if s.len() == 0 {
        0
    } else {
        digits_value(s.drop_last()) * 10 + (s.last() as u32 - 48)
    }
}

/// Whether every character is a decimal digit.
pub open spec fn all_digits(s: Seq<char>) -> bool {
    forall|i: int| 0 <= i < s.len() ==> 48 <= #[trigger] (s[i] as u32) <= 57
}

proof fn lemma_digit_char_value(d: nat)
    requires
        d < 10,
    ensures
        digit_char(d) as u32 - 48 == d,
        48 <= digit_char(d) as u32 <= 57,
        d != 0 ==> digit_char(d) != '0',
{
}

/// Decimal rendering reads back as the number: it is made of digits, has
/// no leading zero (except `0` itself), and its value is `n`.
pub proof fn lemma_decimal_reads_back(n: nat)
    ensures
        all_digits(decimal_text(n)),
        decimal_text(n).len() >= 1,
        n > 0 ==> decimal_text(n)[0] != '0',
        digits_value(decimal_text(n)) == n,
    decreases n,
{
    if n < 10 {
        lemma_digit_char_value(n);
        let t = decimal_text(n);
        assert(t.drop_last() =~= Seq::<char>::empty());
        assert(digits_value(t.drop_last()) == 0);
        assert(t.last() == digit_char(n));
        assert(digits_value(t) == digits_value(t.drop_last()) * 10 + (t.last() as u32 - 48));
    } else {
        lemma_decimal_reads_back(n / 10);
        lemma_digit_char_value(n % 10);
        let h = decimal_text(n / 10);
        let t = decimal_text(n);
        assert(t.drop_last() =~= h);
        assert(t[0] == h[0]);
        assert(t.last() == digit_char(n % 10));
        assert(digits_value(t) == digits_value(h) * 10 + (t.last() as u32 - 48));
        assert(digits_value(h) == n / 10);
        assert(n == (n / 10) * 10 + n % 10) by (nonlinear_arith);
    }
}

/// ASCII case folding lowers exactly the upper-case ASCII letters, by 32,
/// and leaves every other character alone; it yields no upper-case ASCII
/// letter.
pub proof fn lemma_ascii_folding(c: char)
    ensures
        65 <= (c as u32) <= 90 ==> ascii_lower(c) as u32 == c as u32 + 32,
        !(65 <= (c as u32) <= 90) ==> ascii_lower(c) == c,
        !(65 <= (ascii_lower(c) as u32) <= 90),
{
}

/// The caller headers passed on are exactly those of the caller whose
/// folded name is `x-wallet-id`, `content-type` or `accept`: each of those
/// is passed on, and nothing else is.
pub proof fn lemma_forwarded_exactly(h: Seq<(String, String)>)
    ensures
        forall|i: int|
            0 <= i < h.len() && is_forwarded_name(h[i].0@) ==> forwarded_text(h).contains(
                (#[trigger] h[i].0@, h[i].1@),
            ),
        forall|j: int|
            0 <= j < forwarded_text(h).len() ==> is_forwarded_name(
                #[trigger] forwarded_text(h)[j].0,
            ) && exists|i: int| 0 <= i < h.len() && forwarded_text(h)[j] == (h[i].0@, h[i].1@),
        forwarded_text(h).len() <= h.len(),
    decreases h.len(),
{
    if h.len() > 0 {
        let d = h.drop_last();
        lemma_forwarded_exactly(d);
        let r = forwarded_text(d);
        let f = forwarded_text(h);
        let n = h.len() - 1;
        assert forall|i: int|
            0 <= i < h.len() && is_forwarded_name(h[i].0@) implies f.contains(
            (#[trigger] h[i].0@, h[i].1@),
        ) by {
            if i < n {
                assert(d[i] == h[i]);
                let j = choose|j: int| 0 <= j < r.len() && r[j] == (d[i].0@, d[i].1@);
                assert(f[j] == r[j]);
            } else {
                assert(f[f.len() - 1] == (h[i].0@, h[i].1@));
            }
        }
        assert forall|j: int| 0 <= j < f.len() implies is_forwarded_name(#[trigger] f[j].0)
            && exists|i: int| 0 <= i < h.len() && f[j] == (h[i].0@, h[i].1@) by {
            if j < r.len() {
                assert(f[j] == r[j]);
                assert(is_forwarded_name(r[j].0));
                let i = choose|i: int| 0 <= i < d.len() && r[j] == (d[i].0@, d[i].1@);
                assert(d[i] == h[i]);
            } else {
                assert(f[j] == (h[n].0@, h[n].1@));
            }
        }
    }
}

/// The status passed back is always a valid HTTP status, and is the
/// instance's own whenever that one is valid.
pub proof fn lemma_relayed_status_valid(code: u16)
    ensures
        100 <= relayed_status(code) <= 999,
        100 <= code <= 999 ==> relayed_status(code) == code,
{
}

/// Which refusal a caller gets: an unknown session is "not found" whatever
/// the key; for a running session, no key is "missing" and a different
/// key is "invalid".
pub proof fn lemma_refusal_kinds(
    m: Map<Seq<char>, InstanceView>,
    id: Seq<char>,
    caller: Option<Seq<char>>,
)
    ensures
        !m.dom().contains(id) ==> auth_refusal(m, id, caller) == Some(SessionError::NotFound),
        m.dom().contains(id) && caller is None ==> auth_refusal(m, id, caller) == Some(
            SessionError::MissingApiKey,
        ),
        m.dom().contains(id) && caller is Some && caller->0 != m[id].api_key ==> auth_refusal(
            m,
            id,
            caller,
        ) == Some(SessionError::InvalidApiKey),
{
}

/// A session's container name is `headless-` followed by the session id.
pub proof fn lemma_container_name_shape(id: Seq<char>)
    ensures
        container_name_text(id).len() == 9 + id.len(),
        container_name_text(id).subrange(0, 9) == "headless-"@,
        container_name_text(id).subrange(9, 9 + id.len() as int) == id,
{
    reveal_strlit("headless-");
    assert(container_name_text(id).subrange(0, 9) =~= "headless-"@);
    assert(container_name_text(id).subrange(9, 9 + id.len() as int) =~= id);
}

/// A container is configured with its session's settings: it is named
/// after the session, runs the configured image, is told the configured
/// network, fullnode and its own api key, and is published on a host port
/// whose text reads back as the port given.
pub proof fn lemma_container_carries_settings(
    c: crate::docker::ContainerSpec,
    state: AppState,
    session_id: Seq<char>,
    host_port: u16,
    api_key: Seq<char>,
)
    requires
        is_container_spec_for(c, state, session_id, host_port, api_key),
    ensures
        c.name@ == "headless-"@ + session_id,
        c.image@ == state.headless_image@,
        texts(c.env@).contains("HEADLESS_NETWORK="@ + state.network@),
        texts(c.env@).contains("HEADLESS_SERVER="@ + state.fullnode_url@),
        texts(c.env@).contains("HEADLESS_API_KEY="@ + api_key),
        all_digits(c.host_port@),
        digits_value(c.host_port@) == host_port,
{
    let e = texts(c.env@);
    assert(e[2] == "HEADLESS_NETWORK="@ + state.network@);
    assert(e[3] == "HEADLESS_SERVER="@ + state.fullnode_url@);
    assert(e[4] == "HEADLESS_API_KEY="@ + api_key);
    lemma_decimal_reads_back(host_port as nat);
}

/// A proxied call carries the caller's passed-on headers right after the
/// stored key, and a JSON content type last exactly when a body goes
/// along.
pub proof fn lemma_proxied_headers_layout(
    api_key: Seq<char>,
    headers: Seq<(String, String)>,
    with_body: bool,
)
    ensures
        proxied_headers_text(api_key, headers, with_body).len() == 1 + forwarded_text(headers).len()
            + (if with_body {
            1int
        } else {
            0int
        }),
        forall|j: int|
            0 <= j < forwarded_text(headers).len() ==> proxied_headers_text(
                api_key,
                headers,
                with_body,
            )[j + 1] == #[trigger] forwarded_text(headers)[j],
        with_body ==> proxied_headers_text(api_key, headers, with_body).last() == (
            "content-type"@,
            "application/json"@,
        ),
{
}

/// The path asked of the instance is `/` and the caller's path, then, only
/// when there are query pairs, `?` and the query string.
pub proof fn lemma_proxy_path_layout(rest: Seq<char>, query: Seq<(String, String)>)
    ensures
        crate::routes::proxy_path_text(rest, query).subrange(0, 1 + rest.len() as int) == "/"@
            + rest,
        query.len() == 0 ==> crate::routes::proxy_path_text(rest, query).len() == 1 + rest.len(),
        query.len() > 0 ==> crate::routes::proxy_path_text(rest, query)[1 + rest.len() as int] == '?'
            && crate::routes::proxy_path_text(rest, query).subrange(
            2 + rest.len() as int,
            crate::routes::proxy_path_text(rest, query).len() as int,
        ) == query_text(query),
{
    reveal_strlit("/");
    reveal_strlit("?");
    let t = crate::routes::proxy_path_text(rest, query);
    assert(t.subrange(0, 1 + rest.len() as int) =~= "/"@ + rest);
    if query.len() > 0 {
        assert(t.subrange(2 + rest.len() as int, t.len() as int) =~= query_text(query));
    }
}

/// An instance is reached over plain HTTP at the requested path: on a
/// Docker network by its container name on port 8000, otherwise on the
/// proxy host at a port whose text reads back as the session's port.
pub proof fn lemma_upstream_url_layout(
    on_docker_network: bool,
    proxy_host: Seq<char>,
    container_id: Seq<char>,
    port: u16,
    path: Seq<char>,
)
    ensures
        ({
            let u = crate::proxy::upstream_url_text(
                on_docker_network,
                proxy_host,
                container_id,
                port,
                path,
            );
            &&& u.subrange(0, 7) == "http://"@
            &&& u.len() >= 7 + path.len()
            &&& u.subrange(u.len() - path.len(), u.len() as int) == path
            &&& on_docker_network ==> u.subrange(7, u.len() - path.len()) == container_id
                + ":8000"@
            &&& !on_docker_network ==> {
                let hp = u.subrange(7, u.len() - path.len());
                &&& hp.subrange(0, proxy_host.len() as int) == proxy_host
                &&& hp[proxy_host.len() as int] == ':'
                &&& all_digits(hp.subrange(proxy_host.len() as int + 1, hp.len() as int))
                &&& digits_value(hp.subrange(proxy_host.len() as int + 1, hp.len() as int)) == port
            }
        }),
{
    reveal_strlit("http://");
    reveal_strlit(":8000");
    reveal_strlit(":");
    let u = crate::proxy::upstream_url_text(on_docker_network, proxy_host, container_id, port, path);
    lemma_decimal_reads_back(port as nat);
    assert(u.subrange(0, 7) =~= "http://"@);
    assert(u.subrange(u.len() - path.len(), u.len() as int) =~= path);
    if on_docker_network {
        assert(u.subrange(7, u.len() - path.len()) =~= container_id + ":8000"@);
    } else {
        let hp = u.subrange(7, u.len() - path.len());
        let d = decimal_text(port as nat);
        assert(hp =~= proxy_host + ":"@ + d);
        assert(hp.subrange(0, proxy_host.len() as int) =~= proxy_host);
        assert(hp.subrange(proxy_host.len() as int + 1, hp.len() as int) =~= d);
    }
}

} // verus!
