//! The decisions of the HTTP endpoints: admitting, registering, listing
//! and destroying sessions, and shaping proxied calls.
use vstd::prelude::*;
use vstd::string::*;

use crate::docker::pair_texts;
use crate::proxy::{proxy_request, upstream_headers_text, upstream_url_text, UpstreamRequest};
use crate::state::{
    after_step, lemma_len_shrinks, within_limit, SessionStep, at_capacity, auth_refusal, idle_secs, key_view, same_settings, touched, AppState, Instance,
    InstanceView, SessionError, SessionSummary,
};
use crate::text::{ascii_lower_text, eq_ignore_ascii_case, query_string, query_text};
use crate::token::{is_v4_token, random_token};

verus! {

/// Admits a new session when there is room and draws its id. Under a
/// positive limit the admitted session reserves a slot, which its
/// registration or its abandonment gives back, so that sessions being
/// spawned at the same time cannot together pass the limit.
pub fn begin_session(state: &mut AppState) -> (r: Result<String, SessionError>)
    ensures
        r is Err <==> at_capacity(
            old(state).max_instances,
            old(state).instances@.len() + old(state).pending,
        ),
        r matches Err(e) ==> e == SessionError::CapacityReached && final(state).pending == old(
            state,
        ).pending,
        r matches Ok(id) ==> is_v4_token(id@) && final(state).pending == old(state).pending + (
        if old(state).max_instances > 0 {
            1int
        } else {
            0int
        }),
        final(state).instances@ == old(state).instances@,
        same_settings(*final(state), *old(state)),
        within_limit(*old(state)) ==> within_limit(*final(state)),
{
    match state.admit_session() {
        Err(e) => Err(e),
        Ok(()) => {
            if state.max_instances > 0 {
                state.pending = state.pending + 1;
            }
            Ok(random_token())
        },
    }
}

/// Gives back the slot of an admitted session whose container could not
/// be brought up.
pub fn abandon_session(state: &mut AppState)
    ensures
        final(state).pending == (if old(state).pending > 0 {
            old(state).pending - 1
        } else {
            0
        }),
        final(state).instances@ == old(state).instances@,
        same_settings(*final(state), *old(state)),
        within_limit(*old(state)) ==> within_limit(*final(state)),
{
    if state.pending > 0 {
        state.pending = state.pending - 1;
    }
}

/// Records a session whose container is up, taking the slot its admission
/// reserved. Without a reserved slot, a new session is refused when the
/// limit is reached, so that registering never passes the limit.
pub fn register_session(state: &mut AppState, instance: Instance) -> (r: Result<(), SessionError>)
    ensures
        r is Err <==> old(state).pending == 0 && !old(state).instances@.dom().contains(
            instance.session_id@,
        ) && at_capacity(old(state).max_instances, old(state).instances@.len() as int),
        r matches Err(e) ==> e == SessionError::CapacityReached && final(state).instances@ == old(
            state,
        ).instances@ && final(state).pending == old(state).pending,
        r is Ok ==> final(state).instances@ == old(state).instances@.insert(
            instance.session_id@,
            instance@,
        ) && final(state).instances@ == after_step(
            old(state).instances@,
            SessionStep::Register(instance@),
        ) && final(state).pending == (if old(state).pending > 0 {
            old(state).pending - 1
        } else {
            0
        }),
        same_settings(*final(state), *old(state)),
        within_limit(*old(state)) ==> within_limit(*final(state)),
{
    proof {
        state.instances.lemma_well_formed();
    }
    if state.pending > 0 {
        state.pending = state.pending - 1;
    } else if !state.instances.contains(instance.session_id.as_str()) {
        if state.max_instances > 0 && state.instances.len() >= state.max_instances {
            return Err(SessionError::CapacityReached);
        }
    }
    let ghost before = state.instances@;
    state.instances.insert(instance);
    proof {
        let k = instance.session_id@;
        if before.dom().contains(k) {
            assert(state.instances@.dom() =~= before.dom());
        } else {
            assert(state.instances@.dom() =~= before.dom().insert(k));
        }
    }
    Ok(())
}

/// Destroys a session for a caller who presents its api key: the session
/// leaves the registry and its record is returned so that its container
/// can be removed. A refused caller changes nothing.
pub fn destroy_session(
    state: &mut AppState,
    session_id: &str,
    caller_api_key: Option<&str>,
    now: u64,
) -> (r: Result<Instance, SessionError>)
    ensures
        r is Ok <==> auth_refusal(old(state).instances@, session_id@, key_view(caller_api_key)) is None,
        r matches Err(e) ==> auth_refusal(
            old(state).instances@,
            session_id@,
            key_view(caller_api_key),
        ) == Some(e) && final(state).instances@ == old(state).instances@,
        r matches Ok(v) ==> v@ == touched(old(state).instances@[session_id@], now)
            && final(state).instances@ == old(state).instances@.remove(session_id@),
        final(state).instances@ == after_step(
            old(state).instances@,
            SessionStep::Destroy(session_id@, key_view(caller_api_key), now),
        ),
        final(state).pending == old(state).pending,
        within_limit(*old(state)) ==> within_limit(*final(state)),
        same_settings(*final(state), *old(state)),
{
    proof {
        state.instances.lemma_well_formed();
    }
    match state.instances.authorize(session_id, caller_api_key, now) {
        Err(e) => {
            return Err(e);
        },
        Ok(_) => {},
    }
    match state.instances.remove(session_id) {
        Some(v) => {
            assert(state.instances@ =~= old(state).instances@.remove(session_id@));
            proof {
                lemma_len_shrinks(state.instances@, old(state).instances@);
            }
            Ok(v)
        },
        None => Err(SessionError::NotFound),
    }
}

/// One summary per running session (see `SessionRegistry::list_sessions`).
pub fn list_sessions(state: &AppState, now: u64) -> (r: Vec<SessionSummary>)
    ensures
        r@.len() == state.instances@.len(),
        forall|i: int|
            0 <= i < r@.len() ==> {
                let k = #[trigger] r@[i].session_id@;
                &&& state.instances@.dom().contains(k)
                &&& r@[i].port == state.instances@[k].port
                &&& r@[i].idle_secs == idle_secs(state.instances@[k], now)
            },
        forall|k: Seq<char>| #[trigger]
            state.instances@.dom().contains(k) ==> exists|i: int|
                0 <= i < r@.len() && #[trigger] r@[i].session_id@ == k,
        forall|i: int, j: int|
            0 <= i < j < r@.len() ==> r@[i].session_id@ != r@[j].session_id@,
{
    state.instances.list_sessions(now)
}

/// Whether a caller header is passed on to the instance: only
/// `x-wallet-id`, `content-type` and `accept`, in any ASCII case.
pub open spec fn is_forwarded_name(name: Seq<char>) -> bool {
    let n = ascii_lower_text(name);
    n == "x-wallet-id"@ || n == "content-type"@ || n == "accept"@
}

/// The caller headers passed on, in their order.
pub open spec fn forwarded_text(h: Seq<(String, String)>) -> Seq<(Seq<char>, Seq<char>)>
    decreases h.len(),
{
    if h.len() == 0 {
        Seq::empty()
    } else {
        let rest = forwarded_text(h.drop_last());
        if is_forwarded_name(h.last().0@) {
            rest.push((h.last().0@, h.last().1@))
        } else {
            rest
        }
    }
}

/// Keeps the caller headers that are passed on to the instance; the
/// caller's own `x-api-key` is never among them. Header names are ASCII
/// tokens, so ASCII case folding is all the lower-casing they need.
pub fn forwarded_headers(headers: &Vec<(String, String)>) -> (r: Vec<(String, String)>)
    ensures
        pair_texts(r@) == forwarded_text(headers@),
{
    let mut r: Vec<(String, String)> = Vec::new();
    let mut i: usize = 0;
    while i < headers.len()
        invariant
            i <= headers@.len(),
            pair_texts(r@) == forwarded_text(headers@.subrange(0, i as int)),
        decreases headers@.len() - i,
    {
        let ghost before = r@;
        let name = headers[i].0.as_str();
        let keep = eq_ignore_ascii_case(name, "x-wallet-id") || eq_ignore_ascii_case(
            name,
            "content-type",
        ) || eq_ignore_ascii_case(name, "accept");
        if keep {
            let n = headers[i].0.clone();
            let v = headers[i].1.clone();
            r.push((n, v));
        }
        proof {
            let h = headers@[i as int];
            let next = headers@.subrange(0, i + 1);
            assert(next.drop_last() =~= headers@.subrange(0, i as int));
            assert(next.last() == h);
            if keep {
                assert(pair_texts(r@) =~= pair_texts(before).push((h.0@, h.1@)));
            } else {
                assert(pair_texts(r@) =~= pair_texts(before));
            }
        }
        i = i + 1;
    }
    proof {
        assert(headers@.subrange(0, headers@.len() as int) =~= headers@);
    }
    r
}

/// The headers of a proxied call: the stored api key, the passed-on
/// caller headers, and a JSON content type when a body goes along.
pub open spec fn proxied_headers_text(
    api_key: Seq<char>,
    headers: Seq<(String, String)>,
    with_body: bool,
) -> Seq<(Seq<char>, Seq<char>)> {
    seq![("x-api-key"@, api_key)] + forwarded_text(headers) + (if with_body {
        seq![("content-type"@, "application/json"@)]
    } else {
        Seq::empty()
    })
}

/// The path requested of the instance: `/rest`, and `?` with the query
/// pairs when there are any.
pub open spec fn proxy_path_text(rest: Seq<char>, query: Seq<(String, String)>) -> Seq<char> {
    if query.len() == 0 {
        "/"@ + rest
    } else {
        "/"@ + rest + "?"@ + query_text(query)
    }
}

/// The path requested of the instance (see `proxy_path_text`).
pub fn proxy_path(rest: &str, query: &Vec<(String, String)>) -> (r: String)
    ensures
        r@ == proxy_path_text(rest@, query@),
{
    if query.len() == 0 {
        String::from_str("/").concat(rest)
    } else {
        let qs = query_string(query);
        String::from_str("/").concat(rest).concat("?").concat(qs.as_str())
    }
}

/// An empty body is sent as no body.
pub fn body_option(body: String) -> (r: Option<String>)
    ensures
        body@.len() == 0 ==> r is None,
        body@.len() != 0 ==> r == Some(body),
{
    if body.as_str().is_empty() {
        None
    } else {
        Some(body)
    }
}

/// The whole decision of a proxied call: authorize the caller with the
/// key it presented, request `/rest?query` of the session's instance with
/// the stored key and the passed-on headers, and send a non-empty body.
pub fn proxy_call(
    state: &mut AppState,
    session_id: &str,
    rest: &str,
    query: &Vec<(String, String)>,
    caller_api_key: Option<&str>,
    headers: &Vec<(String, String)>,
    body: String,
    now: u64,
) -> (r: Result<UpstreamRequest, SessionError>)
    ensures
        r is Ok <==> auth_refusal(old(state).instances@, session_id@, key_view(caller_api_key)) is None,
        r matches Err(e) ==> auth_refusal(
            old(state).instances@,
            session_id@,
            key_view(caller_api_key),
        ) == Some(e) && final(state).instances@ == old(state).instances@,
        r matches Ok(req) ==> {
            let v: InstanceView = old(state).instances@[session_id@];
            &&& final(state).instances@ == old(state).instances@.insert(
                session_id@,
                touched(v, now),
            )
            &&& req.url@ == upstream_url_text(
                old(state).docker_network is Some,
                old(state).proxy_host@,
                v.container_id,
                v.port,
                proxy_path_text(rest@, query@),
            )
            &&& pair_texts(req.headers@) == proxied_headers_text(
                v.api_key,
                headers@,
                body@.len() != 0,
            )
            &&& (body@.len() == 0 ==> req.body is None)
            &&& (body@.len() != 0 ==> req.body == Some(body))
        },
        same_settings(*final(state), *old(state)),
        final(state).instances@ == after_step(
            old(state).instances@,
            SessionStep::Authorize(session_id@, key_view(caller_api_key), now),
        ),
        final(state).pending == old(state).pending,
        within_limit(*old(state)) ==> within_limit(*final(state)),
{
    let path = proxy_path(rest, query);
    let fwd = forwarded_headers(headers);
    let body_opt = body_option(body);
    let r = proxy_request(state, session_id, caller_api_key, path.as_str(), body_opt, &fwd, now);
    proof {
        if r is Ok {
            let v = old(state).instances@[session_id@];
            assert(pair_texts(fwd@) == forwarded_text(headers@));
            assert(upstream_headers_text(v.api_key, fwd@, body_opt is Some) =~= proxied_headers_text(
                v.api_key,
                headers@,
                body@.len() != 0,
            ));
        }
    }
    r
}

} // verus!
