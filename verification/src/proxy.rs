//! Authorization of callers and the requests forwarded to a session's
//! wallet-headless instance.
use vstd::prelude::*;
use vstd::string::*;

use crate::docker::pair_texts;
use crate::state::{
    after_step, lemma_len_shrinks, within_limit, SessionStep, auth_refusal, key_view, same_settings, touched, AppState, InstanceView, SessionError,
};
use crate::text::{decimal, decimal_text};

verus! {

/// Where the proxy reaches an instance: by container name on port 8000
/// when containers sit on a Docker network, else on the proxy host at the
/// published port.
pub open spec fn upstream_url_text(
    on_docker_network: bool,
    proxy_host: Seq<char>,
    container_id: Seq<char>,
    port: u16,
    path: Seq<char>,
) -> Seq<char> {
    if on_docker_network {
        "http://"@ + container_id + ":8000"@ + path
    } else {
        "http://"@ + proxy_host + ":"@ + decimal_text(port as nat) + path
    }
}

/// The URL of `path` on an instance (see `upstream_url_text`).
pub fn upstream_url(state: &AppState, container_id: &str, port: u16, path: &str) -> (r: String)
    ensures
        r@ == upstream_url_text(
            state.docker_network is Some,
            state.proxy_host@,
            container_id@,
            port,
            path@,
        ),
{
    if state.docker_network.is_some() {
        String::from_str("http://").concat(container_id).concat(":8000").concat(path)
    } else {
        String::from_str("http://").concat(state.proxy_host.as_str()).concat(":").concat(
            decimal(port as u64).as_str(),
        ).concat(path)
    }
}

/// The headers of a forwarded request: the session's stored api key first,
/// then the caller's headers in order, then a JSON content type when a
/// body goes along.
pub open spec fn upstream_headers_text(
    api_key: Seq<char>,
    headers: Seq<(String, String)>,
    has_body: bool,
) -> Seq<(Seq<char>, Seq<char>)> {
    let tail = if has_body {
        seq![("content-type"@, "application/json"@)]
    } else {
        Seq::empty()
    };
    seq![("x-api-key"@, api_key)] + pair_texts(headers) + tail
}

/// A request to send to a wallet-headless instance.
#[derive(Debug)]
pub struct UpstreamRequest {
    pub url: String,
    pub headers: Vec<(String, String)>,
    pub body: Option<String>,
}

/// Checks the caller's api key against the session's, as every
/// session-scoped endpoint does; refreshes the session's activity on
/// success and changes nothing on refusal.
pub fn authorize_session(
    state: &mut AppState,
    session_id: &str,
    caller_api_key: Option<&str>,
    now: u64,
) -> (r: Result<(), SessionError>)
    ensures
        r is Ok <==> auth_refusal(old(state).instances@, session_id@, key_view(caller_api_key)) is None,
        r matches Err(e) ==> auth_refusal(
            old(state).instances@,
            session_id@,
            key_view(caller_api_key),
        ) == Some(e) && final(state).instances@ == old(state).instances@,
        r is Ok ==> final(state).instances@ == old(state).instances@.insert(
            session_id@,
            touched(old(state).instances@[session_id@], now),
        ),
        same_settings(*final(state), *old(state)),
        final(state).instances@ == after_step(
            old(state).instances@,
            SessionStep::Authorize(session_id@, key_view(caller_api_key), now),
        ),
        final(state).pending == old(state).pending,
        within_limit(*old(state)) ==> within_limit(*final(state)),
{
    proof {
        state.instances.lemma_well_formed();
    }
    let r = match state.instances.authorize(session_id, caller_api_key, now) {
        Ok(_) => Ok(()),
        Err(e) => Err(e),
    };
    proof {
        lemma_len_shrinks(state.instances@, old(state).instances@);
    }
    r
}

/// Authorizes the caller and prepares the request to the session's
/// instance: the URL of `path` on it, the stored api key and the given
/// headers (see `upstream_headers_text`), and the body.
pub fn proxy_request(
    state: &mut AppState,
    session_id: &str,
    caller_api_key: Option<&str>,
    path: &str,
    body: Option<String>,
    headers: &Vec<(String, String)>,
    now: u64,
) -> (r: Result<UpstreamRequest, SessionError>)
    ensures
        r is Ok <==> auth_refusal(old(state).instances@, session_id@, key_view(caller_api_key)) is None,
        r matches Err(e) ==> auth_refusal(
            old(state).instances@,
            session_id@,
            key_view(caller_api_key),
        ) == Some(e) && final(state).instances@ == old(state).instances@,
        r matches Ok(req) ==> {
            let v: InstanceView = old(state).instances@[session_id@];
            &&& final(state).instances@ == old(state).instances@.insert(
                session_id@,
                touched(v, now),
            )
            &&& req.url@ == upstream_url_text(
                old(state).docker_network is Some,
                old(state).proxy_host@,
                v.container_id,
                v.port,
                path@,
            )
            &&& pair_texts(req.headers@) == upstream_headers_text(v.api_key, headers@, body is Some)
            &&& req.body == body
        },
        same_settings(*final(state), *old(state)),
        final(state).instances@ == after_step(
            old(state).instances@,
            SessionStep::Authorize(session_id@, key_view(caller_api_key), now),
        ),
        final(state).pending == old(state).pending,
        within_limit(*old(state)) ==> within_limit(*final(state)),
{
    proof {
        state.instances.lemma_well_formed();
    }
    let (port, container_id, api_key) = match state.instances.authorize(
        session_id,
        caller_api_key,
        now,
    ) {
        Ok(g) => g,
        Err(e) => {
            return Err(e);
        },
    };
    proof {
        lemma_len_shrinks(state.instances@, old(state).instances@);
    }
    let url = upstream_url(state, container_id.as_str(), port, path);
    let ghost key = api_key@;
    let mut out: Vec<(String, String)> = Vec::new();
    out.push((String::from_str("x-api-key"), api_key));
    let mut i: usize = 0;
    while i < headers.len()
        invariant
            i <= headers@.len(),
            pair_texts(out@) == seq![("x-api-key"@, key)] + pair_texts(
                headers@.subrange(0, i as int),
            ),
        decreases headers@.len() - i,
    {
        let ghost before = out@;
        let name = headers[i].0.clone();
        let value = headers[i].1.clone();
        out.push((name, value));
        proof {
            let h = headers@[i as int];
            assert(pair_texts(out@) =~= pair_texts(before).push((h.0@, h.1@)));
            assert(pair_texts(headers@.subrange(0, i + 1)) =~= pair_texts(
                headers@.subrange(0, i as int),
            ).push((h.0@, h.1@)));
            assert(pair_texts(out@) =~= seq![("x-api-key"@, key)] + pair_texts(
                headers@.subrange(0, i + 1),
            ));
        }
        i = i + 1;
    }
    proof {
        assert(headers@.subrange(0, headers@.len() as int) =~= headers@);
    }
    if body.is_some() {
        out.push((String::from_str("content-type"), String::from_str("application/json")));
    }
    proof {
        assert(pair_texts(out@) =~= upstream_headers_text(
            old(state).instances@[session_id@].api_key,
            headers@,
            body is Some,
        ));
    }
    Ok(UpstreamRequest { url, headers: out, body })
}

/// The status code passed back to the caller: the instance's own when it
/// is a valid HTTP status (100 to 999), else 500.
pub open spec fn relayed_status(code: u16) -> u16 {
    if 100 <= code <= 999 {
        code
    } else {
        500
    }
}

/// The status code with which an instance's answer is relayed.
pub fn upstream_status(code: u16) -> (r: u16)
    ensures
        r == relayed_status(code),
{
    if 100 <= code && code <= 999 {
        code
    } else {
        500
    }
}

/// The message with which an unreachable instance is reported.
pub fn upstream_error_message(detail: &str) -> (r: String)
    ensures
        r@ == "Upstream error: "@ + detail@,
{
    String::from_str("Upstream error: ").concat(detail)
}

/// The message with which an unreadable answer is reported.
pub fn body_read_error_message(detail: &str) -> (r: String)
    ensures
        r@ == "Body read error: "@ + detail@,
{
    String::from_str("Body read error: ").concat(detail)
}

} // verus!
