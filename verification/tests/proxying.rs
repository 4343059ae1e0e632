use headless_orchestrator::proxy::{
    authorize_session, body_read_error_message, proxy_request, upstream_error_message,
    upstream_status, upstream_url,
};
use headless_orchestrator::routes::{
    body_option, forwarded_headers, proxy_call, proxy_path, register_session,
};
use headless_orchestrator::state::{AppState, Instance, SessionError};
use headless_orchestrator::text::{decimal, eq_ignore_ascii_case, query_string};

fn state(docker_network: Option<&str>, proxy_host: &str) -> AppState {
    AppState::new(
        "f".to_string(),
        None,
        "privatenet".to_string(),
        "img".to_string(),
        docker_network.map(|s| s.to_string()),
        100,
        1800,
        proxy_host.to_string(),
    )
}

fn instance(id: &str, key: &str, port: u16) -> Instance {
    Instance {
        session_id: id.to_string(),
        container_id: format!("headless-{}", id),
        port,
        api_key: key.to_string(),
        created_at: 0,
        last_activity: 0,
    }
}

fn pairs(v: &[(&str, &str)]) -> Vec<(String, String)> {
    v.iter().map(|(a, b)| (a.to_string(), b.to_string())).collect()
}

#[test]
fn decimal_rendering() {
    assert_eq!(decimal(0), "0");
    assert_eq!(decimal(7), "7");
    assert_eq!(decimal(8100), "8100");
    assert_eq!(decimal(u64::MAX), u64::MAX.to_string());
}

#[test]
fn ascii_case_folding() {
    assert!(eq_ignore_ascii_case("X-Wallet-Id", "x-wallet-id"));
    assert!(eq_ignore_ascii_case("accept", "accept"));
    assert!(!eq_ignore_ascii_case("accepts", "accept"));
    assert!(!eq_ignore_ascii_case("x-api-key", "x-wallet-id"));
}

#[test]
fn query_strings() {
    assert_eq!(query_string(&pairs(&[])), "");
    assert_eq!(query_string(&pairs(&[("token", "00")])), "token=00");
    assert_eq!(query_string(&pairs(&[("a", "1"), ("b", "2")])), "a=1&b=2");
}

#[test]
fn proxy_paths() {
    assert_eq!(proxy_path("wallet/status", &pairs(&[])), "/wallet/status");
    assert_eq!(proxy_path("wallet/balance", &pairs(&[("token", "00")])), "/wallet/balance?token=00");
}

#[test]
fn empty_body_is_no_body() {
    assert_eq!(body_option(String::new()), None);
    assert_eq!(body_option("{}".to_string()), Some("{}".to_string()));
}

#[test]
fn header_filter_keeps_three_names() {
    let h = pairs(&[
        ("x-wallet-id", "alice"),
        ("x-api-key", "attacker"),
        ("Content-Type", "application/json"),
        ("authorization", "secret"),
        ("ACCEPT", "*/*"),
    ]);
    assert_eq!(
        forwarded_headers(&h),
        pairs(&[
            ("x-wallet-id", "alice"),
            ("Content-Type", "application/json"),
            ("ACCEPT", "*/*"),
        ])
    );
}

#[test]
fn upstream_urls() {
    let host = state(None, "127.0.0.1");
    assert_eq!(upstream_url(&host, "headless-s", 32768, "/start"), "http://127.0.0.1:32768/start");
    let net = state(Some("hathor"), "127.0.0.1");
    assert_eq!(upstream_url(&net, "headless-s", 32768, "/start"), "http://headless-s:8000/start");
}

#[test]
fn relayed_status_codes() {
    assert_eq!(upstream_status(200), 200);
    assert_eq!(upstream_status(404), 404);
    assert_eq!(upstream_status(999), 999);
    assert_eq!(upstream_status(99), 500);
    assert_eq!(upstream_status(1000), 500);
    assert_eq!(upstream_error_message("refused"), "Upstream error: refused");
    assert_eq!(body_read_error_message("eof"), "Body read error: eof");
}

#[test]
fn proxy_request_uses_stored_key() {
    let mut st = state(None, "host.docker.internal");
    register_session(&mut st, instance("s", "stored", 5000)).unwrap();
    let h = pairs(&[("x-wallet-id", "w")]);
    let req = proxy_request(&mut st, "s", Some("stored"), "/wallet/status", None, &h, 42).unwrap();
    assert_eq!(req.url, "http://host.docker.internal:5000/wallet/status");
    assert_eq!(req.headers, pairs(&[("x-api-key", "stored"), ("x-wallet-id", "w")]));
    assert_eq!(req.body, None);
    assert_eq!(st.instances.get("s").unwrap().last_activity, 42);

    let req = proxy_request(&mut st, "s", Some("stored"), "/start", Some("{}".to_string()), &h, 43)
        .unwrap();
    assert_eq!(
        req.headers,
        pairs(&[
            ("x-api-key", "stored"),
            ("x-wallet-id", "w"),
            ("content-type", "application/json"),
        ])
    );
    assert_eq!(req.body, Some("{}".to_string()));

    let err = proxy_request(&mut st, "s", Some("nope"), "/start", None, &h, 44).unwrap_err();
    assert_eq!(err, SessionError::InvalidApiKey);
    assert_eq!(st.instances.get("s").unwrap().last_activity, 43);
}

#[test]
fn proxy_call_strips_caller_key() {
    let mut st = state(Some("net"), "127.0.0.1");
    register_session(&mut st, instance("s", "stored", 5000)).unwrap();
    let h = pairs(&[("x-api-key", "stored"), ("x-wallet-id", "w"), ("cookie", "c")]);
    let q = pairs(&[("token", "00")]);
    let req = proxy_call(&mut st, "s", "wallet/balance", &q, Some("stored"), &h, String::new(), 1)
        .unwrap();
    assert_eq!(req.url, "http://headless-s:8000/wallet/balance?token=00");
    assert_eq!(req.headers, pairs(&[("x-api-key", "stored"), ("x-wallet-id", "w")]));
    assert_eq!(req.body, None);
    assert_eq!(
        proxy_call(&mut st, "t", "x", &q, Some("stored"), &h, String::new(), 2).unwrap_err(),
        SessionError::NotFound
    );
}

#[test]
fn test_session_isolation() {
    let mut st = state(None, "127.0.0.1");
    register_session(&mut st, instance("one", "key-one", 40001)).unwrap();
    register_session(&mut st, instance("two", "key-two", 40002)).unwrap();
    let h = pairs(&[("x-wallet-id", "wallet")]);
    let r1 = proxy_request(&mut st, "one", Some("key-one"), "/wallet/addresses", None, &h, 1).unwrap();
    let r2 = proxy_request(&mut st, "two", Some("key-two"), "/wallet/addresses", None, &h, 1).unwrap();
    assert_ne!(r1.url, r2.url, "Same wallet-id on different sessions should reach different instances");
    // a session's key does not open another session
    assert_eq!(
        proxy_request(&mut st, "two", Some("key-one"), "/wallet/addresses", None, &h, 2).unwrap_err(),
        SessionError::InvalidApiKey
    );
    assert_eq!(
        authorize_session(&mut st, "one", Some("key-two"), 2).unwrap_err(),
        SessionError::InvalidApiKey
    );
    assert!(authorize_session(&mut st, "one", Some("key-one"), 3).is_ok());
}
