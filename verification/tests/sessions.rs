use headless_orchestrator::routes::{
    abandon_session, begin_session, destroy_session, list_sessions, register_session,
};
use headless_orchestrator::state::{AppState, Instance, SessionError, SessionRegistry};
use headless_orchestrator::docker::{plan_spawn, spawned_instance};
use headless_orchestrator::proxy::authorize_session;

const SEC: u64 = 1_000_000_000;

fn state(max_instances: usize) -> AppState {
    AppState::new(
        "http://host.docker.internal:8080/v1a/".to_string(),
        None,
        "privatenet".to_string(),
        "hathornetwork/hathor-wallet-headless:latest".to_string(),
        None,
        max_instances,
        1800,
        "127.0.0.1".to_string(),
    )
}

fn instance(id: &str, key: &str, port: u16, at: u64) -> Instance {
    Instance {
        session_id: id.to_string(),
        container_id: format!("headless-{}", id),
        port,
        api_key: key.to_string(),
        created_at: at,
        last_activity: at,
    }
}

fn is_v4_shape(s: &str) -> bool {
    let b: Vec<char> = s.chars().collect();
    if b.len() != 36 {
        return false;
    }
    for (i, c) in b.iter().enumerate() {
        if i == 8 || i == 13 || i == 18 || i == 23 {
            if *c != '-' {
                return false;
            }
        } else if !(c.is_ascii_digit() || ('a'..='f').contains(c)) {
            return false;
        }
    }
    b[14] == '4' && matches!(b[19], '8' | '9' | 'a' | 'b')
}

#[test]
fn new_state_has_no_sessions() {
    let st = state(100);
    assert_eq!(st.instances.len(), 0);
    assert_eq!(st.max_instances, 100);
    assert_eq!(st.idle_timeout_secs, 1800);
    assert_eq!(st.proxy_host, "127.0.0.1");
    assert!(list_sessions(&st, 0).is_empty());
}

#[test]
fn registry_insert_get_remove() {
    let mut reg = SessionRegistry::new();
    reg.insert(instance("a", "ka", 1000, 0));
    reg.insert(instance("b", "kb", 1001, 0));
    assert_eq!(reg.len(), 2);
    assert!(reg.contains("a"));
    assert_eq!(reg.get("b").unwrap().port, 1001);
    assert!(reg.get("c").is_none());
    // inserting under an existing id replaces
    reg.insert(instance("a", "ka2", 2000, 5));
    assert_eq!(reg.len(), 2);
    assert_eq!(reg.get("a").unwrap().api_key, "ka2");
    let removed = reg.remove("a").unwrap();
    assert_eq!(removed.port, 2000);
    assert!(reg.remove("a").is_none());
    assert_eq!(reg.len(), 1);
    assert!(!reg.contains("a"));
}

#[test]
fn authorize_outcomes() {
    let mut reg = SessionRegistry::new();
    reg.insert(instance("s", "key", 4242, 10));
    assert_eq!(reg.authorize("nope", Some("key"), 20).unwrap_err(), SessionError::NotFound);
    assert_eq!(reg.authorize("s", None, 20).unwrap_err(), SessionError::MissingApiKey);
    assert_eq!(reg.authorize("s", Some("other"), 20).unwrap_err(), SessionError::InvalidApiKey);
    // refused callers do not refresh the activity
    assert_eq!(reg.get("s").unwrap().last_activity, 10);
    let (port, container, key) = reg.authorize("s", Some("key"), 20).unwrap();
    assert_eq!(port, 4242);
    assert_eq!(container, "headless-s");
    assert_eq!(key, "key");
    assert_eq!(reg.get("s").unwrap().last_activity, 20);
    assert_eq!(reg.get("s").unwrap().created_at, 10);
}

#[test]
fn error_statuses_and_messages() {
    assert_eq!(SessionError::NotFound.status(), 404);
    assert_eq!(SessionError::NotFound.message(), "Session not found");
    assert_eq!(SessionError::MissingApiKey.status(), 401);
    assert_eq!(SessionError::MissingApiKey.message(), "Missing x-api-key header");
    assert_eq!(SessionError::InvalidApiKey.status(), 401);
    assert_eq!(SessionError::InvalidApiKey.message(), "Invalid api key");
    assert_eq!(SessionError::CapacityReached.status(), 503);
    assert_eq!(SessionError::CapacityReached.message(), "Maximum number of instances reached");
}

#[test]
fn capacity_is_enforced() {
    let mut st = state(2);
    assert!(st.admit_session().is_ok());
    begin_session(&mut st).unwrap();
    register_session(&mut st, instance("a", "k", 1, 0)).unwrap();
    begin_session(&mut st).unwrap();
    register_session(&mut st, instance("b", "k", 2, 0)).unwrap();
    assert_eq!(st.pending, 0);
    assert_eq!(st.admit_session().unwrap_err(), SessionError::CapacityReached);
    assert_eq!(begin_session(&mut st).unwrap_err(), SessionError::CapacityReached);
    // a registration without a reserved slot is refused at the limit
    assert_eq!(
        register_session(&mut st, instance("c", "k", 3, 0)).unwrap_err(),
        SessionError::CapacityReached
    );
    assert_eq!(st.instances.len(), 2);
}

#[test]
fn overlapping_creations_keep_the_limit() {
    let mut st = state(1);
    // two creations overlap: the second is refused while the first spawns
    let first = begin_session(&mut st).unwrap();
    assert_eq!(st.pending, 1);
    assert_eq!(begin_session(&mut st).unwrap_err(), SessionError::CapacityReached);
    register_session(&mut st, instance(&first, "k", 1, 0)).unwrap();
    assert_eq!(st.pending, 0);
    assert_eq!(st.instances.len(), 1);
    assert_eq!(begin_session(&mut st).unwrap_err(), SessionError::CapacityReached);
}

#[test]
fn failed_spawn_gives_the_slot_back() {
    let mut st = state(1);
    begin_session(&mut st).unwrap();
    assert!(begin_session(&mut st).is_err());
    abandon_session(&mut st);
    assert_eq!(st.pending, 0);
    assert!(begin_session(&mut st).is_ok());
    abandon_session(&mut st);
    abandon_session(&mut st);
    assert_eq!(st.pending, 0);
}

#[test]
fn zero_limit_means_unlimited() {
    let mut st = state(0);
    for i in 0..50u16 {
        register_session(&mut st, instance(&format!("s{}", i), "k", i, 0)).unwrap();
    }
    assert_eq!(st.instances.len(), 50);
    assert!(st.admit_session().is_ok());
    assert!(begin_session(&mut st).is_ok());
    // no slot is counted without a limit
    assert_eq!(st.pending, 0);
}

#[test]
fn session_ids_are_v4_uuids() {
    let mut st = state(0);
    let a = begin_session(&mut st).unwrap();
    let b = begin_session(&mut st).unwrap();
    assert!(is_v4_shape(&a), "{}", a);
    assert!(is_v4_shape(&b), "{}", b);
    assert_ne!(a, b);
}

#[test]
fn list_reports_port_and_idle_seconds() {
    let mut st = state(0);
    register_session(&mut st, instance("a", "k", 32768, 5 * SEC)).unwrap();
    register_session(&mut st, instance("b", "k", 32769, 10 * SEC)).unwrap();
    let mut l = list_sessions(&st, 47 * SEC + 999_999_999);
    l.sort_by(|x, y| x.session_id.cmp(&y.session_id));
    assert_eq!(l.len(), 2);
    assert_eq!(l[0].session_id, "a");
    assert_eq!(l[0].port, 32768);
    assert_eq!(l[0].idle_secs, 42);
    assert_eq!(l[1].session_id, "b");
    assert_eq!(l[1].idle_secs, 37);
    // a clock reading before the last activity counts as no idleness
    let l = list_sessions(&st, 0);
    assert!(l.iter().all(|s| s.idle_secs == 0));
}

#[test]
fn reaper_removes_exactly_the_expired() {
    let mut st = state(0);
    st.idle_timeout_secs = 1800;
    register_session(&mut st, instance("old", "k", 1, 0)).unwrap();
    register_session(&mut st, instance("edge", "k", 2, 200 * SEC)).unwrap();
    register_session(&mut st, instance("fresh", "k", 3, 1000 * SEC)).unwrap();
    let now = 2000 * SEC;
    // "old" idle 2000 s > 1800 s; "edge" idle exactly 1800 s is kept
    let expired = st.instances.expired_sessions(now, 1800);
    assert_eq!(expired, vec!["old".to_string()]);
    let reaped = st.reap_idle(now);
    assert_eq!(reaped, vec!["old".to_string()]);
    assert!(!st.instances.contains("old"));
    assert!(st.instances.contains("edge"));
    assert!(st.instances.contains("fresh"));
    let reaped = st.reap_idle(now + 1);
    assert_eq!(reaped, vec!["edge".to_string()]);
    assert_eq!(st.instances.len(), 1);
}

#[test]
fn recent_activity_protects_from_reaping() {
    let mut st = state(0);
    register_session(&mut st, instance("s", "k", 1, 0)).unwrap();
    assert!(authorize_session(&mut st, "s", Some("k"), 5000 * SEC).is_ok());
    assert!(st.reap_idle(5000 * SEC).is_empty());
    assert!(st.instances.contains("s"));
}

#[test]
fn test_session_lifecycle() {
    let mut st = state(100);
    let id = begin_session(&mut st).unwrap();
    assert!(!id.is_empty());
    let plan = plan_spawn(&st, &id, 32768);
    let key = plan.api_key.clone();
    assert!(!key.is_empty());
    let inst = spawned_instance(&id, 32768, plan.api_key, 7);
    assert_eq!(inst.container_id, format!("headless-{}", id));
    register_session(&mut st, inst).unwrap();
    let listed = list_sessions(&st, 7);
    assert!(listed.iter().any(|s| s.session_id == id), "Session not found in list");

    // without the key the session cannot be destroyed
    assert_eq!(destroy_session(&mut st, &id, None, 8).unwrap_err(), SessionError::MissingApiKey);
    assert_eq!(
        destroy_session(&mut st, &id, Some("guess"), 8).unwrap_err(),
        SessionError::InvalidApiKey
    );
    assert!(st.instances.contains(&id));

    assert!(authorize_session(&mut st, &id, Some(&key), 8).is_ok());
    let gone = destroy_session(&mut st, &id, Some(&key), 9).unwrap();
    assert_eq!(gone.session_id, id);
    assert_eq!(gone.last_activity, 9);
    let listed = list_sessions(&st, 10);
    assert!(!listed.iter().any(|s| s.session_id == id), "Session should have been destroyed");
    assert_eq!(
        destroy_session(&mut st, &id, Some(&key), 11).unwrap_err(),
        SessionError::NotFound
    );
    assert_eq!(
        authorize_session(&mut st, &id, Some(&key), 12).unwrap_err(),
        SessionError::NotFound
    );
}

#[test]
fn a_working_key_keeps_working() {
    let mut st = state(0);
    register_session(&mut st, instance("s", "k", 1, 0)).unwrap();
    assert!(authorize_session(&mut st, "s", Some("k"), 1).is_ok());
    assert!(authorize_session(&mut st, "s", Some("k"), 2).is_ok());
    assert_eq!(st.instances.get("s").unwrap().last_activity, 2);
}

#[test]
fn other_sessions_are_untouched() {
    let mut st = state(0);
    register_session(&mut st, instance("a", "ka", 1, 3)).unwrap();
    register_session(&mut st, instance("b", "kb", 2, 4)).unwrap();
    assert!(authorize_session(&mut st, "a", Some("ka"), 9).is_ok());
    assert_eq!(st.instances.get("b").unwrap().last_activity, 4);
    assert!(destroy_session(&mut st, "a", Some("ka"), 10).is_ok());
    let b = st.instances.get("b").unwrap();
    assert_eq!((b.port, b.last_activity, b.api_key.as_str()), (2, 4, "kb"));
}
