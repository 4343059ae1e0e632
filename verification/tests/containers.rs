use headless_orchestrator::docker::{
    container_name, container_spec, plan_spawn, probe_headers, probe_url, removal_error_message,
    spawned_instance, ProbeStep, ReadinessProbe, SpawnError, PROBE_ATTEMPTS, REAP_INTERVAL_SECS,
};
use headless_orchestrator::state::AppState;

fn state(tx: Option<&str>, docker_network: Option<&str>) -> AppState {
    AppState::new(
        "http://host.docker.internal:8080/v1a/".to_string(),
        tx.map(|s| s.to_string()),
        "privatenet".to_string(),
        "hathornetwork/hathor-wallet-headless:latest".to_string(),
        docker_network.map(|s| s.to_string()),
        100,
        1800,
        "127.0.0.1".to_string(),
    )
}

const SEED: &str = "HEADLESS_SEED_DEFAULT=abandon abandon abandon abandon abandon abandon abandon abandon abandon abandon abandon about";

#[test]
fn container_names_carry_the_session() {
    assert_eq!(container_name("abc-123"), "headless-abc-123");
    assert_ne!(container_name("a"), container_name("b"));
}

#[test]
fn container_spec_without_options() {
    let st = state(None, None);
    let c = container_spec(&st, "abc", 32768, "KEY");
    assert_eq!(c.name, "headless-abc");
    assert_eq!(c.image, "hathornetwork/hathor-wallet-headless:latest");
    assert_eq!(c.entrypoint, vec!["node".to_string(), "dist/index.js".to_string()]);
    assert_eq!(
        c.env,
        vec![
            "HEADLESS_HTTP_BIND=0.0.0.0".to_string(),
            "HEADLESS_HTTP_PORT=8000".to_string(),
            "HEADLESS_NETWORK=privatenet".to_string(),
            "HEADLESS_SERVER=http://host.docker.internal:8080/v1a/".to_string(),
            "HEADLESS_API_KEY=KEY".to_string(),
            SEED.to_string(),
        ]
    );
    assert_eq!(c.exposed_port, "8000/tcp");
    assert_eq!(c.host_ip, "127.0.0.1");
    assert_eq!(c.host_port, "32768");
    assert_eq!(c.extra_hosts, vec!["host.docker.internal:host-gateway".to_string()]);
    assert_eq!(c.network, None);
    assert_eq!(
        c.labels,
        vec![
            ("managed-by".to_string(), "headless-orchestrator".to_string()),
            ("session-id".to_string(), "abc".to_string()),
        ]
    );
}

#[test]
fn container_spec_with_tx_mining_and_network() {
    let st = state(Some("http://host.docker.internal:8002"), Some("hathor-net"));
    let c = container_spec(&st, "s", 9, "k");
    assert_eq!(c.env.len(), 7);
    assert_eq!(c.env[6], "HEADLESS_TX_MINING_URL=http://host.docker.internal:8002");
    assert_eq!(c.network, Some("hathor-net".to_string()));
    assert_eq!(c.host_port, "9");
}

#[test]
fn spawn_plan_draws_a_fresh_key() {
    let st = state(None, None);
    let p1 = plan_spawn(&st, "s", 40000);
    let p2 = plan_spawn(&st, "s", 40000);
    assert_eq!(p1.api_key.len(), 36);
    assert_eq!(p1.api_key.chars().nth(14), Some('4'));
    assert_ne!(p1.api_key, p2.api_key);
    assert_eq!(p1.spec.env[4], format!("HEADLESS_API_KEY={}", p1.api_key));
    assert_eq!(p1.spec.host_port, "40000");
}

#[test]
fn spawned_instance_record() {
    let i = spawned_instance("sid", 65535, "k".to_string(), 77);
    assert_eq!(i.session_id, "sid");
    assert_eq!(i.container_id, "headless-sid");
    assert_eq!(i.port, 65535);
    assert_eq!(i.api_key, "k");
    assert_eq!(i.created_at, 77);
    assert_eq!(i.last_activity, 77);
}

#[test]
fn probe_request_shape() {
    assert_eq!(probe_url(32768), "http://127.0.0.1:32768/wallet/status");
    assert_eq!(probe_url(0), "http://127.0.0.1:0/wallet/status");
    assert_eq!(
        probe_headers("K"),
        vec![
            ("X-Wallet-Id".to_string(), "probe".to_string()),
            ("x-api-key".to_string(), "K".to_string()),
        ]
    );
}

#[test]
fn readiness_gives_up_after_all_attempts() {
    assert_eq!(PROBE_ATTEMPTS, 30);
    let mut p = ReadinessProbe::new();
    for _ in 0..29 {
        assert_eq!(p.record(None), ProbeStep::ProbeAgain);
    }
    assert_eq!(p.record(None), ProbeStep::GiveUp);
    assert_eq!(p.attempts, 30);
}

#[test]
fn readiness_on_any_response() {
    let mut p = ReadinessProbe::new();
    assert_eq!(p.record(None), ProbeStep::ProbeAgain);
    assert_eq!(p.record(Some(404)), ProbeStep::Ready);
    let mut p = ReadinessProbe::new();
    for _ in 0..29 {
        p.record(None);
    }
    assert_eq!(p.record(Some(200)), ProbeStep::Ready);
}

#[test]
fn spawn_error_messages() {
    assert_eq!(SpawnError::DockerConnect("x".into()).message(), "Docker connect: x");
    assert_eq!(SpawnError::PortBind("x".into()).message(), "Failed to find free port: x");
    assert_eq!(SpawnError::LocalAddr("x".into()).message(), "Failed to get local addr: x");
    assert_eq!(SpawnError::CreateContainer("x".into()).message(), "Failed to create container: x");
    assert_eq!(SpawnError::StartContainer("x".into()).message(), "Failed to start container: x");
    assert_eq!(
        SpawnError::NotHealthy.message(),
        "Container started but wallet-headless didn't become healthy within 30s"
    );
    assert_eq!(
        removal_error_message("abc", "gone"),
        "Failed to remove container headless-abc: gone"
    );
    assert_eq!(REAP_INTERVAL_SECS, 60);
}
