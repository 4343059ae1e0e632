//! Planning of wallet-headless containers: names, configuration, the
//! readiness probe and the messages of failed spawns.
use vstd::prelude::*;
use vstd::string::*;

use crate::state::{AppState, Instance, InstanceView};
use crate::text::{decimal, decimal_text};
use crate::token::{is_v4_token, random_token};

verus! {

/// How many one-second readiness probes a new container gets.
pub const PROBE_ATTEMPTS: u32 = 30;

/// Seconds between two rounds of the idle reaper.
pub const REAP_INTERVAL_SECS: u64 = 60;

/// The views of a sequence of strings.
pub open spec fn texts(v: Seq<String>) -> Seq<Seq<char>> {
    v.map_values(|s: String| s@)
}

/// The views of a sequence of string pairs.
pub open spec fn pair_texts(v: Seq<(String, String)>) -> Seq<(Seq<char>, Seq<char>)> {
    v.map_values(|p: (String, String)| (p.0@, p.1@))
}

/// The view of an optional string.
pub open spec fn opt_text(o: Option<String>) -> Option<Seq<char>> {
    match o {
        Some(s) => Some(s@),
        None => None,
    }
}

/// The name of a session's container: `headless-` and the session id.
pub open spec fn container_name_text(session_id: Seq<char>) -> Seq<char> {
    "headless-"@ + session_id
}

/// The name of the container that serves a session.
pub fn container_name(session_id: &str) -> (r: String)
    ensures
        r@ == container_name_text(session_id@),
{
    String::from_str("headless-").concat(session_id)
}

/// The environment of a wallet-headless container.
pub open spec fn container_env_text(
    network: Seq<char>,
    fullnode_url: Seq<char>,
    api_key: Seq<char>,
    tx_mining_url: Option<Seq<char>>,
) -> Seq<Seq<char>> {
    let base = seq![
        "HEADLESS_HTTP_BIND=0.0.0.0"@,
        "HEADLESS_HTTP_PORT=8000"@,
        "HEADLESS_NETWORK="@ + network,
        "HEADLESS_SERVER="@ + fullnode_url,
        "HEADLESS_API_KEY="@ + api_key,
        "HEADLESS_SEED_DEFAULT=abandon abandon abandon abandon abandon abandon abandon abandon abandon abandon abandon about"@,
    ];
    match tx_mining_url {
        Some(u) => base.push("HEADLESS_TX_MINING_URL="@ + u),
        None => base,
    }
}

/// What Docker is asked to create for a session.
#[derive(Debug)]
pub struct ContainerSpec {
    /// Container name
    pub name: String,
    /// Image to run
    pub image: String,
    /// Entrypoint command
    pub entrypoint: Vec<String>,
    /// `KEY=value` environment entries
    pub env: Vec<String>,
    /// The container port, as `port/tcp`
    pub exposed_port: String,
    /// Host address the container port is published on
    pub host_ip: String,
    /// Host port the container port is published on
    pub host_port: String,
    /// Extra `/etc/hosts` entries
    pub extra_hosts: Vec<String>,
    /// Docker network to attach to, if any
    pub network: Option<String>,
    /// Container labels
    pub labels: Vec<(String, String)>,
}

/// What a container spec must hold for a session (see `container_spec`).
pub open spec fn is_container_spec_for(
    c: ContainerSpec,
    state: AppState,
    session_id: Seq<char>,
    host_port: u16,
    api_key: Seq<char>,
) -> bool {
    &&& c.name@ == container_name_text(session_id)
    &&& c.image@ == state.headless_image@
    &&& texts(c.entrypoint@) == seq!["node"@, "dist/index.js"@]
    &&& texts(c.env@) == container_env_text(
        state.network@,
        state.fullnode_url@,
        api_key,
        opt_text(state.tx_mining_url),
    )
    &&& c.exposed_port@ == "8000/tcp"@
    &&& c.host_ip@ == "127.0.0.1"@
    &&& c.host_port@ == decimal_text(host_port as nat)
    &&& texts(c.extra_hosts@) == seq!["host.docker.internal:host-gateway"@]
    &&& opt_text(c.network) == opt_text(state.docker_network)
    &&& pair_texts(c.labels@) == seq![
        ("managed-by"@, "headless-orchestrator"@),
        ("session-id"@, session_id),
    ]
}

fn clone_opt(o: &Option<String>) -> (r: Option<String>)
    ensures
        opt_text(r) == opt_text(*o),
{
    match o {
        Some(s) => Some(s.clone()),
        None => None,
    }
}

/// The container configuration for a session whose container port is
/// published on `host_port` and which accepts `api_key`.
pub fn container_spec(state: &AppState, session_id: &str, host_port: u16, api_key: &str) -> (r:
    ContainerSpec)
    ensures
        is_container_spec_for(r, *state, session_id@, host_port, api_key@),
{
    let mut entrypoint: Vec<String> = Vec::new();
    entrypoint.push(String::from_str("node"));
    entrypoint.push(String::from_str("dist/index.js"));

    let mut env: Vec<String> = Vec::new();
    env.push(String::from_str("HEADLESS_HTTP_BIND=0.0.0.0"));
    env.push(String::from_str("HEADLESS_HTTP_PORT=8000"));
    env.push(String::from_str("HEADLESS_NETWORK=").concat(state.network.as_str()));
    env.push(String::from_str("HEADLESS_SERVER=").concat(state.fullnode_url.as_str()));
    env.push(String::from_str("HEADLESS_API_KEY=").concat(api_key));
    env.push(
        String::from_str(
            "HEADLESS_SEED_DEFAULT=abandon abandon abandon abandon abandon abandon abandon abandon abandon abandon abandon about",
        ),
    );
    match &state.tx_mining_url {
        Some(u) => {
            env.push(String::from_str("HEADLESS_TX_MINING_URL=").concat(u.as_str()));
        },
        None => {},
    }

    let mut extra_hosts: Vec<String> = Vec::new();
    extra_hosts.push(String::from_str("host.docker.internal:host-gateway"));

    let mut labels: Vec<(String, String)> = Vec::new();
    labels.push((String::from_str("managed-by"), String::from_str("headless-orchestrator")));
    labels.push((String::from_str("session-id"), String::from_str(session_id)));

    let r = ContainerSpec {
        name: container_name(session_id),
        image: state.headless_image.clone(),
        entrypoint,
        env,
        exposed_port: String::from_str("8000/tcp"),
        host_ip: String::from_str("127.0.0.1"),
        host_port: decimal(host_port as u64),
        extra_hosts,
        network: clone_opt(&state.docker_network),
        labels,
    };
    proof {
        assert(texts(r.entrypoint@) =~= seq!["node"@, "dist/index.js"@]);
        assert(texts(r.env@) =~= container_env_text(
            state.network@,
            state.fullnode_url@,
            api_key@,
            opt_text(state.tx_mining_url),
        ));
        assert(texts(r.extra_hosts@) =~= seq!["host.docker.internal:host-gateway"@]);
        assert(pair_texts(r.labels@) =~= seq![
            ("managed-by"@, "headless-orchestrator"@),
            ("session-id"@, session_id@),
        ]);
    }
    r
}

/// A container plan and the api key it was made with.
#[derive(Debug)]
pub struct SpawnPlan {
    pub spec: ContainerSpec,
    pub api_key: String,
}

/// Draws a fresh api key for a new session and plans its container.
pub fn plan_spawn(state: &AppState, session_id: &str, host_port: u16) -> (r: SpawnPlan)
    ensures
        is_v4_token(r.api_key@),
        is_container_spec_for(r.spec, *state, session_id@, host_port, r.api_key@),
{
    let api_key = random_token();
    let spec = container_spec(state, session_id, host_port, api_key.as_str());
    SpawnPlan { spec, api_key }
}

/// The record of a session whose container has come up, created at `now`.
pub fn spawned_instance(session_id: &str, host_port: u16, api_key: String, now: u64) -> (r:
    Instance)
    ensures
        r@ == (InstanceView {
            session_id: session_id@,
            container_id: container_name_text(session_id@),
            port: host_port,
            api_key: api_key@,
            created_at: now,
            last_activity: now,
        }),
{
    Instance {
        session_id: String::from_str(session_id),
        container_id: container_name(session_id),
        port: host_port,
        api_key,
        created_at: now,
        last_activity: now,
    }
}

/// The address probed for readiness: the wallet status endpoint on the
/// published host port.
pub open spec fn probe_url_text(host_port: u16) -> Seq<char> {
    "http://127.0.0.1:"@ + decimal_text(host_port as nat) + "/wallet/status"@
}

/// The readiness probe's URL.
pub fn probe_url(host_port: u16) -> (r: String)
    ensures
        r@ == probe_url_text(host_port),
{
    String::from_str("http://127.0.0.1:").concat(decimal(host_port as u64).as_str()).concat(
        "/wallet/status",
    )
}

/// The readiness probe's headers.
pub fn probe_headers(api_key: &str) -> (r: Vec<(String, String)>)
    ensures
        pair_texts(r@) == seq![("X-Wallet-Id"@, "probe"@), ("x-api-key"@, api_key@)],
{
    let mut r: Vec<(String, String)> = Vec::new();
    r.push((String::from_str("X-Wallet-Id"), String::from_str("probe")));
    r.push((String::from_str("x-api-key"), String::from_str(api_key)));
    assert(pair_texts(r@) =~= seq![("X-Wallet-Id"@, "probe"@), ("x-api-key"@, api_key@)]);
    r
}

/// What to do after a readiness probe.
#[derive(Debug, Clone, Copy, PartialEq, Eq, Structural)]
pub enum ProbeStep {
    /// Wait a second and probe again.
    ProbeAgain,
    /// The instance answered: it is ready.
    Ready,
    /// Every probe went unanswered: remove the container and fail.
    GiveUp,
}

/// Whether a probe outcome shows the server up: any HTTP response does.
pub open spec fn answered(response_status: Option<u16>) -> bool {
    match response_status {
        Some(code) => code > 0,
        None => false,
    }
}

/// The readiness probe of a freshly started container: up to
/// `PROBE_ATTEMPTS` probes, one second apart.
#[derive(Debug)]
pub struct ReadinessProbe {
    /// Probes made so far
    pub attempts: u32,
}

impl ReadinessProbe {
    /// A probe that has made no attempt yet.
    pub fn new() -> (r: Self)
        ensures
            r.attempts == 0,
    {
        ReadinessProbe { attempts: 0 }
    }

    /// Records the outcome of one probe (`None` when no HTTP response came
    /// back) and says what to do next.
    pub fn record(&mut self, response_status: Option<u16>) -> (step: ProbeStep)
        requires
            old(self).attempts < PROBE_ATTEMPTS,
        ensures
            final(self).attempts == old(self).attempts + 1,
            step == (if answered(response_status) {
                ProbeStep::Ready
            } else if final(self).attempts >= PROBE_ATTEMPTS {
                ProbeStep::GiveUp
            } else {
                ProbeStep::ProbeAgain
            }),
    {
        self.attempts = self.attempts + 1;
        let up = match response_status {
            Some(code) => code > 0,
            None => false,
        };
        if up {
            ProbeStep::Ready
        } else if self.attempts >= PROBE_ATTEMPTS {
            ProbeStep::GiveUp
        } else {
            ProbeStep::ProbeAgain
        }
    }
}

/// Why a container could not be brought up; the strings hold the outside
/// error's text.
#[derive(Debug)]
pub enum SpawnError {
    DockerConnect(String),
    PortBind(String),
    LocalAddr(String),
    CreateContainer(String),
    StartContainer(String),
    NotHealthy,
}

/// The message with which a failed spawn is reported.
pub open spec fn spawn_error_text(e: SpawnError) -> Seq<char> {
    match e {
        SpawnError::DockerConnect(d) => "Docker connect: "@ + d@,
        SpawnError::PortBind(d) => "Failed to find free port: "@ + d@,
        SpawnError::LocalAddr(d) => "Failed to get local addr: "@ + d@,
        SpawnError::CreateContainer(d) => "Failed to create container: "@ + d@,
        SpawnError::StartContainer(d) => "Failed to start container: "@ + d@,
        SpawnError::NotHealthy => "Container started but wallet-headless didn't become healthy within 30s"@,
    }
}

impl SpawnError {
    /// The message of this failure.
    pub fn message(&self) -> (r: String)
        ensures
            r@ == spawn_error_text(*self),
    {
        match self {
            SpawnError::DockerConnect(d) => String::from_str("Docker connect: ").concat(d.as_str()),
            SpawnError::PortBind(d) => String::from_str("Failed to find free port: ").concat(
                d.as_str(),
            ),
            SpawnError::LocalAddr(d) => String::from_str("Failed to get local addr: ").concat(
                d.as_str(),
            ),
            SpawnError::CreateContainer(d) => String::from_str(
                "Failed to create container: ",
            ).concat(d.as_str()),
            SpawnError::StartContainer(d) => String::from_str(
                "Failed to start container: ",
            ).concat(d.as_str()),
            SpawnError::NotHealthy => String::from_str(
                "Container started but wallet-headless didn't become healthy within 30s",
            ),
        }
    }
}

/// The message with which a failed container removal is reported.
pub open spec fn removal_error_text(session_id: Seq<char>, detail: Seq<char>) -> Seq<char> {
    "Failed to remove container "@ + container_name_text(session_id) + ": "@ + detail
}

/// The message of a failed container removal.
pub fn removal_error_message(session_id: &str, detail: &str) -> (r: String)
    ensures
        r@ == removal_error_text(session_id@, detail@),
{
    let r = String::from_str("Failed to remove container ").concat(
        container_name(session_id).as_str(),
    ).concat(": ").concat(detail);
    assert(r@ =~= removal_error_text(session_id@, detail@));
    r
}

} // verus!
