//! What a server decides on its way up, and what its background work records.

use crate::address::is_loopback;
use crate::alerts::AlertRule;
use crate::auth::{AuthMode, KeyStore};
use crate::config::{ServerConfig, StorageBackend, StoreLocation, DEFAULT_DD_AGENT_ADDR};
use crate::labels::Labels;
use crate::metrics::{point_views, MetricPoint, MetricType, PointModel};
use crate::scoring::ScoreLine;
use crate::text::{begins_with, chars, has_prefix, opt_text, rfind, rfind_char, same, text, texts};
use crate::time::{Instant, Timestamp};
use vstd::prelude::*;

verus! {

// ── Running ─────────────────────────────────────────────────────────

/// Output that the server owns directly.
#[derive(Debug, Clone, Copy, PartialEq, Eq, Structural)]
pub enum ServerOutputMode {
    /// Install a tracing subscriber when possible and print the startup
    /// banner.
    Default,
    /// Install no tracing subscriber and print no banner.
    Quiet,
}

/// Options for running the server beyond its settings.
#[derive(Debug, Clone, Copy, PartialEq, Eq, Structural)]
pub struct ServerRunOptions {
    pub output: ServerOutputMode,
}

impl Default for ServerRunOptions {
    fn default() -> (r: Self)
        ensures
            r.output == ServerOutputMode::Default,
    {
        ServerRunOptions { output: ServerOutputMode::Default }
    }
}

impl ServerRunOptions {
    /// Quiet options, for embedding the server inside another process.
    pub fn quiet() -> (r: Self)
        ensures
            r.output == ServerOutputMode::Quiet,
    {
        ServerRunOptions { output: ServerOutputMode::Quiet }
    }

    pub fn is_quiet(self) -> (r: bool)
        ensures
            r == (self.output == ServerOutputMode::Quiet),
    {
        match self.output {
            ServerOutputMode::Quiet => true,
            ServerOutputMode::Default => false,
        }
    }
}

// ── Collecting blobs ────────────────────────────────────────────────

/// Whether this node may collect the blobs that no row refers to.
///
/// On a shared store a node that collects on its own would delete blobs that
/// other shards still refer to, so exactly one owner must do it.
#[derive(Debug, Clone, Copy, PartialEq, Eq, Structural)]
pub enum BlobGcOwnership {
    /// Node-local store, or the designated owner of a shared one.
    Always,
    /// Shared store, no cluster, not the designated owner.
    Never,
    /// Shared store in a coordinated cluster: only while leader.
    Leader,
}

impl BlobGcOwnership {
    /// Who collects: on a store that is `shared`, in a cluster that is
    /// `coordinated`, on a node that is `designated` for it.
    pub open spec fn of(shared: bool, coordinated: bool, designated: bool) -> BlobGcOwnership {
        if !shared {
            BlobGcOwnership::Always
        } else if coordinated {
            BlobGcOwnership::Leader
        } else if designated {
            BlobGcOwnership::Always
        } else {
            BlobGcOwnership::Never
        }
    }

    pub open spec fn allows(self, leader: bool) -> bool {
        match self {
            BlobGcOwnership::Always => true,
            BlobGcOwnership::Never => false,
            BlobGcOwnership::Leader => leader,
        }
    }

    /// Who collects the blobs of a configured server.
    pub fn resolve(config: &ServerConfig) -> (r: BlobGcOwnership)
        ensures
            r == BlobGcOwnership::of(
                config.object_store.blobs == StoreLocation::Gcs,
                config.cluster is Some,
                config.object_store.blob_gc_coordinator,
            ),
    {
        if !config.object_store.blobs_shared() {
            BlobGcOwnership::Always
        } else if config.cluster.is_some() {
            BlobGcOwnership::Leader
        } else if config.object_store.blob_gc_coordinator {
            BlobGcOwnership::Always
        } else {
            BlobGcOwnership::Never
        }
    }

    /// Whether a pass may collect. Asked in every pass, so that the ownership
    /// follows the leadership.
    pub fn may_gc(self, leader: bool) -> (r: bool)
        ensures
            r == self.allows(leader),
    {
        match self {
            BlobGcOwnership::Always => true,
            BlobGcOwnership::Never => false,
            BlobGcOwnership::Leader => leader,
        }
    }
}

/// In a coordinated cluster on a shared store a node collects exactly while it
/// leads, whatever else it was told.
pub proof fn only_the_leader_collects(designated: bool, leader: bool)
    ensures
        BlobGcOwnership::of(true, true, designated).allows(leader) == leader,
{
}

/// Without a cluster, nobody collects a shared store but the node designated
/// for it.
pub proof fn a_shared_store_has_a_designated_owner(designated: bool, leader: bool)
    ensures
        BlobGcOwnership::of(true, false, designated).allows(leader) == designated,
{
}

// ── Storage ─────────────────────────────────────────────────────────

/// Where reads are served from.
#[derive(Debug, Clone, Copy, PartialEq, Eq, Structural)]
pub enum Engine {
    /// No engine of its own: reads go out to remote shards.
    Fanout,
    DuckDb,
    Tael,
}

/// The engine asked for is not part of this build.
#[derive(Debug, Clone, Copy, PartialEq, Eq, Structural)]
pub struct MissingEngine;

impl MissingEngine {
    pub fn message(self) -> (r: String)
        ensures
            r@
                == "DuckDB storage is not included in this build; reinstall with `--features duckdb` to use --storage duckdb"@,
    {
        "DuckDB storage is not included in this build; reinstall with `--features duckdb` to use --storage duckdb".to_owned()
    }
}

/// The engine that settings ask for. Shards to query come first: a node that
/// has some is a query tier, whatever storage it names.
pub fn choose_engine(config: &ServerConfig, has_duckdb: bool) -> (r: Result<Engine, MissingEngine>)
    ensures
        r == (if config.query_shards@.len() > 0 {
            Ok(Engine::Fanout)
        } else if config.storage == StorageBackend::TaelBackend {
            Ok(Engine::Tael)
        } else if has_duckdb {
            Ok(Engine::DuckDb)
        } else {
            Err(MissingEngine)
        }),
        r == engine_for(config.query_shards@.len() > 0, config.storage, has_duckdb),
{
    if config.query_shards.len() > 0 {
        return Ok(Engine::Fanout);
    }
    match config.storage {
        StorageBackend::TaelBackend => Ok(Engine::Tael),
        StorageBackend::Duckdb => {
            if has_duckdb {
                Ok(Engine::DuckDb)
            } else {
                Err(MissingEngine)
            }
        },
    }
}

// ── Authentication ──────────────────────────────────────────────────

/// The addresses that a server listens on. A REST listener on a Unix socket is
/// scoped by the file system and widens no reach.
pub open spec fn listeners(c: ServerConfig) -> Seq<Seq<char>> {
    let a = seq![c.otlp_grpc_addr@];
    let b = if c.rest_api_socket is None {
        a.push(c.rest_api_addr@)
    } else {
        a
    };
    let d = match c.otlp_http_addr {
        Some(addr) => b.push(addr@),
        None => b,
    };
    match c.dd_agent_addr {
        Some(addr) => d.push(addr@),
        None => d,
    }
}

/// The mode that holds for a server.
pub open spec fn server_mode(c: ServerConfig) -> AuthMode {
    match c.auth {
        Some(mode) => mode,
        None => if forall|i: int|
            0 <= i < listeners(c).len() ==> is_loopback(#[trigger] listeners(c)[i]) {
            AuthMode::Off
        } else {
            AuthMode::Required
        },
    }
}

/// Whether an address does not look like one of this machine.
pub open spec fn looks_remote(addr: Seq<char>) -> bool {
    !has_prefix(addr, "127.0.0.1"@) && !has_prefix(addr, "localhost"@)
}

/// The first address that does not look like one of this machine.
pub open spec fn first_remote(addrs: Seq<Seq<char>>) -> Seq<char>
    decreases addrs.len(),
{
    if addrs.len() == 0 {
        "non-loopback"@
    } else if looks_remote(addrs[0]) {
        addrs[0]
    } else {
        first_remote(addrs.drop_first())
    }
}

/// A server that demands keys and has none.
#[derive(Debug)]
pub struct NoKeys {
    /// An address that it would be reached at.
    pub listener: String,
    pub data_dir: String,
}

impl NoKeys {
    /// Names both ways out, whichever one an operator wants.
    pub fn message(&self) -> (r: String)
        ensures
            r@
                == "refusing to start: this server listens on a non-loopback address ("@
                + self.listener@
                + ") but has no API keys, so it would accept telemetry and serve queries to anyone who can reach it.\n\nCreate a key:\n  tael auth create-key --name my-agent --role writer --data-dir "@
                + self.data_dir@
                + "\n\nOr accept an unauthenticated listener explicitly (e.g. when the port is already firewalled or bound inside a container):\n  tael serve --auth off"@,
    {
        let mut out = "refusing to start: this server listens on a non-loopback address (".to_owned();
        out.append(self.listener.as_str());
        out.append(
            ") but has no API keys, so it would accept telemetry and serve queries to anyone who can reach it.\n\nCreate a key:\n  tael auth create-key --name my-agent --role writer --data-dir ",
        );
        out.append(self.data_dir.as_str());
        out.append(
            "\n\nOr accept an unauthenticated listener explicitly (e.g. when the port is already firewalled or bound inside a container):\n  tael serve --auth off",
        );
        out
    }
}

fn remote_listener(addrs: &Vec<&str>) -> (r: String)
    ensures
        r@ == first_remote(addrs@.map_values(|a: &str| a@)),
{
    let ghost all = addrs@.map_values(|a: &str| a@);
    let mut i: usize = 0;
    assert(all.skip(0) =~= all);
    while i < addrs.len()
        invariant
            i <= addrs@.len(),
            all == addrs@.map_values(|a: &str| a@),
            first_remote(all) == first_remote(all.skip(i as int)),
        decreases addrs@.len() - i,
    {
        let a: &str = addrs[i];
        assert(all.skip(i as int)[0] == a@);
        if !begins_with(a, "127.0.0.1") && !begins_with(a, "localhost") {
            return a.to_owned();
        }
        assert(all.skip(i as int).drop_first() =~= all.skip(i as int + 1));
        i = i + 1;
    }
    "non-loopback".to_owned()
}

/// Settle the mode that a server runs under, and refuse to start one that
/// demands keys and has none: it would publish an open telemetry store.
pub fn setup_auth(config: &ServerConfig, keys: &KeyStore) -> (r: Result<AuthMode, NoKeys>)
    ensures
        match r {
            Ok(mode) => {
                &&& mode == server_mode(*config)
                &&& mode == AuthMode::Required ==> exists|i: int|
                    0 <= i < keys.keys@.len() && (#[trigger] keys.keys@[i]).active()
            },
            Err(e) => {
                &&& server_mode(*config) == AuthMode::Required
                &&& forall|i: int| 0 <= i < keys.keys@.len() ==> !(#[trigger] keys.keys@[i]).active()
                &&& e.listener@ == first_remote(listeners(*config))
                &&& e.data_dir@ == config.data_dir@
            },
        },
{
    let mut addrs: Vec<&str> = Vec::new();
    addrs.push(config.otlp_grpc_addr.as_str());
    if config.rest_api_socket.is_none() {
        addrs.push(config.rest_api_addr.as_str());
    }
    if let Some(addr) = &config.otlp_http_addr {
        addrs.push(addr.as_str());
    }
    if let Some(addr) = &config.dd_agent_addr {
        addrs.push(addr.as_str());
    }
    proof {
        assert(addrs@.map_values(|a: &str| a@) =~= listeners(*config));
        assert forall|i: int| 0 <= i < addrs@.len() implies (#[trigger] addrs@[i])@ == listeners(
            *config,
        )[i] by {
            assert(addrs@.map_values(|a: &str| a@)[i] == addrs@[i]@);
        }
        if forall|i: int| 0 <= i < addrs@.len() ==> is_loopback((#[trigger] addrs@[i])@) {
            assert forall|i: int| 0 <= i < listeners(*config).len() implies is_loopback(
                #[trigger] listeners(*config)[i],
            ) by {
                assert(is_loopback(addrs@[i]@));
            }
        }
        if forall|i: int|
            0 <= i < listeners(*config).len() ==> is_loopback(#[trigger] listeners(*config)[i]) {
            assert forall|i: int| 0 <= i < addrs@.len() implies is_loopback(
                (#[trigger] addrs@[i])@,
            ) by {
                assert(is_loopback(listeners(*config)[i]));
            }
        }
    }
    let mode = AuthMode::resolve(config.auth, addrs.as_slice());
    match mode {
        AuthMode::Required => {
            if !keys.has_active_keys() {
                return Err(
                    NoKeys {
                        listener: remote_listener(&addrs),
                        data_dir: config.data_dir.clone(),
                    },
                );
            }
        },
        AuthMode::Off => {},
    }
    Ok(mode)
}

/// A server that can be reached from off the machine and was not told to go
/// without authentication runs under it.
pub proof fn reachable_servers_demand_keys(c: ServerConfig, i: int)
    requires
        c.auth is None,
        0 <= i < listeners(c).len(),
        !is_loopback(listeners(c)[i]),
    ensures
        server_mode(c) == AuthMode::Required,
{
}

// ── Addresses ───────────────────────────────────────────────────────

/// The URL of the REST listener.
pub open spec fn rest_url(c: ServerConfig) -> Seq<char> {
    match c.rest_api_socket {
        Some(socket) => "unix://"@ + socket@,
        None => "http://"@ + c.rest_api_addr@,
    }
}

/// Where the REST listener is reached.
pub fn rest_endpoint_label(config: &ServerConfig) -> (r: String)
    ensures
        r@ == rest_url(*config),
{
    match &config.rest_api_socket {
        Some(socket) => {
            let mut out = "unix://".to_owned();
            out.append(socket.as_str());
            out
        },
        None => {
            let mut out = "http://".to_owned();
            out.append(config.rest_api_addr.as_str());
            out
        },
    }
}

/// The agent URL that reaches the REST listener, where the trace-agent
/// endpoints are mounted too. dd-trace clients accept `http://` and `unix://`
/// alike.
pub fn dd_agent_url(config: &ServerConfig) -> (r: String)
    ensures
        r@ == rest_url(*config),
{
    rest_endpoint_label(config)
}

/// Whether a host is the one that clients connect to when told nothing else.
pub open spec fn is_local_host(host: Seq<char>) -> bool {
    host == "127.0.0.1"@
}

/// The flag by which a client reaches the REST listener.
pub open spec fn connect_flag(c: ServerConfig) -> Seq<char> {
    match c.rest_api_socket {
        Some(socket) => " --unix-socket "@ + socket@,
        None => {
            let addr = c.rest_api_addr@;
            match rfind_char(addr, ':') {
                None => " --server http://"@ + addr,
                Some(i) => if !is_local_host(addr.take(i)) {
                    " --server http://"@ + addr
                } else if addr.skip(i + 1) == "7701"@ {
                    Seq::empty()
                } else {
                    " --port-rest "@ + addr.skip(i + 1)
                },
            }
        },
    }
}

/// The flag (if any) that a client on this machine needs to reach the REST
/// listener: none on the default address `127.0.0.1:7701`, the port where only
/// that differs, the whole address otherwise.
pub fn cli_connect_flag(config: &ServerConfig) -> (r: String)
    ensures
        r@ == connect_flag(*config),
{
    if let Some(socket) = &config.rest_api_socket {
        let mut out = " --unix-socket ".to_owned();
        out.append(socket.as_str());
        return out;
    }
    let v = chars(config.rest_api_addr.as_str());
    let n: usize = v.len();
    match rfind(&v, ':') {
        None => {
            let mut out = " --server http://".to_owned();
            out.append(config.rest_api_addr.as_str());
            out
        },
        Some(i) => {
            let host = text(&v, 0, i);
            let port = text(&v, i + 1, n);
            proof {
                assert(host@ =~= config.rest_api_addr@.take(i as int));
                assert(port@ =~= config.rest_api_addr@.skip(i + 1));
            }
            if same(host.as_str(), "127.0.0.1") {
                if same(port.as_str(), "7701") {
                    let out = String::new();
                    assert(out@ =~= Seq::<char>::empty());
                    out
                } else {
                    let mut out = " --port-rest ".to_owned();
                    out.append(port.as_str());
                    out
                }
            } else {
                let mut out = " --server http://".to_owned();
                out.append(config.rest_api_addr.as_str());
                out
            }
        },
    }
}

/// What becomes of a listener that was asked for: the address that it listens
/// on, and the one that it could not get. An address in use is no reason to
/// stop, since the same routes are mounted on the REST listener.
pub fn settle_listener(requested: Option<String>, bound: bool) -> (r: (Option<String>, Option<String>))
    ensures
        opt_text(r.0) == (if bound {
            opt_text(requested)
        } else {
            None
        }),
        opt_text(r.1) == (if bound {
            None
        } else {
            opt_text(requested)
        }),
{
    if bound {
        (requested, None)
    } else {
        (None, requested)
    }
}

/// What is found where a socket is to be made.
#[derive(Debug, Clone, Copy, PartialEq, Eq, Structural)]
pub enum PathEntry {
    Nothing,
    Socket,
    Other,
}

/// Whether a socket can be made at a path, with the reason where it cannot.
pub fn check_socket_path(path: &str, found: PathEntry) -> (r: Result<(), String>)
    ensures
        match r {
            Ok(_) => found == PathEntry::Nothing,
            Err(e) => {
                &&& found != PathEntry::Nothing
                &&& e@ == if found == PathEntry::Socket {
                    "REST Unix socket path already exists: "@ + path@
                        + ". Remove it if no server is running."@
                } else {
                    "REST Unix socket path exists and is not a socket: "@ + path@
                }
            },
        },
{
    match found {
        PathEntry::Nothing => Ok(()),
        PathEntry::Socket => {
            let mut out = "REST Unix socket path already exists: ".to_owned();
            out.append(path);
            out.append(". Remove it if no server is running.");
            Err(out)
        },
        PathEntry::Other => {
            let mut out = "REST Unix socket path exists and is not a socket: ".to_owned();
            out.append(path);
            Err(out)
        },
    }
}

// ── The banner ──────────────────────────────────────────────────────

/// The line for an intake that has a listener of its own, or is reached through
/// another one.
pub open spec fn intake_line(
    label: Seq<char>,
    addr: Option<Seq<char>>,
    fallback: Seq<char>,
    unavailable: Option<Seq<char>>,
    rival: Seq<char>,
) -> Seq<char> {
    match addr {
        Some(a) => label + a,
        None => match unavailable {
            Some(requested) => label + fallback + " ("@ + requested + " unavailable — another "@
                + rival + " running?)"@,
            None => label + fallback + " (via REST listener)"@,
        },
    }
}

pub open spec fn backend_name(b: StorageBackend) -> Seq<char> {
    match b {
        StorageBackend::Duckdb => "Duckdb"@,
        StorageBackend::TaelBackend => "TaelBackend"@,
    }
}

/// Where the server listens and what it keeps.
pub open spec fn places(
    c: ServerConfig,
    dd_unavailable: Option<Seq<char>>,
    http_unavailable: Option<Seq<char>>,
) -> Seq<Seq<char>> {
    seq![
        "tael server starting"@,
        "  REST API     "@ + rest_url(c),
        "  OTLP gRPC    "@ + c.otlp_grpc_addr@,
        intake_line(
            "  OTLP HTTP    "@,
            opt_text(c.otlp_http_addr),
            rest_url(c),
            http_unavailable,
            "collector"@,
        ),
        intake_line(
            "  dd-trace     "@,
            opt_text(c.dd_agent_addr),
            rest_url(c),
            dd_unavailable,
            "agent"@,
        ),
        "  data dir     "@ + c.data_dir@,
        "  WAL dir      "@ + c.wal_dir@,
        "  storage      "@ + backend_name(c.storage),
        ""@,
    ]
}

/// How a client, and a service, reach it.
pub open spec fn ways_in(c: ServerConfig) -> Seq<Seq<char>> {
    seq![
        "Connect a CLI from this machine:"@,
        "  tael"@ + connect_flag(c) + " services"@,
        "  tael"@ + connect_flag(c) + " live"@,
        ""@,
        "Point a service at this server (OTLP):"@,
        "  export OTEL_EXPORTER_OTLP_ENDPOINT=http://"@ + c.otlp_grpc_addr@,
        "  export OTEL_EXPORTER_OTLP_PROTOCOL=grpc"@,
        "  export OTEL_SERVICE_NAME=<your-service>"@,
        ""@,
        "Or over OTLP/HTTP (the default protocol in several SDKs):"@,
        match c.otlp_http_addr {
            Some(addr) => "  export OTEL_EXPORTER_OTLP_ENDPOINT=http://"@ + addr@,
            None => "  export OTEL_EXPORTER_OTLP_ENDPOINT="@ + rest_url(c),
        },
        "  export OTEL_EXPORTER_OTLP_PROTOCOL=http/protobuf"@,
        ""@,
    ]
}

/// How a Datadog-instrumented service reaches it.
pub open spec fn datadog_way(c: ServerConfig, dd_unavailable: Option<Seq<char>>) -> Seq<Seq<char>> {
    let head = seq!["Or a Datadog-instrumented service (dd-trace):"@];
    match c.dd_agent_addr {
        Some(addr) => head.push(
            if addr@ == DEFAULT_DD_AGENT_ADDR@ {
                "  no exports needed — listening on the default agent port ("@ + addr@ + ")"@
            } else {
                "  export DD_TRACE_AGENT_URL=http://"@ + addr@
            },
        ),
        None => (match dd_unavailable {
            Some(requested) => head.push(
                "  note: agent port "@ + requested
                    + " was unavailable (another agent running?)"@,
            ),
            None => head,
        }).push("  export DD_TRACE_AGENT_URL="@ + rest_url(c)),
    }.push(""@)
}

fn say(out: &mut Vec<String>, line: &str)
    ensures
        texts(final(out)@) == texts(old(out)@).push(line@),
{
    let s = line.to_owned();
    out.push(s);
    assert(texts(out@) =~= texts(old(out)@).push(line@));
}

fn say_of(out: &mut Vec<String>, label: &str, value: &str)
    ensures
        texts(final(out)@) == texts(old(out)@).push(label@ + value@),
{
    let mut s = label.to_owned();
    s.append(value);
    out.push(s);
    assert(texts(out@) =~= texts(old(out)@).push(label@ + value@));
}

fn say_around(out: &mut Vec<String>, before: &str, value: &str, after: &str)
    ensures
        texts(final(out)@) == texts(old(out)@).push(before@ + value@ + after@),
{
    let mut s = before.to_owned();
    s.append(value);
    s.append(after);
    out.push(s);
    assert(texts(out@) =~= texts(old(out)@).push(before@ + value@ + after@));
}

fn say_intake(
    out: &mut Vec<String>,
    label: &str,
    addr: &Option<String>,
    fallback: &str,
    unavailable: &Option<String>,
    rival: &str,
)
    ensures
        texts(final(out)@) == texts(old(out)@).push(
            intake_line(label@, opt_text(*addr), fallback@, opt_text(*unavailable), rival@),
        ),
{
    match addr {
        Some(a) => say_of(out, label, a.as_str()),
        None => match unavailable {
            Some(requested) => {
                let mut s = label.to_owned();
                s.append(fallback);
                s.append(" (");
                s.append(requested.as_str());
                s.append(" unavailable — another ");
                s.append(rival);
                s.append(" running?)");
                say(out, s.as_str());
            },
            None => say_around(out, label, fallback, " (via REST listener)"),
        },
    }
}

/// The lines shown on startup, by which a user sees where to connect a client
/// and where to point an exporter. `dd_unavailable` and `http_unavailable` are
/// the addresses of listeners that were asked for and could not be had.
pub fn startup_banner(
    config: &ServerConfig,
    dd_unavailable: &Option<String>,
    http_unavailable: &Option<String>,
) -> (r: Vec<String>)
    ensures
        texts(r@) == places(*config, opt_text(*dd_unavailable), opt_text(*http_unavailable)) + ways_in(
            *config,
        ) + datadog_way(*config, opt_text(*dd_unavailable)),
{
    let rest = rest_endpoint_label(config);
    let rest = rest.as_str();
    let mut out: Vec<String> = Vec::new();
    say(&mut out, "tael server starting");
    say_of(&mut out, "  REST API     ", rest);
    say_of(&mut out, "  OTLP gRPC    ", config.otlp_grpc_addr.as_str());
    say_intake(
        &mut out,
        "  OTLP HTTP    ",
        &config.otlp_http_addr,
        rest,
        http_unavailable,
        "collector",
    );
    say_intake(&mut out, "  dd-trace     ", &config.dd_agent_addr, rest, dd_unavailable, "agent");
    say_of(&mut out, "  data dir     ", config.data_dir.as_str());
    say_of(&mut out, "  WAL dir      ", config.wal_dir.as_str());
    match config.storage {
        StorageBackend::Duckdb => say_of(&mut out, "  storage      ", "Duckdb"),
        StorageBackend::TaelBackend => say_of(&mut out, "  storage      ", "TaelBackend"),
    }
    say(&mut out, "");
    let ghost first = places(*config, opt_text(*dd_unavailable), opt_text(*http_unavailable));
    assert(texts(out@) =~= first);
    say_ways_in(&mut out, config, rest);
    say_datadog_way(&mut out, config, dd_unavailable, rest);
    out
}

fn say_ways_in(out: &mut Vec<String>, config: &ServerConfig, rest: &str)
    requires
        rest@ == rest_url(*config),
    ensures
        texts(final(out)@) == texts(old(out)@) + ways_in(*config),
{
    let flag = cli_connect_flag(config);
    say(out, "Connect a CLI from this machine:");
    say_around(out, "  tael", flag.as_str(), " services");
    say_around(out, "  tael", flag.as_str(), " live");
    say(out, "");
    say(out, "Point a service at this server (OTLP):");
    say_of(out, "  export OTEL_EXPORTER_OTLP_ENDPOINT=http://", config.otlp_grpc_addr.as_str());
    say(out, "  export OTEL_EXPORTER_OTLP_PROTOCOL=grpc");
    say(out, "  export OTEL_SERVICE_NAME=<your-service>");
    say(out, "");
    say(out, "Or over OTLP/HTTP (the default protocol in several SDKs):");
    match &config.otlp_http_addr {
        Some(addr) => say_of(out, "  export OTEL_EXPORTER_OTLP_ENDPOINT=http://", addr.as_str()),
        None => say_of(out, "  export OTEL_EXPORTER_OTLP_ENDPOINT=", rest),
    }
    say(out, "  export OTEL_EXPORTER_OTLP_PROTOCOL=http/protobuf");
    say(out, "");
    assert(texts(out@) =~= texts(old(out)@) + ways_in(*config));
}

fn say_datadog_way(
    out: &mut Vec<String>,
    config: &ServerConfig,
    dd_unavailable: &Option<String>,
    rest: &str,
)
    requires
        rest@ == rest_url(*config),
    ensures
        texts(final(out)@) == texts(old(out)@) + datadog_way(*config, opt_text(*dd_unavailable)),
{
    say(out, "Or a Datadog-instrumented service (dd-trace):");
    match &config.dd_agent_addr {
        Some(addr) => {
            if same(addr.as_str(), DEFAULT_DD_AGENT_ADDR) {
                say_around(
                    out,
                    "  no exports needed — listening on the default agent port (",
                    addr.as_str(),
                    ")",
                );
            } else {
                say_of(out, "  export DD_TRACE_AGENT_URL=http://", addr.as_str());
            }
        },
        None => {
            if let Some(requested) = dd_unavailable {
                say_around(
                    out,
                    "  note: agent port ",
                    requested.as_str(),
                    " was unavailable (another agent running?)",
                );
            }
            say_of(out, "  export DD_TRACE_AGENT_URL=", rest);
        },
    }
    say(out, "");
    assert(texts(out@) =~= texts(old(out)@) + datadog_way(*config, opt_text(*dd_unavailable)));
}

// ── Background work ─────────────────────────────────────────────────

/// A point on the server's own health.
pub open spec fn engine_point(name: Seq<char>, value: u64, now: Instant) -> PointModel {
    PointModel {
        instant: now,
        service: "tael"@,
        name,
        metric_type: MetricType::Gauge,
        value,
        unit: Seq::empty(),
        attributes: Map::empty(),
        histogram: None,
    }
}

/// The points that a maintenance pass records, each value the bits of a double.
/// The server reports on itself through its own pipeline, so that its health is
/// queried and alerted on like any other series.
pub fn engine_metric_points(values: &Vec<(String, u64)>, now: Timestamp) -> (r: Vec<MetricPoint>)
    ensures
        point_views(r@) == values@.map_values(|p: (String, u64)| engine_point(p.0@, p.1, now@)),
{
    let ghost all = values@.map_values(|p: (String, u64)| engine_point(p.0@, p.1, now@));
    let mut out: Vec<MetricPoint> = Vec::new();
    let mut i: usize = 0;
    assert(point_views(out@) =~= all.take(0));
    while i < values.len()
        invariant
            i <= values@.len(),
            all == values@.map_values(|p: (String, u64)| engine_point(p.0@, p.1, now@)),
            point_views(out@) == all.take(i as int),
        decreases values@.len() - i,
    {
        let ghost before = out@;
        let unit = String::new();
        assert(unit@ =~= Seq::<char>::empty());
        let point = MetricPoint {
            timestamp: now,
            service: "tael".to_owned(),
            name: values[i].0.clone(),
            metric_type: MetricType::Gauge,
            value: values[i].1,
            unit,
            attributes: Labels::new(),
            histogram: None,
        };
        out.push(point);
        proof {
            assert(point_views(out@) =~= point_views(before).push(point@));
            assert(all.take(i as int + 1) =~= all.take(i as int).push(all[i as int]));
        }
        i = i + 1;
    }
    assert(all.take(values@.len() as int) =~= all);
    out
}

/// A point for a score of a trace. It carries the rule, the sample rate and the
/// trace, so that a score can be traced back to what produced it.
pub open spec fn online_score(
    rule: Seq<char>,
    sample: Seq<char>,
    trace_id: Seq<char>,
    service: Seq<char>,
    score: ScoreLine,
    now: Instant,
) -> PointModel {
    PointModel {
        instant: now,
        service,
        name: "tael_eval_score"@,
        metric_type: MetricType::Gauge,
        value: score.value,
        unit: "score"@,
        attributes: Map::empty().insert("rule"@, rule).insert("metric"@, score.metric@).insert(
            "trace_id"@,
            trace_id,
        ).insert("source"@, "online"@).insert("sample"@, sample).insert("case_id"@, trace_id),
        histogram: None,
    }
}

/// The points that a scorer's output is stored as. `sample` is the rate of the
/// rule, as it is written.
pub fn online_scores(
    rule: &str,
    sample: &str,
    trace_id: &str,
    service: &str,
    scores: &Vec<ScoreLine>,
    now: Timestamp,
) -> (r: Vec<MetricPoint>)
    ensures
        point_views(r@) == scores@.map_values(
            |s: ScoreLine| online_score(rule@, sample@, trace_id@, service@, s, now@),
        ),
{
    let ghost all = scores@.map_values(
        |s: ScoreLine| online_score(rule@, sample@, trace_id@, service@, s, now@),
    );
    let mut out: Vec<MetricPoint> = Vec::new();
    let mut i: usize = 0;
    assert(point_views(out@) =~= all.take(0));
    while i < scores.len()
        invariant
            i <= scores@.len(),
            all == scores@.map_values(
                |s: ScoreLine| online_score(rule@, sample@, trace_id@, service@, s, now@),
            ),
            point_views(out@) == all.take(i as int),
        decreases scores@.len() - i,
    {
        let ghost before = out@;
        let mut attributes = Labels::new();
        attributes.insert("rule".to_owned(), rule.to_owned());
        attributes.insert("metric".to_owned(), scores[i].metric.clone());
        attributes.insert("trace_id".to_owned(), trace_id.to_owned());
        attributes.insert("source".to_owned(), "online".to_owned());
        attributes.insert("sample".to_owned(), sample.to_owned());
        attributes.insert("case_id".to_owned(), trace_id.to_owned());
        let point = MetricPoint {
            timestamp: now,
            service: service.to_owned(),
            name: "tael_eval_score".to_owned(),
            metric_type: MetricType::Gauge,
            value: scores[i].value,
            unit: "score".to_owned(),
            attributes,
            histogram: None,
        };
        out.push(point);
        proof {
            assert(point_views(out@) =~= point_views(before).push(point@));
            assert(all.take(i as int + 1) =~= all.take(i as int).push(all[i as int]));
        }
        i = i + 1;
    }
    assert(all.take(scores@.len() as int) =~= all);
    out
}

/// The window that derived points are computed over: the shortest of the rules,
/// so that they stay fresh enough for every one of them.
pub open spec fn shortest_window(rules: Seq<AlertRule>) -> i64
    decreases rules.len(),
{
    if rules.len() == 0 {
        300
    } else if rules.len() == 1 {
        rules[0].window_seconds
    } else if shortest_window(rules.drop_last()) <= rules.last().window_seconds {
        shortest_window(rules.drop_last())
    } else {
        rules.last().window_seconds
    }
}

/// The shortest window of some rules; five minutes where there are none.
pub fn derive_window(rules: &Vec<AlertRule>) -> (r: i64)
    ensures
        r == shortest_window(rules@),
{
    if rules.len() == 0 {
        return 300;
    }
    let mut least: i64 = rules[0].window_seconds;
    let mut i: usize = 1;
    assert(rules@.take(1).len() == 1);
    while i < rules.len()
        invariant
            1 <= i <= rules@.len(),
            least == shortest_window(rules@.take(i as int)),
        decreases rules@.len() - i,
    {
        assert(rules@.take(i as int + 1).drop_last() =~= rules@.take(i as int));
        if rules[i].window_seconds < least {
            least = rules[i].window_seconds;
        }
        i = i + 1;
    }
    assert(rules@.take(rules@.len() as int) =~= rules@);
    least
}

/// No rule has a window that is shorter than the one derived points are
/// computed over.
pub proof fn derived_points_suit_every_rule(rules: Seq<AlertRule>, i: int)
    requires
        0 <= i < rules.len(),
    ensures
        shortest_window(rules) <= rules[i].window_seconds,
    decreases rules.len(),
{
    if rules.len() > 1 && i < rules.len() - 1 {
        derived_points_suit_every_rule(rules.drop_last(), i);
    }
}

/// A server listens for traces over gRPC, for requests on its address or on its
/// socket in place of it, and for whatever else it has an address for.
pub proof fn listeners_are_where_the_server_is_reached(c: ServerConfig)
    ensures
        listeners(c).contains(c.otlp_grpc_addr@),
        c.rest_api_socket is None ==> listeners(c).contains(c.rest_api_addr@),
        c.otlp_http_addr matches Some(a) ==> listeners(c).contains(a@),
        c.dd_agent_addr matches Some(a) ==> listeners(c).contains(a@),
        forall|i: int|
            0 <= i < listeners(c).len() ==> (#[trigger] listeners(c)[i]) == c.otlp_grpc_addr@
                || listeners(c)[i] == c.rest_api_addr@ && c.rest_api_socket is None || (
            c.otlp_http_addr matches Some(a) && listeners(c)[i] == a@) || (
            c.dd_agent_addr matches Some(a) && listeners(c)[i] == a@),
        c.auth matches Some(mode) ==> server_mode(c) == mode,
        c.auth is None && (forall|i: int|
            0 <= i < listeners(c).len() ==> is_loopback(#[trigger] listeners(c)[i])) ==> server_mode(
            c,
        ) == AuthMode::Off,
{
    let all = listeners(c);
    assert(all[0] == c.otlp_grpc_addr@);
    if c.rest_api_socket is None {
        assert(all[1] == c.rest_api_addr@);
    }
    let n: int = if c.rest_api_socket is None {
        2
    } else {
        1
    };
    if let Some(a) = c.otlp_http_addr {
        assert(all[n] == a@);
    }
    if let Some(a) = c.dd_agent_addr {
        assert(all[all.len() - 1] == a@);
    }
}

/// A client reaches the server by its socket, else by its address; on this machine
/// the port is enough, and the usual port needs no mention.
pub proof fn clients_are_told_how_to_connect(c: ServerConfig, port: Seq<char>, host: Seq<char>)
    requires
        !port.contains(':'),
    ensures
        c.rest_api_socket matches Some(s) ==> rest_url(c) == "unix://"@ + s@ && connect_flag(c)
            == " --unix-socket "@ + s@,
        c.rest_api_socket is None ==> rest_url(c) == "http://"@ + c.rest_api_addr@,
        c.rest_api_socket is None && c.rest_api_addr@ == "127.0.0.1"@ + seq![':'] + port && port
            != "7701"@ ==> connect_flag(c) == " --port-rest "@ + port,
        c.rest_api_socket is None && c.rest_api_addr@ == "127.0.0.1"@ + seq![':'] + "7701"@
            ==> connect_flag(c).len() == 0,
        c.rest_api_socket is None && c.rest_api_addr@ == host + seq![':'] + port && host
            != "127.0.0.1"@ ==> connect_flag(c) == " --server http://"@ + c.rest_api_addr@,
{
    reveal_strlit("7701");
    last_colon("127.0.0.1"@, port);
    last_colon(host, port);
    last_colon("127.0.0.1"@, "7701"@);
    let (a, b, d) = (
        "127.0.0.1"@ + seq![':'] + port,
        host + seq![':'] + port,
        "127.0.0.1"@ + seq![':'] + "7701"@,
    );
    let n = "127.0.0.1"@.len() as int;
    assert(a.take(n) =~= "127.0.0.1"@ && a.skip(n + 1) =~= port);
    assert(d.take(n) =~= "127.0.0.1"@ && d.skip(n + 1) =~= "7701"@);
    assert(b.take(host.len() as int) =~= host);
}

proof fn last_colon(host: Seq<char>, port: Seq<char>)
    requires
        !port.contains(':'),
    ensures
        rfind_char(host + seq![':'] + port, ':') == Some(host.len() as int),
    decreases port.len(),
{
    let s = host + seq![':'] + port;
    if port.len() > 0 {
        assert(port.contains(port.last()));
        assert(s.last() == port.last());
        assert(s.drop_last() =~= host + seq![':'] + port.drop_last());
        assert forall|k: int| 0 <= k < port.len() - 1 implies port.drop_last()[k] != ':' by {
            assert(port.contains(port[k]));
        }
        last_colon(host, port.drop_last());
    } else {
        assert(s =~= host.push(':'));
    }
}

/// The banner says where each intake, the data and the log are.
pub proof fn the_banner_says_where_things_are(
    c: ServerConfig,
    dd: Option<Seq<char>>,
    http: Option<Seq<char>>,
)
    ensures
        places(c, dd, http).contains("  REST API     "@ + rest_url(c)),
        places(c, dd, http).contains("  OTLP gRPC    "@ + c.otlp_grpc_addr@),
        c.otlp_http_addr matches Some(a) ==> places(c, dd, http).contains("  OTLP HTTP    "@ + a@),
        c.dd_agent_addr matches Some(a) ==> places(c, dd, http).contains("  dd-trace     "@ + a@),
        places(c, dd, http).contains("  data dir     "@ + c.data_dir@),
        places(c, dd, http).contains("  WAL dir      "@ + c.wal_dir@),
        ways_in(c).contains("  export OTEL_EXPORTER_OTLP_ENDPOINT=http://"@ + c.otlp_grpc_addr@),
        c.otlp_http_addr matches Some(a) ==> ways_in(c).contains(
            "  export OTEL_EXPORTER_OTLP_ENDPOINT=http://"@ + a@,
        ),
        c.dd_agent_addr matches Some(a) ==> (a@ != "127.0.0.1:8126"@ ==> datadog_way(
            c,
            dd,
        ).contains("  export DD_TRACE_AGENT_URL=http://"@ + a@)),
{
    let p = places(c, dd, http);
    assert(p[1] == "  REST API     "@ + rest_url(c));
    assert(p[2] == "  OTLP gRPC    "@ + c.otlp_grpc_addr@);
    if let Some(a) = c.otlp_http_addr {
        assert(p[3] == "  OTLP HTTP    "@ + a@);
        assert(ways_in(c)[10] == "  export OTEL_EXPORTER_OTLP_ENDPOINT=http://"@ + a@);
    }
    if let Some(a) = c.dd_agent_addr {
        assert(p[4] == "  dd-trace     "@ + a@);
        if a@ != "127.0.0.1:8126"@ {
            assert(datadog_way(c, dd)[1] == "  export DD_TRACE_AGENT_URL=http://"@ + a@);
        }
    }
    assert(p[5] == "  data dir     "@ + c.data_dir@);
    assert(p[6] == "  WAL dir      "@ + c.wal_dir@);
    assert(ways_in(c)[5] == "  export OTEL_EXPORTER_OTLP_ENDPOINT=http://"@ + c.otlp_grpc_addr@);
}

/// An online score is a score of the trace's own case: its value under its metric,
/// with the rule that gave it, on the trace that it is of.
pub proof fn online_scores_are_of_their_trace(
    rule: Seq<char>,
    sample: Seq<char>,
    trace_id: Seq<char>,
    service: Seq<char>,
    score: ScoreLine,
    now: Instant,
)
    ensures
        ({
            let p = online_score(rule, sample, trace_id, service, score, now);
            &&& p.value == score.value && p.instant == now && p.service == service
            &&& p.name == "tael_eval_score"@ && p.metric_type == MetricType::Gauge
            &&& p.attributes.dom().contains("trace_id"@) && p.attributes["trace_id"@] == trace_id
            &&& p.attributes.dom().contains("case_id"@) && p.attributes["case_id"@] == trace_id
            &&& p.attributes.dom().contains("metric"@) && p.attributes["metric"@] == score.metric@
            &&& p.attributes.dom().contains("rule"@) && p.attributes["rule"@] == rule
            &&& p.attributes.dom().contains("sample"@) && p.attributes["sample"@] == sample
            &&& p.attributes.dom().contains("source"@) && p.attributes["source"@] == "online"@
        }),
{
    reveal_strlit("trace_id");
    reveal_strlit("case_id");
    reveal_strlit("metric");
    reveal_strlit("rule");
    reveal_strlit("sample");
    reveal_strlit("source");
    assert("trace_id"@.len() == 8 && "case_id"@.len() == 7 && "metric"@.len() == 6 && "rule"@.len()
        == 4 && "sample"@.len() == 6 && "source"@.len() == 6);
    assert("metric"@[0] == 'm' && "sample"@[0] == 's' && "source"@[0] == 's' && "sample"@[1] == 'a'
        && "source"@[1] == 'o');
}

/// The window is that of one of the rules, and five minutes without any.
pub proof fn the_window_is_that_of_a_rule(rules: Seq<AlertRule>)
    ensures
        rules.len() == 0 ==> shortest_window(rules) == 300,
        rules.len() > 0 ==> exists|i: int|
            0 <= i < rules.len() && (#[trigger] rules[i]).window_seconds == shortest_window(rules),
    decreases rules.len(),
{
    if rules.len() > 1 {
        let init = rules.drop_last();
        the_window_is_that_of_a_rule(init);
        let i = choose|i: int|
            0 <= i < init.len() && (#[trigger] init[i]).window_seconds == shortest_window(init);
        assert(rules[i] == init[i]);
        assert(rules[rules.len() - 1] == rules.last());
    } else if rules.len() == 1 {
        assert(rules[0].window_seconds == shortest_window(rules));
    }
}

/// The address that is named as remote is one that looks so, if any does.
pub proof fn the_remote_address_is_named(addrs: Seq<Seq<char>>, i: int)
    requires
        0 <= i < addrs.len(),
        !has_prefix(addrs[i], "127.0.0.1"@),
        !has_prefix(addrs[i], "localhost"@),
    ensures
        addrs.contains(first_remote(addrs)),
        !has_prefix(first_remote(addrs), "127.0.0.1"@) && !has_prefix(
            first_remote(addrs),
            "localhost"@,
        ),
    decreases addrs.len(),
{
    if looks_remote(addrs[0]) {
        assert(addrs.contains(addrs[0]));
    } else {
        let rest = addrs.drop_first();
        assert(rest[i - 1] == addrs[i]);
        the_remote_address_is_named(rest, i - 1);
        let k = choose|k: int| 0 <= k < rest.len() && rest[k] == first_remote(rest);
        assert(addrs[k + 1] == first_remote(addrs));
    }
}

/// A node-local store is always collected by its own node.
pub proof fn local_stores_are_collected(coordinated: bool, designated: bool, leader: bool)
    ensures
        BlobGcOwnership::of(false, coordinated, designated).allows(leader),
{
}

/// The engine that a server runs on.
pub open spec fn engine_for(
    fans_out: bool,
    storage: StorageBackend,
    has_duckdb: bool,
) -> Result<Engine, MissingEngine> {
    if fans_out {
        Ok(Engine::Fanout)
    } else if storage == StorageBackend::TaelBackend {
        Ok(Engine::Tael)
    } else if has_duckdb {
        Ok(Engine::DuckDb)
    } else {
        Err(MissingEngine)
    }
}

/// A server that fans out has no engine of its own, and any other has the one that
/// was chosen; only an engine that was not built in is missing.
pub proof fn engines_are_the_ones_chosen(fans_out: bool, storage: StorageBackend, has_duckdb: bool)
    ensures
        engine_for(fans_out, storage, has_duckdb) == Ok::<Engine, MissingEngine>(Engine::Fanout)
            <==> fans_out,
        engine_for(fans_out, storage, has_duckdb) == Ok::<Engine, MissingEngine>(Engine::Tael)
            <==> !fans_out && storage == StorageBackend::TaelBackend,
        engine_for(fans_out, storage, has_duckdb) == Ok::<Engine, MissingEngine>(Engine::DuckDb)
            <==> !fans_out && storage == StorageBackend::Duckdb && has_duckdb,
        engine_for(fans_out, storage, has_duckdb) is Err <==> !fans_out && storage
            == StorageBackend::Duckdb && !has_duckdb,
{
}

} // verus!
