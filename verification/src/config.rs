//! Server settings, read from the process environment and arguments.

use crate::auth::{mode_named, AuthMode};
use crate::labels::Labels;
use crate::text::{ascii_lowercase, is_blank, lowered, opt_text, parse_unsigned, same, split, split_on, strip_prefix, texts, to_lower, trim, trimmed, unsigned_literal};
use vstd::prelude::*;

verus! {

/// The Datadog trace-agent's default listen address; dd-trace clients send
/// here when nothing else is set.
pub const DEFAULT_DD_AGENT_ADDR: &'static str = "127.0.0.1:8126";

/// The OTLP/HTTP spec's default port. On by default so that an SDK configured
/// for `http/protobuf` needs no server-side configuration.
pub const DEFAULT_OTLP_HTTP_ADDR: &'static str = "127.0.0.1:4318";

/// The environment, as a map of names to values.
pub type Env = Map<Seq<char>, Seq<char>>;

pub open spec fn var(env: Env, name: Seq<char>) -> Option<Seq<char>> {
    if env.dom().contains(name) {
        Some(env[name])
    } else {
        None
    }
}

pub open spec fn var_or(env: Env, name: Seq<char>, default: Seq<char>) -> Seq<char> {
    match var(env, name) {
        Some(v) => v,
        None => default,
    }
}

/// A variable that is set to more than space.
pub open spec fn non_blank(env: Env, name: Seq<char>) -> Option<Seq<char>> {
    match var(env, name) {
        Some(v) => if trimmed(v).len() > 0 {
            Some(v)
        } else {
            None
        },
        None => None,
    }
}

/// The word that a variable holds, whatever its case and the space around it.
pub open spec fn word(s: Seq<char>) -> Seq<char> {
    lowered(trimmed(s))
}

pub open spec fn is_set_true(env: Env, name: Seq<char>) -> bool {
    match var(env, name) {
        Some(v) => word(v) == "1"@ || word(v) == "true"@ || word(v) == "on"@ || word(v) == "yes"@,
        None => false,
    }
}

/// The parts of a comma-separated text, trimmed, without the empty ones.
pub open spec fn csv_items(s: Seq<char>) -> Seq<Seq<char>> {
    split_on(s, ',').map_values(|p: Seq<char>| trimmed(p)).filter(|p: Seq<char>| p.len() > 0)
}

pub open spec fn csv_var(env: Env, name: Seq<char>) -> Seq<Seq<char>> {
    match var(env, name) {
        Some(v) => csv_items(v),
        None => Seq::empty(),
    }
}

fn read(env: &Labels, name: &str) -> (r: Option<String>)
    ensures
        opt_text(r) == var(env@, name@),
{
    match env.get(name) {
        Some(v) => Some(v.clone()),
        None => None,
    }
}

fn read_or(env: &Labels, name: &str, default: &str) -> (r: String)
    ensures
        r@ == var_or(env@, name@, default@),
{
    match env.get(name) {
        Some(v) => v.clone(),
        None => default.to_owned(),
    }
}

fn non_empty_env(env: &Labels, name: &str) -> (r: Option<String>)
    ensures
        opt_text(r) == non_blank(env@, name@),
{
    match env.get(name) {
        Some(v) => {
            if is_blank(v.as_str()) {
                None
            } else {
                Some(v.clone())
            }
        },
        None => None,
    }
}

/// Parse a boolean variable (`1`/`true`/`on`/`yes`, case-insensitive).
fn bool_env(env: &Labels, name: &str) -> (r: bool)
    ensures
        r == is_set_true(env@, name@),
{
    match env.get(name) {
        Some(v) => {
            let w = to_lower(trim(v.as_str()).as_str());
            let w = w.as_str();
            same(w, "1") || same(w, "true") || same(w, "on") || same(w, "yes")
        },
        None => false,
    }
}

/// The parts of a comma-separated text, trimmed, without the empty ones.
pub fn parse_csv(s: &str) -> (r: Vec<String>)
    ensures
        texts(r@) == csv_items(s@),
{
    let parts = split(s, ',');
    let ghost all = split_on(s@, ',').map_values(|p: Seq<char>| trimmed(p));
    let ghost keep = |p: Seq<char>| p.len() > 0;
    let mut out: Vec<String> = Vec::new();
    let mut i: usize = 0;
    proof {
        reveal(Seq::filter);
        assert(texts(out@) =~= all.take(0).filter(keep));
    }
    while i < parts.len()
        invariant
            i <= parts@.len(),
            texts(parts@) == split_on(s@, ','),
            all == split_on(s@, ',').map_values(|p: Seq<char>| trimmed(p)),
            keep == (|p: Seq<char>| p.len() > 0),
            texts(out@) == all.take(i as int).filter(keep),
        decreases parts@.len() - i,
    {
        let p = trim(parts[i].as_str());
        proof {
            reveal(Seq::filter);
            assert(texts(parts@)[i as int] == parts@[i as int]@);
            assert(all.take(i as int + 1).drop_last() =~= all.take(i as int));
            assert(all.take(i as int + 1).last() == p@);
        }
        if !p.as_str().is_empty() {
            let ghost before = out@;
            out.push(p);
            assert(texts(out@) =~= texts(before).push(p@));
        }
        i = i + 1;
    }
    assert(texts(parts@).len() == parts@.len());
    assert(all.take(parts@.len() as int) =~= all);
    out
}

fn parse_csv_env(env: &Labels, name: &str) -> (r: Vec<String>)
    ensures
        texts(r@) == csv_var(env@, name@),
{
    match env.get(name) {
        Some(v) => parse_csv(v.as_str()),
        None => {
            let none: Vec<String> = Vec::new();
            assert(texts(none@) =~= Seq::<Seq<char>>::empty());
            none
        },
    }
}

// ── Selections ──────────────────────────────────────────────────────

/// Selected storage backend.
#[derive(Debug, Clone, Copy, PartialEq, Eq, Structural)]
pub enum StorageBackend {
    Duckdb,
    TaelBackend,
}

pub open spec fn backend_named(s: Seq<char>) -> StorageBackend {
    if word(s) == "duckdb"@ {
        StorageBackend::Duckdb
    } else {
        StorageBackend::TaelBackend
    }
}

impl StorageBackend {
    /// Parse a backend name. Anything that isn't explicitly `duckdb` selects
    /// the default.
    pub fn parse(s: &str) -> (r: Self)
        ensures
            r == backend_named(s@),
    {
        let w = to_lower(trim(s).as_str());
        if same(w.as_str(), "duckdb") {
            StorageBackend::Duckdb
        } else {
            StorageBackend::TaelBackend
        }
    }
}

/// What kind of node this process runs as.
#[derive(Debug, Clone, Copy, PartialEq, Eq, Structural)]
pub enum NodeRole {
    /// The default: full node (ingest + storage + query in one process).
    Full,
    /// Stateless ingest tier: accept telemetry, split by shard key, forward to
    /// the storage shards; no local engine, no queries.
    Ingest,
}

impl Default for NodeRole {
    fn default() -> (r: NodeRole)
        ensures
            r == NodeRole::Full,
    {
        NodeRole::Full
    }
}

pub open spec fn node_role_named(s: Seq<char>) -> NodeRole {
    if word(s) == "ingest"@ || word(s) == "ingest-only"@ || word(s) == "ingest_only"@ {
        NodeRole::Ingest
    } else {
        NodeRole::Full
    }
}

impl NodeRole {
    pub fn parse(s: &str) -> (r: Self)
        ensures
            r == node_role_named(s@),
    {
        let w = to_lower(trim(s).as_str());
        if same(w.as_str(), "ingest") || same(w.as_str(), "ingest-only") || same(
            w.as_str(),
            "ingest_only",
        ) {
            NodeRole::Ingest
        } else {
            NodeRole::Full
        }
    }
}

/// Where objects are kept: a directory of the node, or a bucket that nodes
/// share.
#[derive(Debug, Clone, Copy, PartialEq, Eq, Structural)]
pub enum StoreLocation {
    Fs,
    Gcs,
}

impl Default for StoreLocation {
    fn default() -> (r: StoreLocation)
        ensures
            r == StoreLocation::Fs,
    {
        StoreLocation::Fs
    }
}

pub open spec fn location_named(s: Seq<char>) -> StoreLocation {
    if word(s) == "gcs"@ {
        StoreLocation::Gcs
    } else {
        StoreLocation::Fs
    }
}

impl StoreLocation {
    pub fn parse(s: &str) -> (r: Self)
        ensures
            r == location_named(s@),
    {
        let w = to_lower(trim(s).as_str());
        if same(w.as_str(), "gcs") {
            StoreLocation::Gcs
        } else {
            StoreLocation::Fs
        }
    }

    /// Whether nodes share what is kept there.
    pub fn is_shared(self) -> (r: bool)
        ensures
            r == (self == StoreLocation::Gcs),
    {
        match self {
            StoreLocation::Gcs => true,
            StoreLocation::Fs => false,
        }
    }
}

/// Object-storage selection for the cold tier and the blob store.
#[derive(Debug, Clone)]
pub struct ObjectStoreConfig {
    /// Cold-tier backend.
    pub cold: StoreLocation,
    /// Blob-store backend.
    pub blobs: StoreLocation,
    /// Cold bucket URL when the cold tier is in a bucket.
    pub cold_bucket: Option<String>,
    /// Blob bucket URL when the blobs are in a bucket.
    pub blob_bucket: Option<String>,
    /// Whether this node owns blob collection over a shared object store.
    pub blob_gc_coordinator: bool,
}

impl ObjectStoreConfig {
    /// Whether this is the selection that an environment makes.
    pub open spec fn selected_by(self, env: Env) -> bool {
        &&& self.cold == match var(env, "TAEL_COLD_STORE"@) {
            Some(s) => location_named(s),
            None => StoreLocation::Fs,
        }
        &&& self.blobs == match var(env, "TAEL_BLOB_STORE"@) {
            Some(s) => location_named(s),
            None => StoreLocation::Fs,
        }
        &&& opt_text(self.cold_bucket) == non_blank(env, "TAEL_COLD_BUCKET"@)
        &&& opt_text(self.blob_bucket) == non_blank(env, "TAEL_BLOB_BUCKET"@)
        &&& self.blob_gc_coordinator == match var(env, "TAEL_BLOB_GC_ROLE"@) {
            Some(s) => ascii_word(s) == "coordinator"@,
            None => false,
        }
    }

    pub fn from_env(env: &Labels) -> (r: Self)
        ensures
            r.selected_by(env@),
    {
        ObjectStoreConfig {
            cold: match env.get("TAEL_COLD_STORE") {
                Some(s) => StoreLocation::parse(s.as_str()),
                None => StoreLocation::Fs,
            },
            blobs: match env.get("TAEL_BLOB_STORE") {
                Some(s) => StoreLocation::parse(s.as_str()),
                None => StoreLocation::Fs,
            },
            cold_bucket: non_empty_env(env, "TAEL_COLD_BUCKET"),
            blob_bucket: non_empty_env(env, "TAEL_BLOB_BUCKET"),
            blob_gc_coordinator: match env.get("TAEL_BLOB_GC_ROLE") {
                Some(s) => same(ascii_lowercase(trim(s.as_str()).as_str()).as_str(), "coordinator"),
                None => false,
            },
        }
    }

    /// Whether the blob store is shared across nodes. Drives the rule that a
    /// shared store has a single owner of blob collection.
    pub fn blobs_shared(&self) -> (r: bool)
        ensures
            r == (self.blobs == StoreLocation::Gcs),
    {
        self.blobs.is_shared()
    }
}

/// The trimmed text with its ASCII letters in lower case, and no others.
pub open spec fn ascii_word(s: Seq<char>) -> Seq<char> {
    trimmed(s).map_values(|c: char| crate::text::ascii_lower(c))
}

/// Where trace comments live.
#[derive(Debug, Clone, Copy, PartialEq, Eq, Structural)]
pub enum CommentsBackend {
    /// Local append-only file.
    Jsonl,
    Postgres,
}

impl Default for CommentsBackend {
    fn default() -> (r: CommentsBackend)
        ensures
            r == CommentsBackend::Jsonl,
    {
        CommentsBackend::Jsonl
    }
}

pub open spec fn comments_named(s: Seq<char>) -> CommentsBackend {
    if word(s) == "postgres"@ || word(s) == "postgresql"@ || word(s) == "pg"@ {
        CommentsBackend::Postgres
    } else {
        CommentsBackend::Jsonl
    }
}

impl CommentsBackend {
    pub fn parse(s: &str) -> (r: Self)
        ensures
            r == comments_named(s@),
    {
        let w = to_lower(trim(s).as_str());
        if same(w.as_str(), "postgres") || same(w.as_str(), "postgresql") || same(
            w.as_str(),
            "pg",
        ) {
            CommentsBackend::Postgres
        } else {
            CommentsBackend::Jsonl
        }
    }
}

/// Comments-store selection.
#[derive(Debug, Clone)]
pub struct CommentsConfig {
    pub backend: CommentsBackend,
    /// Postgres connection URL.
    pub database_url: Option<String>,
}

impl CommentsConfig {
    pub open spec fn selected_by(self, env: Env) -> bool {
        &&& self.backend == match var(env, "TAEL_COMMENTS_STORE"@) {
            Some(s) => comments_named(s),
            None => CommentsBackend::Jsonl,
        }
        &&& opt_text(self.database_url) == non_blank(env, "TAEL_COMMENTS_DATABASE_URL"@)
    }

    pub fn from_env(env: &Labels) -> (r: Self)
        ensures
            r.selected_by(env@),
    {
        CommentsConfig {
            backend: match env.get("TAEL_COMMENTS_STORE") {
                Some(s) => CommentsBackend::parse(s.as_str()),
                None => CommentsBackend::Jsonl,
            },
            database_url: non_empty_env(env, "TAEL_COMMENTS_DATABASE_URL"),
        }
    }
}

/// Gossip-cluster settings for leader election.
#[derive(Debug, Clone)]
pub struct ClusterSettings {
    /// Stable unique node id within the replication group (election orders on
    /// it).
    pub node_id: String,
    /// Gossip listen address.
    pub listen_addr: String,
    /// Address peers reach this node on.
    pub advertise_addr: String,
    /// Seed peers' gossip addresses.
    pub seeds: Vec<String>,
    /// Replication-group id peers must share.
    pub cluster_id: String,
}

impl ClusterSettings {
    /// Whether these are the settings that an environment makes, given the
    /// address to listen on. The advertised address defaults to it, and the
    /// node id to the advertised address.
    pub open spec fn selected_by(self, env: Env, listen: Seq<char>) -> bool {
        let advertise = var_or(env, "TAEL_CLUSTER_ADVERTISE"@, listen);
        &&& self.listen_addr@ == listen
        &&& self.advertise_addr@ == advertise
        &&& self.node_id@ == var_or(env, "TAEL_NODE_ID"@, advertise)
        &&& texts(self.seeds@) == csv_var(env, "TAEL_CLUSTER_SEEDS"@)
        &&& self.cluster_id@ == var_or(env, "TAEL_CLUSTER_ID"@, "tael"@)
    }
}

/// Build cluster settings. Returns `None` (coordination off) unless there is
/// an address to listen on.
pub fn cluster_from_env(env: &Labels) -> (r: Option<ClusterSettings>)
    ensures
        match r {
            Some(c) => var(env@, "TAEL_CLUSTER_LISTEN"@) matches Some(listen) && c.selected_by(
                env@,
                listen,
            ),
            None => var(env@, "TAEL_CLUSTER_LISTEN"@) is None,
        },
{
    match read(env, "TAEL_CLUSTER_LISTEN") {
        Some(listen_addr) => {
            let advertise_addr = read_or(env, "TAEL_CLUSTER_ADVERTISE", listen_addr.as_str());
            let node_id = read_or(env, "TAEL_NODE_ID", advertise_addr.as_str());
            let seeds = parse_csv_env(env, "TAEL_CLUSTER_SEEDS");
            let cluster_id = read_or(env, "TAEL_CLUSTER_ID", "tael");
            Some(ClusterSettings { node_id, listen_addr, advertise_addr, seeds, cluster_id })
        },
        None => None,
    }
}

// ── Listener addresses ──────────────────────────────────────────────

/// What an optional listener address comes to: unset takes the default, an
/// explicit off-switch disables, anything else is used as it is.
pub open spec fn optional_addr(value: Option<Seq<char>>, default: Seq<char>) -> Option<Seq<char>> {
    match value {
        None => Some(default),
        Some(v) => {
            let w = word(v);
            if w == ""@ || w == "off"@ || w == "none"@ || w == "disabled"@ || w == "false"@ || w
                == "0"@ {
                None
            } else {
                Some(v)
            }
        },
    }
}

/// Shared "optional listener address" parse: unset takes `default`, an explicit
/// off-switch disables, anything else is used as it is.
pub fn parse_optional_addr(value: Option<String>, default: &str) -> (r: Option<String>)
    ensures
        opt_text(r) == optional_addr(opt_text(value), default@),
{
    match value {
        None => Some(default.to_owned()),
        Some(v) => {
            let w = trim(v.as_str());
            let w = to_lower(w.as_str());
            let w = w.as_str();
            if same(w, "") || same(w, "off") || same(w, "none") || same(w, "disabled") || same(
                w,
                "false",
            ) || same(w, "0") {
                None
            } else {
                Some(v)
            }
        },
    }
}

/// Resolve the Datadog listener's address: unset defaults to the agent's
/// standard port; `off`/`none`/`disabled`/`false`/`0` (or empty) disables the
/// listener.
pub fn parse_dd_agent_addr(value: Option<String>) -> (r: Option<String>)
    ensures
        opt_text(r) == optional_addr(opt_text(value), DEFAULT_DD_AGENT_ADDR@),
{
    parse_optional_addr(value, DEFAULT_DD_AGENT_ADDR)
}

/// Resolve the OTLP/HTTP listener's address. Same unset-means-default,
/// `off`-means-disabled contract as the Datadog listener.
pub fn parse_otlp_http_addr(value: Option<String>) -> (r: Option<String>)
    ensures
        opt_text(r) == optional_addr(opt_text(value), DEFAULT_OTLP_HTTP_ADDR@),
{
    parse_optional_addr(value, DEFAULT_OTLP_HTTP_ADDR)
}

// ── Paths ───────────────────────────────────────────────────────────

/// A path with another one behind it. An absolute one takes its place.
pub open spec fn joined_path(base: Seq<char>, name: Seq<char>) -> Seq<char> {
    if name.len() > 0 && name[0] == '/' {
        name
    } else if base.len() == 0 || base.last() == '/' {
        base + name
    } else {
        base + "/"@ + name
    }
}

/// A path with another one behind it. An absolute one takes its place.
pub fn join_path(base: &str, name: &str) -> (r: String)
    ensures
        r@ == joined_path(base@, name@),
{
    let b = crate::text::chars(base);
    let n = crate::text::chars(name);
    if n.len() > 0 && n[0] == '/' {
        return name.to_owned();
    }
    let mut out = base.to_owned();
    if b.len() > 0 && b[b.len() - 1] != '/' {
        out.append("/");
    }
    out.append(name);
    out
}

/// The home directory of an environment.
pub open spec fn home(env: Env) -> Option<Seq<char>> {
    if var(env, "HOME"@) is Some {
        var(env, "HOME"@)
    } else if var(env, "USERPROFILE"@) is Some {
        var(env, "USERPROFILE"@)
    } else {
        match (var(env, "HOMEDRIVE"@), var(env, "HOMEPATH"@)) {
            (Some(drive), Some(path)) => Some(joined_path(drive, path)),
            _ => None,
        }
    }
}

/// `.tael` in the home directory, or in the working one.
pub open spec fn tael_home(env: Env) -> Seq<char> {
    match home(env) {
        Some(h) => joined_path(h, ".tael"@),
        None => ".tael"@,
    }
}

fn home_dir(env: &Labels) -> (r: Option<String>)
    ensures
        opt_text(r) == home(env@),
{
    match read(env, "HOME") {
        Some(h) => Some(h),
        None => match read(env, "USERPROFILE") {
            Some(h) => Some(h),
            None => match (read(env, "HOMEDRIVE"), read(env, "HOMEPATH")) {
                (Some(drive), Some(path)) => Some(join_path(drive.as_str(), path.as_str())),
                _ => None,
            },
        },
    }
}

pub fn default_tael_home(env: &Labels) -> (r: String)
    ensures
        r@ == tael_home(env@),
{
    match home_dir(env) {
        Some(h) => join_path(h.as_str(), ".tael"),
        None => ".tael".to_owned(),
    }
}

pub fn default_data_dir(env: &Labels) -> (r: String)
    ensures
        r@ == joined_path(tael_home(env@), "data"@),
{
    join_path(default_tael_home(env).as_str(), "data")
}

pub fn default_wal_dir(env: &Labels) -> (r: String)
    ensures
        r@ == joined_path(tael_home(env@), "wal_files"@),
{
    join_path(default_tael_home(env).as_str(), "wal_files")
}

// ── Arguments ───────────────────────────────────────────────────────

/// The backend that a `--storage <value>` or `--storage=<value>` argument
/// selects. The first one counts; one without a value selects nothing.
pub open spec fn storage_argument(args: Seq<Seq<char>>, from: int) -> Option<StorageBackend>
    decreases args.len() - from,
{
    if from >= args.len() {
        None
    } else if args[from] == "--storage"@ {
        if from + 1 < args.len() {
            Some(backend_named(args[from + 1]))
        } else {
            None
        }
    } else if crate::text::has_prefix(args[from], "--storage="@) {
        Some(backend_named(args[from].skip("--storage="@.len() as int)))
    } else {
        storage_argument(args, from + 1)
    }
}

/// Scan the arguments behind the program's name for `--storage <value>` /
/// `--storage=<value>`.
pub fn storage_flag(args: &Vec<String>) -> (r: Option<StorageBackend>)
    ensures
        r == storage_argument(texts(args@), 0),
{
    let ghost all = texts(args@);
    let mut i: usize = 0;
    while i < args.len()
        invariant
            i <= args@.len(),
            all == texts(args@),
            storage_argument(all, 0) == storage_argument(all, i as int),
        decreases args@.len() - i,
    {
        assert(all[i as int] == args@[i as int]@);
        if same(args[i].as_str(), "--storage") {
            if i + 1 < args.len() {
                assert(all[i as int + 1] == args@[i as int + 1]@);
                return Some(StorageBackend::parse(args[i + 1].as_str()));
            }
            return None;
        }
        if let Some(v) = strip_prefix(args[i].as_str(), "--storage=") {
            return Some(StorageBackend::parse(v.as_str()));
        }
        i = i + 1;
    }
    None
}

// ── All of it ───────────────────────────────────────────────────────

#[derive(Debug)]
pub struct ServerConfig {
    pub otlp_grpc_addr: String,
    /// OTLP/HTTP listen address. `None` disables the dedicated listener.
    pub otlp_http_addr: Option<String>,
    pub rest_api_addr: String,
    pub rest_api_socket: Option<String>,
    /// Dedicated Datadog trace-agent listener address. `None` disables the
    /// extra listener.
    pub dd_agent_addr: Option<String>,
    pub data_dir: String,
    pub wal_dir: String,
    pub storage: StorageBackend,
    /// Full node (default) or a stateless ingest tier.
    pub node_role: NodeRole,
    /// Storage-shard base URLs an ingest-role node forwards to.
    pub ingest_shards: Vec<String>,
    /// When non-empty, this process runs as a stateless **query tier** over
    /// these shard base URLs.
    pub query_shards: Vec<String>,
    /// Standby base URLs this node ships its log to as a **leader**.
    pub wal_standbys: Vec<String>,
    /// How many standbys must acknowledge a write before it returns. `None` =
    /// all; `Some(0)` = best-effort.
    pub wal_required_acks: Option<usize>,
    /// Cluster coordination for leader election and fencing.
    pub cluster: Option<ClusterSettings>,
    /// Where the cold tier and blob store keep their objects.
    pub object_store: ObjectStoreConfig,
    /// Where trace comments are stored.
    pub comments: CommentsConfig,
    /// Explicit auth mode. `None` lets the server decide from its listen
    /// addresses.
    pub auth: Option<AuthMode>,
    /// Path to a config file.
    pub config_path: Option<String>,
    /// Scope reads and writes by the caller's tenant.
    pub multi_tenant: bool,
    /// Physically isolate tenants. Implies `multi_tenant`.
    pub tenant_isolation: bool,
}

/// The acknowledgements that a setting asks for, where it is a number.
pub open spec fn acks_of(setting: Option<Seq<char>>) -> Option<usize> {
    match setting {
        Some(s) => match unsigned_literal(trimmed(s)) {
            Some(n) => if n <= usize::MAX {
                Some(n as usize)
            } else {
                None
            },
            None => None,
        },
        None => None,
    }
}

/// The directory of the log: its own variable, an older one, or the default.
pub open spec fn wal_dir_of(env: Env) -> Seq<char> {
    match var(env, "TAEL_WAL_DIR"@) {
        Some(d) => d,
        None => var_or(env, "WALRUS_DATA_DIR"@, joined_path(tael_home(env), "wal_files"@)),
    }
}

impl ServerConfig {
    /// Whether this is the configuration that an environment and arguments
    /// make.
    pub open spec fn selected_by(self, env: Env, args: Seq<Seq<char>>) -> bool {
        &&& self.otlp_grpc_addr@ == var_or(env, "TAEL_OTLP_GRPC_ADDR"@, "127.0.0.1:4317"@)
        &&& opt_text(self.otlp_http_addr) == optional_addr(
            var(env, "TAEL_OTLP_HTTP_ADDR"@),
            DEFAULT_OTLP_HTTP_ADDR@,
        )
        &&& self.rest_api_addr@ == var_or(env, "TAEL_REST_API_ADDR"@, "127.0.0.1:7701"@)
        &&& opt_text(self.rest_api_socket) == non_blank(env, "TAEL_REST_API_SOCKET"@)
        &&& opt_text(self.dd_agent_addr) == optional_addr(
            var(env, "TAEL_DD_AGENT_ADDR"@),
            DEFAULT_DD_AGENT_ADDR@,
        )
        &&& self.data_dir@ == var_or(env, "TAEL_DATA_DIR"@, joined_path(tael_home(env), "data"@))
        &&& self.wal_dir@ == wal_dir_of(env)
        &&& self.storage == match storage_argument(args, 0) {
            Some(backend) => backend,
            None => match var(env, "TAEL_STORAGE"@) {
                Some(s) => backend_named(s),
                None => StorageBackend::TaelBackend,
            },
        }
        &&& self.node_role == match var(env, "TAEL_NODE_ROLE"@) {
            Some(s) => node_role_named(s),
            None => NodeRole::Full,
        }
        &&& texts(self.ingest_shards@) == csv_var(env, "TAEL_INGEST_SHARDS"@)
        &&& texts(self.query_shards@) == csv_var(env, "TAEL_QUERY_SHARDS"@)
        &&& texts(self.wal_standbys@) == csv_var(env, "TAEL_WAL_STANDBYS"@)
        &&& self.wal_required_acks == acks_of(var(env, "TAEL_WAL_REQUIRED_ACKS"@))
        &&& match self.cluster {
            Some(c) => var(env, "TAEL_CLUSTER_LISTEN"@) matches Some(listen) && c.selected_by(
                env,
                listen,
            ),
            None => var(env, "TAEL_CLUSTER_LISTEN"@) is None,
        }
        &&& self.object_store.selected_by(env)
        &&& self.comments.selected_by(env)
        &&& opt_text(self.config_path) == non_blank(env, "TAEL_CONFIG"@)
        &&& self.multi_tenant == (is_set_true(env, "TAEL_MULTI_TENANT"@) || is_set_true(
            env,
            "TAEL_TENANT_ISOLATION"@,
        ))
        &&& self.tenant_isolation == is_set_true(env, "TAEL_TENANT_ISOLATION"@)
        &&& self.auth == match non_blank(env, "TAEL_AUTH"@) {
            Some(s) => mode_named(s),
            None => None,
        }
    }

    /// The configuration that an environment and the arguments behind the
    /// program's name make. A `--storage` argument takes precedence over the
    /// environment. An auth mode that is none is ignored, and the server falls
    /// back to the default that its addresses call for.
    pub fn from_env(env: &Labels, args: &Vec<String>) -> (r: Self)
        ensures
            r.selected_by(env@, texts(args@)),
    {
        let storage = match storage_flag(args) {
            Some(backend) => backend,
            None => match env.get("TAEL_STORAGE") {
                Some(s) => StorageBackend::parse(s.as_str()),
                None => StorageBackend::TaelBackend,
            },
        };
        let data_dir = match read(env, "TAEL_DATA_DIR") {
            Some(d) => d,
            None => default_data_dir(env),
        };
        let wal_dir = match read(env, "TAEL_WAL_DIR") {
            Some(d) => d,
            None => match read(env, "WALRUS_DATA_DIR") {
                Some(d) => d,
                None => default_wal_dir(env),
            },
        };
        let wal_required_acks: Option<usize> = match env.get("TAEL_WAL_REQUIRED_ACKS") {
            Some(s) => match parse_unsigned(trim(s.as_str()).as_str(), usize::MAX as u64) {
                Some(n) => Some(n as usize),
                None => None,
            },
            None => None,
        };
        let auth = match non_empty_env(env, "TAEL_AUTH") {
            Some(s) => match AuthMode::parse(s.as_str()) {
                Ok(mode) => Some(mode),
                Err(_) => None,
            },
            None => None,
        };
        let node_role = match env.get("TAEL_NODE_ROLE") {
            Some(s) => NodeRole::parse(s.as_str()),
            None => NodeRole::Full,
        };
        ServerConfig {
            otlp_grpc_addr: read_or(env, "TAEL_OTLP_GRPC_ADDR", "127.0.0.1:4317"),
            otlp_http_addr: parse_otlp_http_addr(read(env, "TAEL_OTLP_HTTP_ADDR")),
            rest_api_addr: read_or(env, "TAEL_REST_API_ADDR", "127.0.0.1:7701"),
            rest_api_socket: non_empty_env(env, "TAEL_REST_API_SOCKET"),
            dd_agent_addr: parse_dd_agent_addr(read(env, "TAEL_DD_AGENT_ADDR")),
            data_dir,
            wal_dir,
            storage,
            node_role,
            ingest_shards: parse_csv_env(env, "TAEL_INGEST_SHARDS"),
            query_shards: parse_csv_env(env, "TAEL_QUERY_SHARDS"),
            wal_standbys: parse_csv_env(env, "TAEL_WAL_STANDBYS"),
            wal_required_acks,
            cluster: cluster_from_env(env),
            object_store: ObjectStoreConfig::from_env(env),
            comments: CommentsConfig::from_env(env),
            auth,
            config_path: non_empty_env(env, "TAEL_CONFIG"),
            multi_tenant: bool_env(env, "TAEL_MULTI_TENANT") || bool_env(
                env,
                "TAEL_TENANT_ISOLATION",
            ),
            tenant_isolation: bool_env(env, "TAEL_TENANT_ISOLATION"),
        }
    }
}

// ── Laws ────────────────────────────────────────────────────────────

/// A `--storage` argument wins over the environment.
pub proof fn storage_argument_wins(c: ServerConfig, env: Env, args: Seq<Seq<char>>)
    requires
        c.selected_by(env, args),
        storage_argument(args, 0) is Some,
    ensures
        storage_argument(args, 0) == Some(c.storage),
{
}

/// An unset listener is on at its default; a blank setting turns it off.
pub proof fn listeners_default_on(default: Seq<char>, blank: Seq<char>)
    requires
        trimmed(blank).len() == 0,
    ensures
        optional_addr(None, default) == Some(default),
        optional_addr(Some(blank), default) is None,
{
    reveal_strlit("");
    assert(trimmed(blank) =~= Seq::<char>::empty());
    assert(word(blank) =~= ""@);
}

/// Each setting is read from the variable of its name; where that is not set, the
/// server listens on this machine alone, on the ports that are usual.
pub proof fn settings_are_read_by_name(c: ServerConfig, env: Env, args: Seq<Seq<char>>)
    requires
        c.selected_by(env, args),
    ensures
        env.dom().contains("TAEL_OTLP_GRPC_ADDR"@) ==> c.otlp_grpc_addr@
            == env["TAEL_OTLP_GRPC_ADDR"@],
        !env.dom().contains("TAEL_OTLP_GRPC_ADDR"@) ==> c.otlp_grpc_addr@ == "127.0.0.1:4317"@,
        env.dom().contains("TAEL_REST_API_ADDR"@) ==> c.rest_api_addr@ == env["TAEL_REST_API_ADDR"@],
        !env.dom().contains("TAEL_REST_API_ADDR"@) ==> c.rest_api_addr@ == "127.0.0.1:7701"@,
        !env.dom().contains("TAEL_OTLP_HTTP_ADDR"@) ==> (c.otlp_http_addr matches Some(a) && a@
            == "127.0.0.1:4318"@),
        !env.dom().contains("TAEL_DD_AGENT_ADDR"@) ==> (c.dd_agent_addr matches Some(a) && a@
            == "127.0.0.1:8126"@),
        c.otlp_http_addr matches Some(a) ==> (env.dom().contains("TAEL_OTLP_HTTP_ADDR"@) ==> a@
            == env["TAEL_OTLP_HTTP_ADDR"@]),
        c.dd_agent_addr matches Some(a) ==> (env.dom().contains("TAEL_DD_AGENT_ADDR"@) ==> a@
            == env["TAEL_DD_AGENT_ADDR"@]),
        env.dom().contains("TAEL_DATA_DIR"@) ==> c.data_dir@ == env["TAEL_DATA_DIR"@],
        env.dom().contains("TAEL_WAL_DIR"@) ==> c.wal_dir@ == env["TAEL_WAL_DIR"@],
        !env.dom().contains("TAEL_WAL_DIR"@) && env.dom().contains("WALRUS_DATA_DIR"@)
            ==> c.wal_dir@ == env["WALRUS_DATA_DIR"@],
        c.rest_api_socket matches Some(s) ==> env.dom().contains("TAEL_REST_API_SOCKET"@) && s@
            == env["TAEL_REST_API_SOCKET"@],
        env.dom().contains("TAEL_REST_API_SOCKET"@) && trimmed(env["TAEL_REST_API_SOCKET"@]).len()
            > 0 ==> c.rest_api_socket is Some,
        c.config_path matches Some(s) ==> env.dom().contains("TAEL_CONFIG"@) && s@
            == env["TAEL_CONFIG"@],
        env.dom().contains("TAEL_CONFIG"@) && trimmed(env["TAEL_CONFIG"@]).len() > 0
            ==> c.config_path is Some,
        c.tenant_isolation ==> c.multi_tenant,
        !env.dom().contains("TAEL_MULTI_TENANT"@) && !env.dom().contains("TAEL_TENANT_ISOLATION"@)
            ==> !c.multi_tenant && !c.tenant_isolation,
        !env.dom().contains("TAEL_TENANT_ISOLATION"@) ==> !c.tenant_isolation,
        !env.dom().contains("TAEL_NODE_ROLE"@) ==> c.node_role == NodeRole::Full,
        !env.dom().contains("TAEL_AUTH"@) ==> c.auth is None,
{
}

/// The peers of a server are those that its variables list, and it coordinates
/// with others exactly when it is told where to listen for them.
pub proof fn peers_are_read_by_name(c: ServerConfig, env: Env, args: Seq<Seq<char>>)
    requires
        c.selected_by(env, args),
    ensures
        env.dom().contains("TAEL_INGEST_SHARDS"@) ==> texts(c.ingest_shards@) == csv_items(
            env["TAEL_INGEST_SHARDS"@],
        ),
        !env.dom().contains("TAEL_INGEST_SHARDS"@) ==> c.ingest_shards@.len() == 0,
        env.dom().contains("TAEL_QUERY_SHARDS"@) ==> texts(c.query_shards@) == csv_items(
            env["TAEL_QUERY_SHARDS"@],
        ),
        !env.dom().contains("TAEL_QUERY_SHARDS"@) ==> c.query_shards@.len() == 0,
        env.dom().contains("TAEL_WAL_STANDBYS"@) ==> texts(c.wal_standbys@) == csv_items(
            env["TAEL_WAL_STANDBYS"@],
        ),
        !env.dom().contains("TAEL_WAL_STANDBYS"@) ==> c.wal_standbys@.len() == 0,
        !env.dom().contains("TAEL_WAL_REQUIRED_ACKS"@) ==> c.wal_required_acks is None,
        c.cluster is Some <==> env.dom().contains("TAEL_CLUSTER_LISTEN"@),
        c.cluster matches Some(k) ==> {
            &&& k.listen_addr@ == env["TAEL_CLUSTER_LISTEN"@]
            &&& env.dom().contains("TAEL_CLUSTER_ADVERTISE"@) ==> k.advertise_addr@
                == env["TAEL_CLUSTER_ADVERTISE"@]
            &&& !env.dom().contains("TAEL_CLUSTER_ADVERTISE"@) ==> k.advertise_addr@
                == k.listen_addr@
            &&& env.dom().contains("TAEL_NODE_ID"@) ==> k.node_id@ == env["TAEL_NODE_ID"@]
            &&& !env.dom().contains("TAEL_NODE_ID"@) ==> k.node_id@ == k.advertise_addr@
            &&& env.dom().contains("TAEL_CLUSTER_ID"@) ==> k.cluster_id@ == env["TAEL_CLUSTER_ID"@]
            &&& !env.dom().contains("TAEL_CLUSTER_ID"@) ==> k.cluster_id@ == "tael"@
        },
{
    if !env.dom().contains("TAEL_INGEST_SHARDS"@) {
        assert(texts(c.ingest_shards@).len() == 0);
    }
    if !env.dom().contains("TAEL_QUERY_SHARDS"@) {
        assert(texts(c.query_shards@).len() == 0);
    }
    if !env.dom().contains("TAEL_WAL_STANDBYS"@) {
        assert(texts(c.wal_standbys@).len() == 0);
    }
}

/// Cold data and payloads are each kept where their own variable says, in the
/// bucket of their own; comments likewise.
pub proof fn stores_are_read_by_name(o: ObjectStoreConfig, k: CommentsConfig, env: Env)
    requires
        o.selected_by(env),
        k.selected_by(env),
    ensures
        o.cold == StoreLocation::Gcs <==> env.dom().contains("TAEL_COLD_STORE"@) && word(
            env["TAEL_COLD_STORE"@],
        ) == "gcs"@,
        o.blobs == StoreLocation::Gcs <==> env.dom().contains("TAEL_BLOB_STORE"@) && word(
            env["TAEL_BLOB_STORE"@],
        ) == "gcs"@,
        o.cold_bucket matches Some(b) ==> env.dom().contains("TAEL_COLD_BUCKET"@) && b@
            == env["TAEL_COLD_BUCKET"@],
        o.blob_bucket matches Some(b) ==> env.dom().contains("TAEL_BLOB_BUCKET"@) && b@
            == env["TAEL_BLOB_BUCKET"@],
        env.dom().contains("TAEL_COLD_BUCKET"@) && trimmed(env["TAEL_COLD_BUCKET"@]).len() > 0
            ==> o.cold_bucket is Some,
        env.dom().contains("TAEL_BLOB_BUCKET"@) && trimmed(env["TAEL_BLOB_BUCKET"@]).len() > 0
            ==> o.blob_bucket is Some,
        !env.dom().contains("TAEL_BLOB_GC_ROLE"@) ==> !o.blob_gc_coordinator,
        k.backend == CommentsBackend::Postgres <==> env.dom().contains("TAEL_COMMENTS_STORE"@) && (
        word(env["TAEL_COMMENTS_STORE"@]) == "postgres"@ || word(env["TAEL_COMMENTS_STORE"@])
            == "postgresql"@ || word(env["TAEL_COMMENTS_STORE"@]) == "pg"@),
        k.database_url matches Some(u) ==> env.dom().contains("TAEL_COMMENTS_DATABASE_URL"@) && u@
            == env["TAEL_COMMENTS_DATABASE_URL"@],
{
}

/// A list is its items between the commas, without the space around them and
/// without the blank ones, in order.
pub proof fn lists_hold_their_items(s: Seq<char>, i: int)
    requires
        0 <= i < split_on(s, ',').len(),
    ensures
        trimmed(split_on(s, ',')[i]).len() > 0 ==> csv_items(s).contains(trimmed(split_on(s, ',')[i])),
        forall|k: int| 0 <= k < csv_items(s).len() ==> (#[trigger] csv_items(s)[k]).len() > 0,
{
    let all = split_on(s, ',').map_values(|p: Seq<char>| trimmed(p));
    let keep = |p: Seq<char>| p.len() > 0;
    assert(all[i] == trimmed(split_on(s, ',')[i]));
    all.filter_lemma(keep);
    if trimmed(split_on(s, ',')[i]).len() > 0 {
        assert(keep(all[i]));
    }
    assert forall|k: int| 0 <= k < csv_items(s).len() implies (#[trigger] csv_items(s)[k]).len() > 0 by {
        assert(keep(all.filter(keep)[k]));
    }
}

/// A path stands behind its base, unless it begins at the root.
pub proof fn paths_stand_behind_their_base(base: Seq<char>, name: Seq<char>)
    requires
        base.len() > 0,
        base.last() != '/',
        name.len() > 0,
    ensures
        name[0] != '/' ==> joined_path(base, name) == base + seq!['/'] + name && joined_path(
            base.push('/'),
            name,
        ) == base + seq!['/'] + name,
        name[0] == '/' ==> joined_path(base, name) == name,
{
    reveal_strlit("/");
    assert(base + "/"@ + name =~= base + seq!['/'] + name);
    assert(base.push('/') + name =~= base + seq!['/'] + name);
}

/// What is not kept under a directory of its own is kept in the home of whoever
/// runs the server.
pub proof fn homes_are_read_in_order(env: Env)
    ensures
        env.dom().contains("HOME"@) ==> home(env) == Some(env["HOME"@]),
        !env.dom().contains("HOME"@) && env.dom().contains("USERPROFILE"@) ==> home(env) == Some(
            env["USERPROFILE"@],
        ),
        !env.dom().contains("HOME"@) && !env.dom().contains("USERPROFILE"@) && !env.dom().contains(
            "HOMEDRIVE"@,
        ) ==> tael_home(env) == ".tael"@,
        env.dom().contains("HOME"@) && env["HOME"@].len() > 0 && env["HOME"@].last() != '/'
            ==> tael_home(env) == env["HOME"@] + "/.tael"@,
{
    reveal_strlit(".tael");
    reveal_strlit("/.tael");
    reveal_strlit("/");
    assert(env["HOME"@] + "/"@ + ".tael"@ =~= env["HOME"@] + "/.tael"@);
}

/// The backend is chosen by the first `--storage` argument, in either form.
pub proof fn the_first_storage_argument_counts(args: Seq<Seq<char>>, i: int)
    requires
        0 <= i < args.len(),
        forall|k: int|
            0 <= k < i ==> (#[trigger] args[k]) != "--storage"@ && !crate::text::has_prefix(
                args[k],
                "--storage="@,
            ),
    ensures
        args[i] == "--storage"@ && i + 1 < args.len() ==> (storage_argument(args, 0) matches Some(b)
            && (b == StorageBackend::Duckdb <==> word(args[i + 1]) == "duckdb"@)),
        args[i] != "--storage"@ && crate::text::has_prefix(args[i], "--storage="@) ==> (
        storage_argument(args, 0) matches Some(b) && (b == StorageBackend::Duckdb <==> word(
            args[i].skip(10),
        ) == "duckdb"@)),
{
    reveal_strlit("--storage=");
    storage_is_found(args, 0, i);
}

proof fn storage_is_found(args: Seq<Seq<char>>, from: int, i: int)
    requires
        0 <= from <= i < args.len(),
        forall|k: int|
            from <= k < i ==> (#[trigger] args[k]) != "--storage"@ && !crate::text::has_prefix(
                args[k],
                "--storage="@,
            ),
    ensures
        storage_argument(args, from) == storage_argument(args, i),
    decreases i - from,
{
    if from < i {
        assert(args[from] != "--storage"@);
        storage_is_found(args, from + 1, i);
    }
}

/// A listener is turned off by one of the words for it and otherwise listens where
/// it is told; a switch is on for one of the words for that; roles and backends are
/// told by theirs.
pub proof fn words_switch_things(v: Seq<char>, default: Seq<char>, env: Env, name: Seq<char>, n: usize)
    ensures
        word(v) == "off"@ || word(v) == "none"@ || word(v) == "disabled"@ || word(v) == "false"@
            || word(v) == "0"@ ==> optional_addr(Some(v), default) is None,
        optional_addr(Some(v), default) matches Some(a) ==> a == v,
        word(v).len() > 0 && word(v) != "off"@ && word(v) != "none"@ && word(v) != "disabled"@
            && word(v) != "false"@ && word(v) != "0"@ ==> optional_addr(Some(v), default) == Some(v),
        env.dom().contains(name) && env[name] == v ==> (is_set_true(env, name) <==> word(v) == "1"@
            || word(v) == "true"@ || word(v) == "on"@ || word(v) == "yes"@),
        !env.dom().contains(name) ==> !is_set_true(env, name),
        node_role_named(v) == NodeRole::Ingest <==> word(v) == "ingest"@ || word(v)
            == "ingest-only"@ || word(v) == "ingest_only"@,
        backend_named(v) == StorageBackend::Duckdb <==> word(v) == "duckdb"@,
        acks_of(Some(crate::text::decimal(n as nat))) == Some(n),
        acks_of(None) is None,
{
    reveal_strlit("");
    assert(""@.len() == 0);
    crate::text::decimal_reads_back(n as nat);
    let d = crate::text::decimal(n as nat);
    assert(crate::text::is_digit(d[0]) && crate::text::is_digit(d[d.len() - 1]));
    assert(trimmed(d) == d);
}

} // verus!
