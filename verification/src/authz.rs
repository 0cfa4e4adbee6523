//! Request authorization, the same for every listener.
//!
//! The required role is derived from the request rather than declared per
//! route: reads need [`Role::Reader`], anything that mutates state needs
//! [`Role::Writer`], and the key-management surface needs [`Role::Admin`]. A
//! route added later is protected by default.

use crate::auth::{authenticated, speaks_for, AuthMode, KeyStore, Principal, Role};
use crate::text::{begins_with, has_prefix, opt_text, same, strip_prefix, trim, trimmed};
use vstd::prelude::*;

verus! {

/// Paths reachable without credentials: liveness and readiness, which reveal
/// no telemetry.
pub open spec fn public_path(path: Seq<char>) -> bool {
    path == "/healthz"@ || path == "/readyz"@
}

pub fn is_public(path: &str) -> (r: bool)
    ensures
        r == public_path(path@),
{
    same(path, "/healthz") || same(path, "/readyz")
}

/// The role a request needs, derived from its method and path.
pub open spec fn needed_role(method: Seq<char>, path: Seq<char>) -> Role {
    if has_prefix(path, "/api/v1/auth"@) {
        Role::Admin
    } else if method == "GET"@ || method == "HEAD"@ || method == "OPTIONS"@ {
        Role::Reader
    } else {
        Role::Writer
    }
}

pub fn required_role(method: &str, path: &str) -> (r: Role)
    ensures
        r == needed_role(method@, path@),
{
    if begins_with(path, "/api/v1/auth") {
        return Role::Admin;
    }
    // Reads. Everything else changes state: telemetry ingest, annotations,
    // eval scores, log replication.
    if same(method, "GET") || same(method, "HEAD") || same(method, "OPTIONS") {
        Role::Reader
    } else {
        Role::Writer
    }
}

/// The headers in which a key can be presented, where they are readable text.
#[derive(Debug)]
pub struct KeyHeaders {
    pub authorization: Option<String>,
    pub x_tael_api_key: Option<String>,
    pub dd_api_key: Option<String>,
}

/// The token of a bearer credential, `Bearer` or `bearer` and a space before
/// it.
pub open spec fn bearer_token(value: Seq<char>) -> Option<Seq<char>> {
    if has_prefix(value, "Bearer "@) {
        Some(value.skip("Bearer "@.len() as int))
    } else if has_prefix(value, "bearer "@) {
        Some(value.skip("bearer "@.len() as int))
    } else {
        None
    }
}

/// What an `Authorization` header presents: its bearer token, or else the
/// whole value where it is not blank.
pub open spec fn authorization_key(value: Seq<char>) -> Option<Seq<char>> {
    match bearer_token(trimmed(value)) {
        Some(token) => Some(trimmed(token)),
        None => if trimmed(value).len() > 0 {
            Some(trimmed(value))
        } else {
            None
        },
    }
}

/// What a plain header presents: its value where it is not blank.
pub open spec fn plain_key(value: Option<String>) -> Option<Seq<char>> {
    match value {
        Some(v) => if trimmed(v@).len() > 0 {
            Some(trimmed(v@))
        } else {
            None
        },
        None => None,
    }
}

/// The key that a request presents. `Authorization` comes first, then
/// `X-Tael-Api-Key`, then `DD-API-KEY`.
pub open spec fn key_presented(h: KeyHeaders) -> Option<Seq<char>> {
    let first = match h.authorization {
        Some(v) => authorization_key(v@),
        None => None,
    };
    if first is Some {
        first
    } else if plain_key(h.x_tael_api_key) is Some {
        plain_key(h.x_tael_api_key)
    } else {
        plain_key(h.dd_api_key)
    }
}

fn read_bearer(value: &str) -> (r: Option<String>)
    ensures
        match r {
            Some(t) => bearer_token(value@) == Some(t@),
            None => bearer_token(value@) is None,
        },
{
    match strip_prefix(value, "Bearer ") {
        Some(token) => Some(token),
        None => strip_prefix(value, "bearer "),
    }
}

fn read_plain(value: &Option<String>) -> (r: Option<String>)
    ensures
        match r {
            Some(k) => plain_key(*value) == Some(k@),
            None => plain_key(*value) is None,
        },
{
    match value {
        Some(v) => {
            let t = trim(v.as_str());
            if t.as_str().is_empty() {
                None
            } else {
                Some(t)
            }
        },
        None => None,
    }
}

/// Pull a presented key out of the request's headers.
pub fn presented_key(headers: &KeyHeaders) -> (r: Option<String>)
    ensures
        match r {
            Some(k) => key_presented(*headers) == Some(k@),
            None => key_presented(*headers) is None,
        },
{
    if let Some(value) = &headers.authorization {
        let value = trim(value.as_str());
        if let Some(token) = read_bearer(value.as_str()) {
            return Some(trim(token.as_str()));
        }
        if !value.as_str().is_empty() {
            return Some(value);
        }
    }
    match read_plain(&headers.x_tael_api_key) {
        Some(k) => Some(k),
        None => read_plain(&headers.dd_api_key),
    }
}

/// What to do with a request.
#[derive(Debug)]
pub enum Decision {
    /// Let it through; where there is a principal, on its behalf.
    Allow(Option<Principal>),
    MissingKey,
    InvalidKey,
    Forbidden { have: Role, need: Role },
}

/// Whether a decision is the one that a request is due.
pub open spec fn decided(
    d: Decision,
    mode: AuthMode,
    keys: KeyStore,
    method: Seq<char>,
    path: Seq<char>,
    headers: KeyHeaders,
) -> bool {
    if mode == AuthMode::Off {
        d matches Decision::Allow(Some(p)) && p.key_id@ == "anonymous"@ && p.name@ == "anonymous"@
            && p.role == Role::Admin && p.tenant@ == "default"@
    } else if public_path(path) {
        d matches Decision::Allow(None)
    } else {
        match key_presented(headers) {
            None => d is MissingKey,
            Some(presented) => match authenticated(keys.keys@, presented) {
                None => d is InvalidKey,
                Some(key) => if key.role.rank() >= needed_role(method, path).rank() {
                    d matches Decision::Allow(Some(p)) && speaks_for(p, key)
                } else {
                    d == (Decision::Forbidden { have: key.role, need: needed_role(method, path) })
                },
            },
        }
    }
}

/// Decides whether a request may pass, and on whose behalf.
pub fn authorize(
    mode: AuthMode,
    keys: &KeyStore,
    method: &str,
    path: &str,
    headers: &KeyHeaders,
) -> (r: Decision)
    ensures
        decided(r, mode, *keys, method@, path@, *headers),
{
    if mode == AuthMode::Off {
        return Decision::Allow(Some(Principal::anonymous()));
    }
    if is_public(path) {
        return Decision::Allow(None);
    }
    let presented = match presented_key(headers) {
        Some(presented) => presented,
        None => return Decision::MissingKey,
    };
    let principal = match keys.authenticate(presented.as_str()) {
        Some(principal) => principal,
        None => return Decision::InvalidKey,
    };
    let need = required_role(method, path);
    if !principal.role.satisfies(need) {
        return Decision::Forbidden { have: principal.role, need };
    }
    Decision::Allow(Some(principal))
}

/// The key that the metadata of a gRPC call presents: the bearer token or the
/// whole `authorization` value; without that entry, `x-tael-api-key`.
pub open spec fn grpc_key(authorization: Option<Seq<char>>, api_key: Option<Seq<char>>) -> Option<
    Seq<char>,
> {
    let presented = match authorization {
        Some(v) => match bearer_token(trimmed(v)) {
            Some(token) => Some(token),
            None => Some(trimmed(v)),
        },
        None => match api_key {
            Some(v) => Some(trimmed(v)),
            None => None,
        },
    };
    match presented {
        Some(k) => if k.len() > 0 {
            Some(k)
        } else {
            None
        },
        None => None,
    }
}

/// Whether a decision is the one that a call to the ingest listener is due.
pub open spec fn grpc_decided(
    d: Decision,
    mode: AuthMode,
    keys: KeyStore,
    authorization: Option<Seq<char>>,
    api_key: Option<Seq<char>>,
) -> bool {
    if mode == AuthMode::Off {
        d matches Decision::Allow(None)
    } else {
        match grpc_key(authorization, api_key) {
            None => d is MissingKey,
            Some(presented) => match authenticated(keys.keys@, presented) {
                None => d is InvalidKey,
                Some(key) => if key.role.rank() >= Role::Writer.rank() {
                    d matches Decision::Allow(Some(p)) && speaks_for(p, key)
                } else {
                    d == (Decision::Forbidden { have: key.role, need: Role::Writer })
                },
            },
        }
    }
}

/// Decides whether a gRPC call to the ingest listener may pass. Ingest is a
/// write, so every export needs at least [`Role::Writer`].
pub fn authorize_grpc(
    mode: AuthMode,
    keys: &KeyStore,
    authorization: &Option<String>,
    api_key: &Option<String>,
) -> (r: Decision)
    ensures
        grpc_decided(r, mode, *keys, opt_text(*authorization), opt_text(*api_key)),
{
    if mode == AuthMode::Off {
        return Decision::Allow(None);
    }
    let presented: Option<String> = match authorization {
        Some(v) => {
            let v = trim(v.as_str());
            match read_bearer(v.as_str()) {
                Some(token) => Some(token),
                None => Some(v),
            }
        },
        None => match api_key {
            Some(v) => Some(trim(v.as_str())),
            None => None,
        },
    };
    let presented = match presented {
        Some(k) => {
            if k.as_str().is_empty() {
                return Decision::MissingKey;
            }
            k
        },
        None => return Decision::MissingKey,
    };
    let principal = match keys.authenticate(presented.as_str()) {
        Some(principal) => principal,
        None => return Decision::InvalidKey,
    };
    if !principal.role.satisfies(Role::Writer) {
        return Decision::Forbidden { have: principal.role, need: Role::Writer };
    }
    Decision::Allow(Some(principal))
}

/// What a refused request is told.
pub open spec fn forbidden_text(have: Role, need: Role) -> Seq<char> {
    "this key has the `"@ + have.name() + "` role; `"@ + need.name()
        + "` is required for this request"@
}

pub fn forbidden(have: Role, need: Role) -> (r: String)
    ensures
        r@ == forbidden_text(have, need),
{
    let mut out = "this key has the `".to_owned();
    out.append(have.as_str());
    out.append("` role; `");
    out.append(need.as_str());
    out.append("` is required for this request");
    out
}

// ── Laws ────────────────────────────────────────────────────────────

/// With authentication required, a request that passes is either public or
/// carries an active key whose role satisfies what the request needs.
pub proof fn nothing_passes_unauthenticated(
    d: Decision,
    keys: KeyStore,
    method: Seq<char>,
    path: Seq<char>,
    headers: KeyHeaders,
)
    requires
        decided(d, AuthMode::Required, keys, method, path, headers),
        d is Allow,
        !public_path(path),
    ensures
        d matches Decision::Allow(Some(p)) && exists|key: crate::auth::ApiKeyRecord|
            keys.keys@.contains(key) && key.active() && #[trigger] speaks_for(p, key)
                && p.role.rank() >= needed_role(method, path).rank(),
{
    let presented = key_presented(headers)->0;
    crate::auth::only_active_keys_authenticate(keys.keys@, presented);
    let key = authenticated(keys.keys@, presented)->0;
    assert(speaks_for(d->Allow_0->0, key));
}

/// A reader's key never gets a request through that is not a read.
pub proof fn readers_do_not_write(
    d: Decision,
    keys: KeyStore,
    method: Seq<char>,
    path: Seq<char>,
    headers: KeyHeaders,
    p: Principal,
)
    requires
        decided(d, AuthMode::Required, keys, method, path, headers),
        d == Decision::Allow(Some(p)),
        p.role == Role::Reader,
    ensures
        method == "GET"@ || method == "HEAD"@ || method == "OPTIONS"@,
{
}

/// Administration is for administrators, whatever the method; reading is for
/// readers and anything else for writers.
pub proof fn requests_need_their_role(method: Seq<char>, rest: Seq<char>, path: Seq<char>)
    ensures
        needed_role(method, "/api/v1/auth"@ + rest) == Role::Admin,
        !has_prefix(path, "/api/v1/auth"@) ==> {
            &&& needed_role("GET"@, path) == Role::Reader
            &&& needed_role("HEAD"@, path) == Role::Reader
            &&& needed_role("OPTIONS"@, path) == Role::Reader
            &&& method != "GET"@ && method != "HEAD"@ && method != "OPTIONS"@ ==> needed_role(
                method,
                path,
            ) == Role::Writer
        },
{
    let s = "/api/v1/auth"@ + rest;
    assert(s.subrange(0, "/api/v1/auth"@.len() as int) =~= "/api/v1/auth"@);
}

/// Where a key is asked for, a request without one or with one that is not known
/// is turned away, and one with a key is let through exactly when its role
/// suffices, on behalf of the owner of that key. Where none is asked for, and for
/// the public paths, every request is let through.
pub proof fn keys_let_their_owners_through(
    d: Decision,
    mode: AuthMode,
    keys: KeyStore,
    method: Seq<char>,
    path: Seq<char>,
    headers: KeyHeaders,
)
    requires
        decided(d, mode, keys, method, path, headers),
    ensures
        mode == AuthMode::Off ==> (d matches Decision::Allow(Some(p)) && p.role == Role::Admin
            && p.tenant@ == "default"@),
        path == "/healthz"@ || path == "/readyz"@ ==> d is Allow,
        mode == AuthMode::Required && path != "/healthz"@ && path != "/readyz"@ ==> {
            &&& key_presented(headers) is None <==> d is MissingKey
            &&& key_presented(headers) matches Some(k) ==> {
                &&& authenticated(keys.keys@, k) is None <==> d is InvalidKey
                &&& authenticated(keys.keys@, k) matches Some(key) ==> {
                    &&& d is Allow <==> key.role.rank() >= needed_role(method, path).rank()
                    &&& d is Forbidden <==> key.role.rank() < needed_role(method, path).rank()
                    &&& d matches Decision::Allow(Some(p)) ==> p.role == key.role && p.tenant@
                        == key.tenant@ && p.key_id@ == key.id@ && p.name@ == key.name@
                    &&& d matches Decision::Forbidden { have, need } ==> have == key.role && need
                        == needed_role(method, path)
                    &&& d is Allow ==> d->Allow_0 is Some
                }
            }
        },
{
}

/// Telemetry over the other protocol is pushed by writers and administrators
/// alone.
pub proof fn writers_push_telemetry(
    d: Decision,
    mode: AuthMode,
    keys: KeyStore,
    authorization: Option<Seq<char>>,
    api_key: Option<Seq<char>>,
)
    requires
        grpc_decided(d, mode, keys, authorization, api_key),
    ensures
        mode == AuthMode::Off ==> d is Allow,
        mode == AuthMode::Required ==> {
            &&& grpc_key(authorization, api_key) is None <==> d is MissingKey
            &&& grpc_key(authorization, api_key) matches Some(k) ==> {
                &&& authenticated(keys.keys@, k) is None <==> d is InvalidKey
                &&& authenticated(keys.keys@, k) matches Some(key) ==> {
                    &&& d is Allow <==> key.role == Role::Writer || key.role == Role::Admin
                    &&& d is Forbidden <==> key.role == Role::Reader
                    &&& d matches Decision::Allow(Some(p)) ==> p.role == key.role && p.tenant@
                        == key.tenant@ && p.key_id@ == key.id@ && p.name@ == key.name@
                    &&& d is Allow ==> d->Allow_0 is Some
                }
            }
        },
{
}

/// A key is read from the authorization header, with or without `Bearer` before
/// it, else from the header of its own, else from the one that Datadog's clients
/// send.
pub proof fn keys_are_read_from_their_header(k: Seq<char>, h: KeyHeaders)
    requires
        k.len() > 0,
        trimmed(k) == k,
        trimmed("Bearer "@ + k) == "Bearer "@ + k,
        trimmed("bearer "@ + k) == "bearer "@ + k,
        !has_prefix(k, "Bearer "@),
        !has_prefix(k, "bearer "@),
    ensures
        authorization_key("Bearer "@ + k) == Some(k),
        authorization_key("bearer "@ + k) == Some(k),
        authorization_key(k) == Some(k),
        h.authorization matches Some(v) && v@ == "Bearer "@ + k ==> key_presented(h) == Some(k),
        h.authorization is None && (h.x_tael_api_key matches Some(v) && v@ == k) ==> key_presented(
            h,
        ) == Some(k),
        h.authorization is None && h.x_tael_api_key is None && (h.dd_api_key matches Some(v) && v@
            == k) ==> key_presented(h) == Some(k),
        h.authorization is None && h.x_tael_api_key is None && h.dd_api_key is None
            ==> key_presented(h) is None,
        grpc_key(Some("Bearer "@ + k), None) == Some(k),
        grpc_key(Some(k), None) == Some(k),
        grpc_key(None, Some(k)) == Some(k),
        grpc_key(None, None) is None,
{
    reveal_strlit("Bearer ");
    reveal_strlit("bearer ");
    let (a, b) = ("Bearer "@ + k, "bearer "@ + k);
    assert(a.subrange(0, 7) =~= "Bearer "@);
    assert(b.subrange(0, 7) =~= "bearer "@);
    assert(b.subrange(0, 7)[0] == 'b' && "Bearer "@[0] == 'B');
    assert(a.skip(7) =~= k);
    assert(b.skip(7) =~= k);
}

/// Whoever is turned away is told first which role they have and then which one is
/// needed.
pub proof fn the_role_that_is_had_is_told_first(have: Role, need: Role)
    ensures
        has_prefix(forbidden_text(have, need), "this key has the `"@ + have.name() + "` role; `"@),
        forbidden_text(have, need).skip(
            ("this key has the `"@ + have.name() + "` role; `"@).len() as int,
        ) == need.name() + "` is required for this request"@,
{
    let head = "this key has the `"@ + have.name() + "` role; `"@;
    let s = forbidden_text(have, need);
    assert(s.subrange(0, head.len() as int) =~= head);
    assert(s.skip(head.len() as int) =~= need.name() + "` is required for this request"@);
}

} // verus!
