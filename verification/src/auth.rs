//! API-key authentication.
//!
//! A key is an identity, and its role is baked into the key's own prefix
//! (`tael_r_`, `tael_w_`, `tael_a_`) so that whoever holds one can tell what it
//! may do without a round trip.
//!
//! * **Zero friction on loopback.** Authentication only turns itself on when
//!   the server is reachable from off-box.
//! * **Fail closed off-box.** See [`AuthMode::resolve`].
//!
//! Keys are stored as salted SHA-256 digests; the plaintext is shown exactly
//! once, at creation.

use crate::address::{is_loopback, is_loopback_addr};
use crate::crypto::{hex_encode, hex_text, now, random_hex, sha256, sha256_of};
use crate::text::{bytes_of, lowered, same, to_lower, trim, trimmed};
use crate::time::Timestamp;
use vstd::prelude::*;

verus! {

/// What a key is allowed to do. Ordered: each role subsumes the ones before it.
#[derive(Debug, Clone, Copy, PartialEq, Eq, Structural)]
pub enum Role {
    /// Query traces, logs, metrics, summaries, anomalies, topology.
    Reader,
    /// Everything a reader can do, plus pushing telemetry and writing
    /// annotations.
    Writer,
    /// Everything a writer can do, plus server administration.
    Admin,
}

/// A word that names no role, or no mode.
#[derive(Debug, Clone)]
pub struct UnknownWord {
    pub kind: String,
    pub word: String,
    pub expected: String,
}

impl UnknownWord {
    pub fn message(&self) -> (r: String)
        ensures
            r@ == "unknown "@ + self.kind@ + " `"@ + self.word@ + "` (expected "@ + self.expected@
                + ")"@,
    {
        let mut out = "unknown ".to_owned();
        out.append(self.kind.as_str());
        out.append(" `");
        out.append(self.word.as_str());
        out.append("` (expected ");
        out.append(self.expected.as_str());
        out.append(")");
        out
    }
}

/// The role that a word names, whatever its case and the space around it.
pub open spec fn role_named(s: Seq<char>) -> Option<Role> {
    let w = lowered(trimmed(s));
    if w == "reader"@ || w == "read"@ || w == "r"@ {
        Some(Role::Reader)
    } else if w == "writer"@ || w == "write"@ || w == "w"@ {
        Some(Role::Writer)
    } else if w == "admin"@ || w == "a"@ {
        Some(Role::Admin)
    } else {
        None
    }
}

impl Role {
    pub open spec fn rank(self) -> int {
        match self {
            Role::Reader => 0,
            Role::Writer => 1,
            Role::Admin => 2,
        }
    }

    pub open spec fn prefix_text(self) -> Seq<char> {
        match self {
            Role::Reader => "tael_r_"@,
            Role::Writer => "tael_w_"@,
            Role::Admin => "tael_a_"@,
        }
    }

    pub open spec fn name(self) -> Seq<char> {
        match self {
            Role::Reader => "reader"@,
            Role::Writer => "writer"@,
            Role::Admin => "admin"@,
        }
    }

    /// The key prefix that encodes this role.
    pub fn prefix(self) -> (r: &'static str)
        ensures
            r@ == self.prefix_text(),
    {
        match self {
            Role::Reader => "tael_r_",
            Role::Writer => "tael_w_",
            Role::Admin => "tael_a_",
        }
    }

    pub fn as_str(self) -> (r: &'static str)
        ensures
            r@ == self.name(),
    {
        match self {
            Role::Reader => "reader",
            Role::Writer => "writer",
            Role::Admin => "admin",
        }
    }

    pub fn parse(s: &str) -> (r: Result<Self, UnknownWord>)
        ensures
            match r {
                Ok(role) => role_named(s@) == Some(role),
                Err(e) => role_named(s@) is None && e.kind@ == "role"@ && e.word@ == lowered(
                    trimmed(s@),
                ) && e.expected@ == "reader, writer, or admin"@,
            },
    {
        let w = to_lower(trim(s).as_str());
        let w_ref = w.as_str();
        if same(w_ref, "reader") || same(w_ref, "read") || same(w_ref, "r") {
            Ok(Role::Reader)
        } else if same(w_ref, "writer") || same(w_ref, "write") || same(w_ref, "w") {
            Ok(Role::Writer)
        } else if same(w_ref, "admin") || same(w_ref, "a") {
            Ok(Role::Admin)
        } else {
            Err(UnknownWord {
                    kind: "role".to_owned(),
                    word: w,
                    expected: "reader, writer, or admin".to_owned(),
                })
        }
    }

    /// Whether a principal with this role satisfies a requirement of `needed`.
    pub fn satisfies(self, needed: Role) -> (r: bool)
        ensures
            r == (self.rank() >= needed.rank()),
    {
        match self {
            Role::Admin => true,
            Role::Writer => match needed {
                Role::Admin => false,
                _ => true,
            },
            Role::Reader => match needed {
                Role::Reader => true,
                _ => false,
            },
        }
    }
}

/// Whether the server enforces authentication.
#[derive(Debug, Clone, Copy, PartialEq, Eq, Structural)]
pub enum AuthMode {
    /// No credentials checked: reachability is authorization. Only sound when
    /// every listener is bound to loopback.
    Off,
    /// Every non-public route requires a valid key.
    Required,
}

impl Default for AuthMode {
    fn default() -> (r: AuthMode)
        ensures
            r == AuthMode::Off,
    {
        AuthMode::Off
    }
}

/// The mode that a word names, whatever its case and the space around it.
pub open spec fn mode_named(s: Seq<char>) -> Option<AuthMode> {
    let w = lowered(trimmed(s));
    if w == "off"@ || w == "none"@ || w == "disabled"@ || w == "false"@ || w == "0"@ {
        Some(AuthMode::Off)
    } else if w == "required"@ || w == "require"@ || w == "on"@ || w == "true"@ || w == "1"@ {
        Some(AuthMode::Required)
    } else {
        None
    }
}

/// The effective mode for a set of listen addresses.
pub open spec fn effective_mode(explicit: Option<AuthMode>, listeners: Seq<&str>) -> AuthMode {
    match explicit {
        Some(mode) => mode,
        None => if forall|i: int| 0 <= i < listeners.len() ==> is_loopback(#[trigger] listeners[i]@) {
            AuthMode::Off
        } else {
            AuthMode::Required
        },
    }
}

impl AuthMode {
    pub fn parse(s: &str) -> (r: Result<Self, UnknownWord>)
        ensures
            match r {
                Ok(mode) => mode_named(s@) == Some(mode),
                Err(e) => mode_named(s@) is None && e.kind@ == "auth mode"@ && e.word@ == lowered(
                    trimmed(s@),
                ) && e.expected@ == "off or required"@,
            },
    {
        let w = to_lower(trim(s).as_str());
        let w_ref = w.as_str();
        if same(w_ref, "off") || same(w_ref, "none") || same(w_ref, "disabled") || same(
            w_ref,
            "false",
        ) || same(w_ref, "0") {
            Ok(AuthMode::Off)
        } else if same(w_ref, "required") || same(w_ref, "require") || same(w_ref, "on") || same(
            w_ref,
            "true",
        ) || same(w_ref, "1") {
            Ok(AuthMode::Required)
        } else {
            Err(UnknownWord {
                    kind: "auth mode".to_owned(),
                    word: w,
                    expected: "off or required".to_owned(),
                })
        }
    }

    /// Decide the effective mode for a set of listen addresses.
    ///
    /// An explicit setting always wins. With nothing set, loopback-only stays
    /// `Off` and any off-box listener becomes `Required`, so a deployment that
    /// exposes the server to a network gets authentication by default.
    pub fn resolve(explicit: Option<AuthMode>, listeners: &[&str]) -> (r: Self)
        ensures
            r == effective_mode(explicit, listeners@),
    {
        if let Some(mode) = explicit {
            return mode;
        }
        let mut i: usize = 0;
        while i < listeners.len()
            invariant
                i <= listeners@.len(),
                explicit is None,
                forall|j: int| 0 <= j < i ==> is_loopback(#[trigger] listeners@[j]@),
            decreases listeners@.len() - i,
        {
            if !is_loopback_addr(listeners[i]) {
                assert(!is_loopback(listeners@[i as int]@));
                return AuthMode::Required;
            }
            i = i + 1;
        }
        AuthMode::Off
    }
}

// ── Keys ────────────────────────────────────────────────────────────

/// A stored key record. The plaintext key never appears here, only its digest.
#[derive(Debug, Clone)]
pub struct ApiKeyRecord {
    /// Stable public identifier, safe to log.
    pub id: String,
    /// Operator-supplied label.
    pub name: String,
    pub role: Role,
    /// Hex SHA-256 of the salt and the plaintext.
    pub hash: String,
    /// Per-key random salt, hex encoded.
    pub salt: String,
    pub created_at: Timestamp,
    /// Set when revoked; a revoked key never authenticates again.
    pub revoked_at: Option<Timestamp>,
    /// Tenant this key reads and writes within.
    pub tenant: String,
}

/// The tenant of a single-tenant deployment.
pub fn default_tenant() -> (r: String)
    ensures
        r@ == "default"@,
{
    "default".to_owned()
}

impl ApiKeyRecord {
    pub open spec fn active(self) -> bool {
        self.revoked_at is None
    }

    /// Whether two records hold the same.
    pub open spec fn same_as(self, other: ApiKeyRecord) -> bool {
        &&& self.id@ == other.id@
        &&& self.name@ == other.name@
        &&& self.role == other.role
        &&& self.hash@ == other.hash@
        &&& self.salt@ == other.salt@
        &&& self.created_at == other.created_at
        &&& self.revoked_at == other.revoked_at
        &&& self.tenant@ == other.tenant@
    }

    pub fn is_active(&self) -> (r: bool)
        ensures
            r == self.active(),
    {
        self.revoked_at.is_none()
    }
}

/// An authenticated caller.
#[derive(Debug, Clone, PartialEq, Eq)]
pub struct Principal {
    pub key_id: String,
    pub name: String,
    pub role: Role,
    pub tenant: String,
}

impl Principal {
    /// The implicit principal when authentication is off: full rights, single
    /// tenant. Named so that it is obvious in logs that no credential was
    /// presented.
    pub fn anonymous() -> (r: Self)
        ensures
            r.key_id@ == "anonymous"@,
            r.name@ == "anonymous"@,
            r.role == Role::Admin,
            r.tenant@ == "default"@,
    {
        Principal {
            key_id: "anonymous".to_owned(),
            name: "anonymous".to_owned(),
            role: Role::Admin,
            tenant: default_tenant(),
        }
    }
}

/// The key set.
#[derive(Debug)]
pub struct KeyStore {
    pub keys: Vec<ApiKeyRecord>,
}

/// The stored form of a plaintext key.
pub open spec fn key_digest(salt: Seq<char>, plaintext: Seq<char>) -> Seq<char> {
    hex_text(sha256(vstd::utf8::encode_utf8(salt) + vstd::utf8::encode_utf8(plaintext)))
}

/// Whether a record is active and stores the digest of a plaintext.
pub open spec fn accepts(key: ApiKeyRecord, plaintext: Seq<char>) -> bool {
    key.active() && key_digest(key.salt@, plaintext) == key.hash@
}

/// The last record that accepts a plaintext.
pub open spec fn accepting(keys: Seq<ApiKeyRecord>, plaintext: Seq<char>) -> Option<ApiKeyRecord>
    decreases keys.len(),
{
    if keys.len() == 0 {
        None
    } else if accepts(keys.last(), plaintext) {
        Some(keys.last())
    } else {
        accepting(keys.drop_last(), plaintext)
    }
}

/// The record behind a presented key.
pub open spec fn authenticated(keys: Seq<ApiKeyRecord>, presented: Seq<char>) -> Option<
    ApiKeyRecord,
> {
    if trimmed(presented).len() == 0 {
        None
    } else {
        accepting(keys, trimmed(presented))
    }
}

pub open spec fn speaks_for(p: Principal, key: ApiKeyRecord) -> bool {
    &&& p.key_id@ == key.id@
    &&& p.name@ == key.name@
    &&& p.role == key.role
    &&& p.tenant@ == key.tenant@
}

/// The position of the first active record with an id, or the length.
pub open spec fn revocable(keys: Seq<ApiKeyRecord>, id: Seq<char>, from: int) -> int
    decreases keys.len() - from,
{
    if from >= keys.len() {
        keys.len() as int
    } else if keys[from].id@ == id && keys[from].active() {
        from
    } else {
        revocable(keys, id, from + 1)
    }
}

impl KeyStore {
    pub fn new() -> (r: KeyStore)
        ensures
            r.keys@ == Seq::<ApiKeyRecord>::empty(),
    {
        KeyStore { keys: Vec::new() }
    }

    /// Whether any key can still authenticate.
    pub fn has_active_keys(&self) -> (r: bool)
        ensures
            r == exists|i: int| 0 <= i < self.keys@.len() && (#[trigger] self.keys@[i]).active(),
    {
        let mut i: usize = 0;
        while i < self.keys.len()
            invariant
                i <= self.keys@.len(),
                forall|j: int| 0 <= j < i ==> !(#[trigger] self.keys@[j]).active(),
            decreases self.keys@.len() - i,
        {
            if self.keys[i].is_active() {
                assert(self.keys@[i as int].active());
                return true;
            }
            i = i + 1;
        }
        false
    }

    /// Adds a key made of the given secret, salt, id and instant. Returns the
    /// record and the plaintext.
    pub fn add_key(
        &mut self,
        name: &str,
        role: Role,
        tenant: &str,
        secret: &str,
        salt: String,
        id: String,
        created_at: Timestamp,
    ) -> (r: (ApiKeyRecord, String))
        ensures
            r.1@ == role.prefix_text() + secret@,
            r.0.id@ == id@,
            r.0.name@ == name@,
            r.0.role == role,
            r.0.hash@ == key_digest(salt@, r.1@),
            r.0.salt@ == salt@,
            r.0.created_at == created_at,
            r.0.revoked_at is None,
            r.0.tenant@ == tenant@,
            final(self).keys@.len() == old(self).keys@.len() + 1,
            final(self).keys@.drop_last() == old(self).keys@,
            final(self).keys@.last().same_as(r.0),
    {
        let mut plaintext = role.prefix().to_owned();
        plaintext.append(secret);
        let hash = digest(salt.as_str(), plaintext.as_str());
        let record = ApiKeyRecord {
            id: id.clone(),
            name: name.to_owned(),
            role,
            hash: hash.clone(),
            salt: salt.clone(),
            created_at,
            revoked_at: None,
            tenant: tenant.to_owned(),
        };
        let kept = ApiKeyRecord {
            id,
            name: name.to_owned(),
            role,
            hash,
            salt,
            created_at,
            revoked_at: None,
            tenant: tenant.to_owned(),
        };
        self.keys.push(kept);
        assert(self.keys@.drop_last() =~= old(self).keys@);
        (record, plaintext)
    }

    /// Mint a new key. Returns the record and the plaintext, which is the only
    /// time the plaintext exists: it is not recoverable from the store.
    pub fn create(&mut self, name: &str, role: Role, tenant: &str) -> (r: (ApiKeyRecord, String))
        ensures
            exists|secret: Seq<u8>|
                secret.len() == 24 && r.1@ == role.prefix_text() + #[trigger] hex_text(secret),
            exists|salt: Seq<u8>| salt.len() == 16 && r.0.salt@ == #[trigger] hex_text(salt),
            exists|id: Seq<u8>| id.len() == 6 && r.0.id@ == "key_"@ + #[trigger] hex_text(id),
            r.0.name@ == name@,
            r.0.role == role,
            r.0.hash@ == key_digest(r.0.salt@, r.1@),
            r.0.revoked_at is None,
            r.0.tenant@ == tenant@,
            final(self).keys@.len() == old(self).keys@.len() + 1,
            final(self).keys@.drop_last() == old(self).keys@,
            final(self).keys@.last().same_as(r.0),
    {
        let secret = random_hex(24);
        let salt = random_hex(16);
        let mut id = "key_".to_owned();
        let tail = random_hex(6);
        id.append(tail.as_str());
        let created_at = now();
        self.add_key(name, role, tenant, secret.as_str(), salt, id, created_at)
    }

    /// Revoke by key id, at the given instant. Returns false when the id is
    /// unknown or already revoked.
    pub fn revoke_at(&mut self, key_id: &str, instant: Timestamp) -> (r: bool)
        ensures
            ({
                let at = revocable(old(self).keys@, key_id@, 0);
                &&& r == (at < old(self).keys@.len())
                &&& !r ==> final(self).keys@ == old(self).keys@
                &&& r ==> final(self).keys@ == old(self).keys@.update(
                    at,
                    (ApiKeyRecord { revoked_at: Some(instant), ..old(self).keys@[at] }),
                )
            }),
    {
        let mut i: usize = 0;
        while i < self.keys.len()
            invariant
                i <= self.keys@.len(),
                self.keys@ == old(self).keys@,
                revocable(self.keys@, key_id@, 0) == revocable(self.keys@, key_id@, i as int),
            decreases self.keys@.len() - i,
        {
            if same(self.keys[i].id.as_str(), key_id) && self.keys[i].is_active() {
                let mut key = self.keys.remove(i);
                key.revoked_at = Some(instant);
                self.keys.insert(i, key);
                assert(self.keys@ =~= old(self).keys@.update(
                    i as int,
                    (ApiKeyRecord { revoked_at: Some(instant), ..old(self).keys@[i as int] }),
                ));
                return true;
            }
            i = i + 1;
        }
        false
    }

    /// Revoke by key id. Returns false when the id is unknown or already
    /// revoked.
    pub fn revoke(&mut self, key_id: &str) -> (r: bool)
        ensures
            ({
                let at = revocable(old(self).keys@, key_id@, 0);
                &&& r == (at < old(self).keys@.len())
                &&& !r ==> final(self).keys@ == old(self).keys@
                &&& r ==> exists|instant: Timestamp| #[trigger]
                    revoked(old(self).keys@, at, instant) == final(self).keys@
            }),
    {
        let instant = now();
        let r = self.revoke_at(key_id, instant);
        proof {
            let at = revocable(old(self).keys@, key_id@, 0);
            if r {
                assert(revoked(old(self).keys@, at, instant) == self.keys@);
            }
        }
        r
    }

    /// Resolve a presented key to its principal, or `None` when it matches no
    /// active key.
    pub fn authenticate(&self, presented: &str) -> (r: Option<Principal>)
        ensures
            match r {
                Some(p) => authenticated(self.keys@, presented@) matches Some(key) && speaks_for(
                    p,
                    key,
                ),
                None => authenticated(self.keys@, presented@) is None,
            },
    {
        let presented = trim(presented);
        if presented.as_str().is_empty() {
            return None;
        }
        // Every active key is checked even after a match so that a wrong key
        // costs the same time as a right one.
        let mut found: Option<usize> = None;
        let mut i: usize = 0;
        assert(self.keys@.take(0) =~= Seq::<ApiKeyRecord>::empty());
        while i < self.keys.len()
            invariant
                i <= self.keys@.len(),
                match found {
                    Some(k) => k < i && accepting(self.keys@.take(i as int), presented@) == Some(
                        self.keys@[k as int],
                    ),
                    None => accepting(self.keys@.take(i as int), presented@) is None,
                },
            decreases self.keys@.len() - i,
        {
            assert(self.keys@.take(i as int + 1).drop_last() =~= self.keys@.take(i as int));
            assert(self.keys@.take(i as int + 1).last() == self.keys@[i as int]);
            let key = &self.keys[i];
            if key.is_active() {
                let candidate = digest(key.salt.as_str(), presented.as_str());
                let a = candidate.as_str().as_bytes();
                let b = key.hash.as_str().as_bytes();
                proof {
                    vstd::utf8::encode_utf8_decode_utf8(candidate@);
                    vstd::utf8::encode_utf8_decode_utf8(key.hash@);
                }
                if constant_time_eq(a, b) {
                    found = Some(i);
                }
            }
            i = i + 1;
        }
        assert(self.keys@.take(self.keys@.len() as int) =~= self.keys@);
        match found {
            Some(k) => {
                let key = &self.keys[k];
                Some(
                    Principal {
                        key_id: key.id.clone(),
                        name: key.name.clone(),
                        role: key.role,
                        tenant: key.tenant.clone(),
                    },
                )
            },
            None => None,
        }
    }
}

impl Default for KeyStore {
    fn default() -> (r: KeyStore)
        ensures
            r.keys@ == Seq::<ApiKeyRecord>::empty(),
    {
        KeyStore::new()
    }
}

/// The keys with one of them revoked.
pub open spec fn revoked(keys: Seq<ApiKeyRecord>, at: int, instant: Timestamp) -> Seq<
    ApiKeyRecord,
> {
    keys.update(at, ApiKeyRecord { revoked_at: Some(instant), ..keys[at] })
}

/// The stored form of a plaintext key.
fn digest(salt: &str, plaintext: &str) -> (r: String)
    ensures
        r@ == key_digest(salt@, plaintext@),
{
    let mut data = bytes_of(salt);
    let mut tail = bytes_of(plaintext);
    data.append(&mut tail);
    let hash = sha256_of(&data);
    hex_encode(&hash)
}

/// Compare two byte strings without short-circuiting on the first differing
/// byte.
pub fn constant_time_eq(a: &[u8], b: &[u8]) -> (r: bool)
    ensures
        r == (a@ == b@),
{
    if a.len() != b.len() {
        return false;
    }
    let mut acc: u8 = 0;
    let mut i: usize = 0;
    while i < a.len()
        invariant
            i <= a@.len(),
            a@.len() == b@.len(),
            acc == 0 <==> forall|j: int| 0 <= j < i ==> a@[j] == b@[j],
        decreases a@.len() - i,
    {
        let x: u8 = a[i];
        let y: u8 = b[i];
        assert((acc | (x ^ y)) == 0 <==> acc == 0 && x == y) by (bit_vector);
        acc = acc | (x ^ y);
        i = i + 1;
    }
    proof {
        if acc == 0 {
            assert(a@ =~= b@);
        }
    }
    acc == 0
}

// ── Laws ────────────────────────────────────────────────────────────

/// Each role may do what the roles before it may: the requirement that a role
/// satisfies, every higher role satisfies too.
pub proof fn higher_roles_subsume(a: Role, b: Role, needed: Role)
    requires
        a.rank() >= b.rank(),
        b.rank() >= needed.rank(),
    ensures
        a.rank() >= needed.rank(),
        Role::Admin.rank() >= needed.rank(),
        needed.rank() >= Role::Reader.rank(),
{
}

/// A key's prefix tells its role: no two roles share one.
pub proof fn prefix_encodes_role(a: Role, b: Role)
    ensures
        a.prefix_text() == b.prefix_text() ==> a == b,
{
    reveal_strlit("tael_r_");
    reveal_strlit("tael_w_");
    reveal_strlit("tael_a_");
    assert("tael_r_"@[5] == 'r');
    assert("tael_w_"@[5] == 'w');
    assert("tael_a_"@[5] == 'a');
}

/// An explicit setting always wins over the listeners.
pub proof fn explicit_mode_wins(mode: AuthMode, listeners: Seq<&str>)
    ensures
        effective_mode(Some(mode), listeners) == mode,
{
}

/// With nothing set, one listener that is not loopback is enough for
/// authentication to be required.
pub proof fn off_box_listener_requires_auth(listeners: Seq<&str>, i: int)
    requires
        0 <= i < listeners.len(),
        !is_loopback(listeners[i]@),
    ensures
        effective_mode(None, listeners) == AuthMode::Required,
{
}

/// Whatever authenticates is an active record that stores the digest of what
/// was presented: a revoked key never authenticates.
pub proof fn only_active_keys_authenticate(keys: Seq<ApiKeyRecord>, presented: Seq<char>)
    ensures
        authenticated(keys, presented) matches Some(key) ==> keys.contains(key) && key.active()
            && key_digest(key.salt@, trimmed(presented)) == key.hash@,
{
    accepting_sound(keys, trimmed(presented));
}

proof fn accepting_sound(keys: Seq<ApiKeyRecord>, plaintext: Seq<char>)
    ensures
        accepting(keys, plaintext) matches Some(key) ==> keys.contains(key) && accepts(
            key,
            plaintext,
        ),
        accepting(keys, plaintext) is None ==> forall|i: int|
            0 <= i < keys.len() ==> !accepts(#[trigger] keys[i], plaintext),
    decreases keys.len(),
{
    if keys.len() > 0 {
        let init = keys.drop_last();
        accepting_sound(init, plaintext);
        if accepts(keys.last(), plaintext) {
            assert(keys[keys.len() - 1] == keys.last());
        } else {
            if let Some(key) = accepting(init, plaintext) {
                let i = choose|i: int| 0 <= i < init.len() && init[i] == key;
                assert(keys[i] == key);
            } else {
                assert forall|i: int| 0 <= i < keys.len() implies !accepts(
                    #[trigger] keys[i],
                    plaintext,
                ) by {
                    if i < init.len() {
                        assert(init[i] == keys[i]);
                    }
                }
            }
        }
    }
}

/// Whether each record stores the digest of its plaintext, and no two records
/// have one plaintext.
pub open spec fn minted(keys: Seq<ApiKeyRecord>, plaintexts: Seq<Seq<char>>) -> bool {
    &&& keys.len() == plaintexts.len()
    &&& forall|i: int|
        0 <= i < keys.len() ==> (#[trigger] keys[i]).hash@ == key_digest(
            keys[i].salt@,
            plaintexts[i],
        )
    &&& forall|i: int, j: int|
        0 <= i < j < plaintexts.len() ==> #[trigger] plaintexts[i] != #[trigger] plaintexts[j]
}

/// Whether a text has the digest of another record's plaintext under that
/// record's salt: a collision of SHA-256.
pub open spec fn collides(
    keys: Seq<ApiKeyRecord>,
    plaintexts: Seq<Seq<char>>,
    text: Seq<char>,
) -> bool {
    exists|i: int|
        0 <= i < keys.len() && text != plaintexts[i] && key_digest(
            (#[trigger] keys[i]).salt@,
            text,
        ) == key_digest(keys[i].salt@, plaintexts[i])
}

/// Where nothing collides, the plaintext of each active record authenticates as
/// that record, wherever it stands, and nothing else authenticates: neither the
/// plaintext of a revoked record nor a text that is no plaintext.
pub proof fn active_plaintexts_authenticate(
    keys: Seq<ApiKeyRecord>,
    plaintexts: Seq<Seq<char>>,
    presented: Seq<char>,
)
    requires
        minted(keys, plaintexts),
        !collides(keys, plaintexts, trimmed(presented)),
    ensures
        forall|i: int|
            0 <= i < keys.len() && (#[trigger] keys[i]).active() && plaintexts[i] == trimmed(
                presented,
            ) && plaintexts[i].len() > 0 ==> authenticated(keys, presented) == Some(keys[i]),
        (forall|i: int|
            0 <= i < keys.len() && (#[trigger] keys[i]).active() ==> plaintexts[i] != trimmed(
                presented,
            )) ==> authenticated(keys, presented) is None,
        trimmed(presented).len() == 0 ==> authenticated(keys, presented) is None,
{
    let text = trimmed(presented);
    accepting_sound(keys, text);
    assert forall|i: int| 0 <= i < keys.len() implies accepts(#[trigger] keys[i], text) == (
    keys[i].active() && plaintexts[i] == text) by {}
    if let Some(key) = accepting(keys, text) {
        let k = choose|k: int| 0 <= k < keys.len() && keys[k] == key;
        assert(plaintexts[k] == text);
    }
}

/// Whether a store came out of another one by minting and revoking: the records
/// of the first still stand in their places, with what they authenticate by,
/// and those that were revoked are revoked.
pub open spec fn came_from(later: Seq<ApiKeyRecord>, keys: Seq<ApiKeyRecord>) -> bool {
    &&& keys.len() <= later.len()
    &&& forall|i: int|
        0 <= i < keys.len() ==> (#[trigger] later[i]).id@ == keys[i].id@ && later[i].salt@
            == keys[i].salt@ && later[i].hash@ == keys[i].hash@ && (!keys[i].active()
            ==> !later[i].active())
}

/// Minting a key and revoking one lead from a store to one that came from it,
/// and so does any row of such steps.
pub proof fn stores_come_from_one_another(
    keys: Seq<ApiKeyRecord>,
    record: ApiKeyRecord,
    at: int,
    instant: Timestamp,
    later: Seq<ApiKeyRecord>,
    latest: Seq<ApiKeyRecord>,
)
    ensures
        came_from(keys.push(record), keys),
        0 <= at < keys.len() ==> came_from(revoked(keys, at, instant), keys),
        came_from(keys, keys),
        came_from(later, keys) && came_from(latest, later) ==> came_from(latest, keys),
{
    if came_from(later, keys) && came_from(latest, later) {
        assert forall|i: int| 0 <= i < keys.len() implies (#[trigger] latest[i]).id@ == keys[i].id@
            && latest[i].salt@ == keys[i].salt@ && latest[i].hash@ == keys[i].hash@ && (
        !keys[i].active() ==> !latest[i].active()) by {
            assert(later[i].id@ == keys[i].id@);
        }
    }
}

/// A key that was revoked never authenticates again: not in the store that it
/// was revoked in, and in none that comes from it.
pub proof fn revoked_plaintexts_never_authenticate(
    keys: Seq<ApiKeyRecord>,
    later: Seq<ApiKeyRecord>,
    plaintexts: Seq<Seq<char>>,
    at: int,
    presented: Seq<char>,
)
    requires
        came_from(later, keys),
        minted(later, plaintexts),
        0 <= at < keys.len(),
        !keys[at].active(),
        trimmed(presented) == plaintexts[at],
        !collides(later, plaintexts, trimmed(presented)),
    ensures
        authenticated(later, presented) is None,
{
    assert(!later[at].active());
    active_plaintexts_authenticate(later, plaintexts, presented);
    assert forall|i: int| 0 <= i < later.len() && (#[trigger] later[i]).active() implies plaintexts[i]
        != trimmed(presented) by {
        if i < at {
            assert(plaintexts[i] != plaintexts[at]);
        } else {
            assert(plaintexts[at] != plaintexts[i]);
        }
    }
}

/// Revoking an id succeeds exactly where some record of that id is active.
pub proof fn active_keys_can_be_revoked(keys: Seq<ApiKeyRecord>, id: Seq<char>)
    ensures
        revocable(keys, id, 0) < keys.len() <==> exists|i: int|
            0 <= i < keys.len() && (#[trigger] keys[i]).id@ == id && keys[i].active(),
{
    revocable_sound(keys, id, 0);
}

/// Revoking a key changes nothing for the others: their plaintexts authenticate
/// as before.
pub proof fn revoking_spares_the_others(
    keys: Seq<ApiKeyRecord>,
    plaintexts: Seq<Seq<char>>,
    id: Seq<char>,
    instant: Timestamp,
    other: int,
    presented: Seq<char>,
)
    requires
        minted(keys, plaintexts),
        0 <= other < keys.len(),
        other != revocable(keys, id, 0),
        revocable(keys, id, 0) < keys.len(),
        keys[other].active(),
        plaintexts[other].len() > 0,
        trimmed(presented) == plaintexts[other],
        !collides(keys, plaintexts, trimmed(presented)),
    ensures
        ({
            let after = revoked(keys, revocable(keys, id, 0), instant);
            authenticated(after, presented) == Some(keys[other])
        }),
{
    revocable_sound(keys, id, 0);
    let at = revocable(keys, id, 0);
    let after = revoked(keys, at, instant);
    assert(after[other] == keys[other]);
    assert(minted(after, plaintexts)) by {
        assert forall|i: int| 0 <= i < after.len() implies (#[trigger] after[i]).hash@ == key_digest(
            after[i].salt@,
            plaintexts[i],
        ) by {
            assert(after[i].hash@ == keys[i].hash@ && after[i].salt@ == keys[i].salt@);
        }
    }
    assert(!collides(after, plaintexts, trimmed(presented))) by {
        if collides(after, plaintexts, trimmed(presented)) {
            let i = choose|i: int|
                0 <= i < after.len() && trimmed(presented) != plaintexts[i] && key_digest(
                    (#[trigger] after[i]).salt@,
                    trimmed(presented),
                ) == key_digest(after[i].salt@, plaintexts[i]);
            assert(after[i].salt@ == keys[i].salt@);
        }
    }
    active_plaintexts_authenticate(after, plaintexts, presented);
}

/// A minted plaintext authenticates as it stands: it has no space around it.
pub proof fn minted_plaintexts_are_trimmed(role: Role, secret: Seq<u8>)
    ensures
        trimmed(role.prefix_text() + hex_text(secret)) == role.prefix_text() + hex_text(secret),
        (role.prefix_text() + hex_text(secret)).len() > 0,
{
    let plaintext = role.prefix_text() + hex_text(secret);
    reveal_strlit("tael_r_");
    reveal_strlit("tael_w_");
    reveal_strlit("tael_a_");
    crate::crypto::hex_text_chars(secret);
    assert(plaintext[0] == 't');
    assert(!crate::text::is_whitespace(plaintext[0]));
    assert(crate::text::trim_start(plaintext) == plaintext);
    let last = plaintext.last();
    if secret.len() == 0 {
        assert(plaintext =~= role.prefix_text());
        assert(last == '_');
    } else {
        assert(last == hex_text(secret)[hex_text(secret).len() - 1]);
        assert(crate::crypto::is_hex_char(last));
    }
    assert(!crate::text::is_whitespace(last));
    assert(trimmed(plaintext) == plaintext);
}

/// Once an id has no active record left, revoking it does nothing and says so.
pub proof fn revoking_twice_is_refused(
    keys: Seq<ApiKeyRecord>,
    id: Seq<char>,
    instant: Timestamp,
)
    requires
        revocable(keys, id, 0) < keys.len(),
        forall|i: int, j: int|
            0 <= i < j < keys.len() ==> !((#[trigger] keys[i]).id@ == id && keys[i].active()
                && (#[trigger] keys[j]).id@ == id && keys[j].active()),
    ensures
        ({
            let after = revoked(keys, revocable(keys, id, 0), instant);
            revocable(after, id, 0) == after.len()
        }),
{
    revocable_sound(keys, id, 0);
    let at = revocable(keys, id, 0);
    let after = revoked(keys, at, instant);
    revocable_sound(after, id, 0);
    let again = revocable(after, id, 0);
    if again < after.len() {
        assert(after[again].active());
        assert(again != at);
        assert(after[again] == keys[again]);
        if again < at {
            assert(keys[again].id@ == id && keys[at].id@ == id);
        } else {
            assert(keys[at].id@ == id && keys[again].id@ == id);
        }
    }
}

proof fn revocable_sound(keys: Seq<ApiKeyRecord>, id: Seq<char>, from: int)
    requires
        0 <= from <= keys.len(),
    ensures
        from <= revocable(keys, id, from) <= keys.len(),
        revocable(keys, id, from) < keys.len() ==> keys[revocable(keys, id, from)].id@ == id
            && keys[revocable(keys, id, from)].active(),
        forall|i: int|
            from <= i < revocable(keys, id, from) ==> !((#[trigger] keys[i]).id@ == id
                && keys[i].active()),
    decreases keys.len() - from,
{
    if from < keys.len() && !(keys[from].id@ == id && keys[from].active()) {
        revocable_sound(keys, id, from + 1);
    }
}

/// A role and a mode are read from their words, whatever the space around them,
/// and a role reads back from its name. A reader may less than a writer, and a
/// writer less than an administrator.
pub proof fn roles_are_named(role: Role)
    ensures
        role_named(role.name()) == Some(role),
        role_named("r"@) == Some(Role::Reader) && role_named("read"@) == Some(Role::Reader),
        role_named("w"@) == Some(Role::Writer) && role_named("write"@) == Some(Role::Writer),
        role_named("a"@) == Some(Role::Admin),
        Role::Reader.name() == "reader"@ && Role::Writer.name() == "writer"@ && Role::Admin.name()
            == "admin"@,
        Role::Reader.rank() < Role::Writer.rank() < Role::Admin.rank(),
        mode_named("off"@) == Some(AuthMode::Off) && mode_named("none"@) == Some(AuthMode::Off),
        mode_named("disabled"@) == Some(AuthMode::Off) && mode_named("false"@) == Some(
            AuthMode::Off,
        ) && mode_named("0"@) == Some(AuthMode::Off),
        mode_named("required"@) == Some(AuthMode::Required) && mode_named("on"@) == Some(
            AuthMode::Required,
        ),
        mode_named("require"@) == Some(AuthMode::Required) && mode_named("true"@) == Some(
            AuthMode::Required,
        ) && mode_named("1"@) == Some(AuthMode::Required),
{
    reveal_strlit("reader");
    reveal_strlit("read");
    reveal_strlit("r");
    reveal_strlit("writer");
    reveal_strlit("write");
    reveal_strlit("w");
    reveal_strlit("admin");
    reveal_strlit("a");
    reveal_strlit("off");
    reveal_strlit("none");
    reveal_strlit("disabled");
    reveal_strlit("false");
    reveal_strlit("0");
    reveal_strlit("required");
    reveal_strlit("require");
    reveal_strlit("on");
    reveal_strlit("true");
    reveal_strlit("1");
    plain_words("reader"@);
    plain_words("read"@);
    plain_words("r"@);
    plain_words("writer"@);
    plain_words("write"@);
    plain_words("w"@);
    plain_words("admin"@);
    plain_words("a"@);
    plain_words("off"@);
    plain_words("none"@);
    plain_words("disabled"@);
    plain_words("false"@);
    plain_words("0"@);
    plain_words("required"@);
    plain_words("require"@);
    plain_words("on"@);
    plain_words("true"@);
    plain_words("1"@);
    assert("reader"@[0] == 'r' && "read"@[0] == 'r' && "r"@[0] == 'r' && "writer"@[0] == 'w'
        && "write"@[0] == 'w' && "w"@[0] == 'w' && "admin"@[0] == 'a' && "a"@[0] == 'a');
    assert("off"@[1] == 'f' && "on"@[1] == 'n' && "off"@[0] == 'o' && "on"@[0] == 'o' && "none"@[0]
        == 'n' && "disabled"@[0] == 'd' && "false"@[0] == 'f' && "0"@[0] == '0' && "required"@[0]
        == 'r' && "require"@[0] == 'r' && "true"@[0] == 't' && "1"@[0] == '1');
}

proof fn plain_words(w: Seq<char>)
    requires
        w.len() > 0,
        forall|i: int| 0 <= i < w.len() ==> ('a' <= #[trigger] w[i] <= 'z') || ('0' <= w[i] <= '9'),
    ensures
        lowered(trimmed(w)) == w,
{
    assert(('a' <= w[0] <= 'z') || ('0' <= w[0] <= '9'));
    assert(('a' <= w[w.len() - 1] <= 'z') || ('0' <= w[w.len() - 1] <= '9'));
    assert(trimmed(w) == w);
    assert forall|i: int| 0 <= i < w.len() implies crate::text::is_ascii_char(#[trigger] w[i]) by {}
    assert(lowered(w) =~= w);
}

/// Who authenticates is the owner of a key of the store that is still active and
/// whose digest the text that was presented meets.
pub proof fn principals_speak_for_a_key(
    keys: Seq<ApiKeyRecord>,
    presented: Seq<char>,
    p: Principal,
)
    requires
        authenticated(keys, presented) is Some,
        speaks_for(p, authenticated(keys, presented)->0),
    ensures
        exists|i: int|
            0 <= i < keys.len() && (#[trigger] keys[i]).id@ == p.key_id@ && keys[i].role == p.role
                && keys[i].tenant@ == p.tenant@ && keys[i].name@ == p.name@
                && keys[i].revoked_at is None && keys[i].hash@ == key_digest(
                keys[i].salt@,
                trimmed(presented),
            ),
        trimmed(presented).len() > 0,
{
    accepting_is_among(keys, trimmed(presented));
}

proof fn accepting_is_among(keys: Seq<ApiKeyRecord>, text: Seq<char>)
    ensures
        accepting(keys, text) matches Some(key) ==> accepts(key, text) && exists|i: int|
            0 <= i < keys.len() && #[trigger] keys[i] == key,
    decreases keys.len(),
{
    if keys.len() > 0 {
        if accepts(keys.last(), text) {
            assert(keys[keys.len() - 1] == keys.last());
        } else {
            accepting_is_among(keys.drop_last(), text);
            if let Some(key) = accepting(keys.drop_last(), text) {
                let i = choose|i: int|
                    0 <= i < keys.drop_last().len() && #[trigger] keys.drop_last()[i] == key;
                assert(keys[i] == key);
            }
        }
    }
}

/// A key shows its role by the first letter of the role's name.
pub proof fn prefixes_show_the_role(role: Role)
    ensures
        role.prefix_text() == "tael_"@ + seq![role.name()[0]] + "_"@,
{
    reveal_strlit("tael_r_");
    reveal_strlit("tael_w_");
    reveal_strlit("tael_a_");
    reveal_strlit("tael_");
    reveal_strlit("_");
    reveal_strlit("reader");
    reveal_strlit("writer");
    reveal_strlit("admin");
    assert(role.prefix_text() =~= "tael_"@ + seq![role.name()[0]] + "_"@);
}

} // verus!
