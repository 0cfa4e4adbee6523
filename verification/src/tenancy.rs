//! Which tenant a caller reads and writes within.

use crate::auth::{default_tenant, Principal, Role};
use crate::config::{join_path, joined_path};
use crate::spans::TenantStamp;
use crate::text::{chars, find, opt_text, same};
use vstd::prelude::*;

verus! {

/// The attribute that holds the writer's tenant.
pub const TENANT_ATTRIBUTE: &'static str = "tael.tenant";

/// The tenant of a caller: that of the key, or the default one where there are
/// no tenants or no key was presented.
pub open spec fn tenant_of(multi_tenant: bool, principal: Option<Principal>) -> Seq<char> {
    match principal {
        Some(p) => if multi_tenant {
            p.tenant@
        } else {
            "default"@
        },
        None => "default"@,
    }
}

/// The tenant that a caller writes as.
pub fn write_tenant(multi_tenant: bool, principal: &Option<Principal>) -> (r: String)
    ensures
        r@ == tenant_of(multi_tenant, *principal),
{
    match principal {
        Some(p) => if multi_tenant {
            p.tenant.clone()
        } else {
            default_tenant()
        },
        None => default_tenant(),
    }
}

/// What every record of a caller is stamped with; nothing where there are no
/// tenants.
pub fn stamp(multi_tenant: bool, principal: &Option<Principal>) -> (r: Option<TenantStamp>)
    ensures
        r is Some <==> multi_tenant,
        r matches Some(s) ==> s.attribute@ == TENANT_ATTRIBUTE@ && s.tenant@ == tenant_of(
            true,
            *principal,
        ),
{
    if !multi_tenant {
        return None;
    }
    Some(
        TenantStamp {
            attribute: TENANT_ATTRIBUTE.to_owned(),
            tenant: write_tenant(true, principal),
        },
    )
}

/// The tenant that a caller's reads are limited to; nothing where there are no
/// tenants.
pub open spec fn scope_of(multi_tenant: bool, principal: Option<Principal>) -> Option<Seq<char>> {
    if multi_tenant {
        Some(tenant_of(true, principal))
    } else {
        None
    }
}

pub fn read_scope(multi_tenant: bool, principal: &Option<Principal>) -> (r: Option<String>)
    ensures
        opt_text(r) == scope_of(multi_tenant, *principal),
{
    if !multi_tenant {
        return None;
    }
    Some(write_tenant(true, principal))
}

/// Whether a caller may query in SQL. Such a query cannot be scoped to a tenant,
/// so where there are tenants it takes an administrator.
pub fn may_use_sql(multi_tenant: bool, principal: &Option<Principal>) -> (r: bool)
    ensures
        r == (!multi_tenant || (principal matches Some(p) && p.role == Role::Admin)),
{
    if !multi_tenant {
        return true;
    }
    match principal {
        Some(p) => match p.role {
            Role::Admin => true,
            _ => false,
        },
        None => false,
    }
}

// ── Directories ─────────────────────────────────────────────────────

/// Whether a tenant's name can be that of a directory: one part of a path that
/// leads down.
pub open spec fn is_directory_name(tenant: Seq<char>) -> bool {
    &&& tenant.len() > 0
    &&& tenant != "."@
    &&& tenant != ".."@
    &&& !tenant.contains('/')
    &&& !tenant.contains('\\')
    &&& !tenant.contains('\0')
}

/// Where an isolated tenant's own engine keeps its files.
pub open spec fn tenant_directory(data_dir: Seq<char>, tenant: Seq<char>) -> Seq<char> {
    joined_path(joined_path(data_dir, "tenants"@), tenant)
}

fn has_char(s: &str, c: char) -> (r: bool)
    ensures
        r == s@.contains(c),
{
    let v = chars(s);
    let at: usize = find(&v, 0, c);
    proof {
        if at < v@.len() {
            assert(s@[at as int] == c);
        }
    }
    at < v.len()
}

/// Where an isolated tenant's own engine keeps its files, if the tenant's name
/// can be that of a directory.
pub fn tenant_dir(data_dir: &str, tenant: &str) -> (r: Option<String>)
    ensures
        match r {
            Some(dir) => is_directory_name(tenant@) && dir@ == tenant_directory(data_dir@, tenant@),
            None => !is_directory_name(tenant@),
        },
{
    if tenant.is_empty() || same(tenant, ".") || same(tenant, "..") || has_char(tenant, '/')
        || has_char(tenant, '\\') || has_char(tenant, '\0') {
        return None;
    }
    let root = join_path(data_dir, "tenants");
    Some(join_path(root.as_str(), tenant))
}

// ── Laws ────────────────────────────────────────────────────────────

/// A caller reads what it writes: the tenant that its records are stamped with
/// is the one that its reads are limited to.
pub proof fn callers_read_what_they_write(principal: Option<Principal>)
    ensures
        scope_of(true, principal) == Some(tenant_of(true, principal)),
        scope_of(false, principal) is None,
{
}

/// No two tenants share a directory.
pub proof fn tenants_have_directories_of_their_own(
    data_dir: Seq<char>,
    a: Seq<char>,
    b: Seq<char>,
)
    requires
        is_directory_name(a),
        is_directory_name(b),
        tenant_directory(data_dir, a) == tenant_directory(data_dir, b),
    ensures
        a == b,
{
    let root = joined_path(data_dir, "tenants"@);
    assert(a[0] != '/') by {
        if a[0] == '/' {
            assert(a.contains('/'));
        }
    }
    assert(b[0] != '/') by {
        if b[0] == '/' {
            assert(b.contains('/'));
        }
    }
    let whole = tenant_directory(data_dir, a);
    let k = whole.len() - a.len();
    assert(a =~= whole.skip(k));
    assert(b =~= whole.skip(k));
}

/// With more than one tenant a caller belongs to the tenant of their key, and a
/// caller without one, or anyone where there is but one, to the default; each
/// tenant's data stands under its name beside the others.
pub proof fn callers_belong_to_the_tenant_of_their_key(p: Principal, data_dir: Seq<char>)
    requires
        data_dir.len() > 0,
        data_dir.last() != '/',
        is_directory_name(p.tenant@),
    ensures
        tenant_of(true, Some(p)) == p.tenant@,
        tenant_of(false, Some(p)) == "default"@,
        tenant_of(true, None) == "default"@,
        scope_of(true, Some(p)) == Some(p.tenant@),
        tenant_directory(data_dir, p.tenant@) == data_dir + "/tenants/"@ + p.tenant@,
{
    reveal_strlit("/");
    reveal_strlit("tenants");
    reveal_strlit("/tenants/");
    let t = p.tenant@;
    assert(t.contains(t[0]));
    let base = data_dir + "/"@ + "tenants"@;
    assert(base.last() == 's');
    assert(base + "/"@ + t =~= data_dir + "/tenants/"@ + t);
}

} // verus!
