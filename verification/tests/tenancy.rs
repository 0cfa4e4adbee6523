use tael_server::auth::{Principal, Role};
use tael_server::tenancy::{may_use_sql, read_scope, stamp, tenant_dir, write_tenant, TENANT_ATTRIBUTE};

fn caller(tenant: &str, role: Role) -> Option<Principal> {
    Some(Principal {
        key_id: "k".into(),
        name: "n".into(),
        role,
        tenant: tenant.into(),
    })
}

#[test]
fn a_caller_reads_and_writes_within_a_tenant() {
    let a = caller("team-a", Role::Writer);
    let s = stamp(true, &a).unwrap();
    assert_eq!((s.attribute.as_str(), s.tenant.as_str()), (TENANT_ATTRIBUTE, "team-a"));
    assert_eq!(read_scope(true, &a).as_deref(), Some("team-a"));
    assert_eq!(write_tenant(true, &a), "team-a");
    assert_eq!(write_tenant(true, &None), "default");
}

#[test]
fn without_tenants_nothing_is_stamped_or_scoped() {
    let a = caller("team-a", Role::Writer);
    assert!(stamp(false, &a).is_none());
    assert_eq!(read_scope(false, &a), None);
    assert_eq!(write_tenant(false, &a), "default");
}

#[test]
fn sql_takes_an_administrator_where_there_are_tenants() {
    assert!(may_use_sql(false, &None));
    assert!(!may_use_sql(true, &None));
    assert!(!may_use_sql(true, &caller("t", Role::Writer)));
    assert!(may_use_sql(true, &caller("t", Role::Admin)));
}

#[test]
fn a_tenant_has_a_directory_below_the_data() {
    assert_eq!(tenant_dir("/d", "team-a").as_deref(), Some("/d/tenants/team-a"));
    for name in ["", ".", "..", "a/b", "/etc", "a\\b", "a\0"] {
        assert_eq!(tenant_dir("/d", name), None, "{name:?}");
    }
}
