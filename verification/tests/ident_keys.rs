use query_core::background_job_id_ident::BackgroundJobIdIdent;
use query_core::job_ident::BackgroundJobIdent;
use query_core::share_end_point_ident::ShareEndpointIdent;
use query_core::share_name_ident::ShareNameIdent;
use query_core::tenant::Tenant;
use query_core::catalog::CatalogId;
use query_core::database::DatabaseId;
use query_core::database::DatabaseIdToName;
use query_core::tenant_key::SampleResource;
use query_core::tenant_key::TIdent;

#[test]
fn test_background_job_id_ident() {
    let tenant = Tenant::new_literal("dummy");
    let ident = BackgroundJobIdIdent::new(tenant, 3);

    let key = ident.to_string_key();
    assert_eq!(key, "__fd_background_job_by_id/3");

    assert_eq!(ident, BackgroundJobIdIdent::from_str_key(&key).unwrap());
}

#[test]
fn test_background_job_id_ident_with_key_space() {}

#[test]
fn test_job_ident() {
    let tenant = Tenant::new_literal("test");
    let ident = BackgroundJobIdent::new(tenant, "test1");

    let key = ident.to_string_key();
    assert_eq!(key, "__fd_background_job/test/test1");

    assert_eq!(ident, BackgroundJobIdent::from_str_key(&key).unwrap());
}

#[test]
fn share_end_point_ident_test_ident() {
    let tenant = Tenant::new_literal("test");
    let ident = ShareEndpointIdent::new(tenant, "test1");

    let key = ident.to_string_key();
    assert_eq!(key, "__fd_share_endpoint/test/test1");

    assert_eq!(ident, ShareEndpointIdent::from_str_key(&key).unwrap());
}

#[test]
fn share_name_ident_test_ident() {
    let tenant = Tenant::new_literal("test");
    let ident = ShareNameIdent::new(tenant, "test1");

    let key = ident.to_string_key();
    assert_eq!(key, "__fd_share/test/test1");

    assert_eq!(ident, ShareNameIdent::from_str_key(&key).unwrap());
}

#[test]
fn test_tenant_ident() {
    let tenant = Tenant::new_literal("test");
    let ident = TIdent::<SampleResource>::new(tenant, "test1");

    let key = ident.to_string_key();
    assert_eq!(key, "foo/test/test1");

    assert_eq!(ident, TIdent::<SampleResource>::from_str_key(&key).unwrap());
}

#[test]
fn test_tenant_ident_u64() {
    let tenant = Tenant::new_literal("test");
    let ident = TIdent::<SampleResource, u64>::new(tenant, 3);

    let key = ident.to_string_key();
    assert_eq!(key, "foo/test/3");

    assert_eq!(ident, TIdent::<SampleResource, u64>::from_str_key(&key).unwrap());
}

#[test]
fn ident_key_escapes_special_bytes() {
    let tenant = Tenant::new_literal("te nant");
    let ident = TIdent::<SampleResource>::new(tenant, "a/b%c");

    let key = ident.to_string_key();
    assert_eq!(key, "foo/te%20nant/a%2fb%25c");

    assert_eq!(ident, TIdent::<SampleResource>::from_str_key(&key).unwrap());
}

#[test]
fn ident_key_handles_non_ascii_names() {
    // Names beyond ASCII are escaped byte by byte and survive the round
    // trip.
    let tenant = Tenant::new_literal("t\u{e9}nant");
    let ident = TIdent::<SampleResource>::new(tenant, "caf\u{e9}");

    let key = ident.to_string_key();
    assert_eq!(key, "foo/t%c3%a9nant/caf%c3%a9");

    assert_eq!(ident, TIdent::<SampleResource>::from_str_key(&key).unwrap());
}

#[test]
fn ident_key_rejects_malformed_input() {
    assert!(TIdent::<SampleResource>::from_str_key("bar/test/test1").is_err());
    assert!(TIdent::<SampleResource>::from_str_key("foo/test").is_err());
    assert!(TIdent::<SampleResource>::from_str_key("foo//name").is_err());
    assert!(TIdent::<SampleResource>::from_str_key("foo/test/name/extra").is_err());
    assert!(TIdent::<SampleResource>::from_str_key("foo/test/%zz").is_err());
    assert!(TIdent::<SampleResource, u64>::from_str_key("foo/test/12x").is_err());
    assert!(TIdent::<SampleResource, u64>::from_str_key("foo/test/99999999999999999999").is_err());
}

#[test]
fn ident_display_quotes_tenant_and_name() {
    let tenant = Tenant::new_literal("t1");
    let ident = TIdent::<SampleResource>::new(tenant, "n1");
    assert_eq!(ident.display(), "'t1'/'n1'");

    let tenant = Tenant::new_literal("t1");
    let ident = TIdent::<SampleResource, u64>::new(tenant, 42);
    assert_eq!(ident.display(), "'t1'/'42'");
}

#[test]
fn id_keys_round_trip() {
    let id = DatabaseId::new(3);
    let key = id.to_string_key();
    assert_eq!(key, "__fd_database_by_id/3");
    assert_eq!(DatabaseId::from_str_key(&key).unwrap(), id);

    let id = DatabaseIdToName::new(7);
    assert_eq!(id.to_string_key(), "__fd_database_id_to_name/7");

    let id = CatalogId::new(42);
    let key = id.to_string_key();
    assert_eq!(key, "__fd_catalog_by_id/42");
    assert_eq!(CatalogId::from_str_key(&key).unwrap(), id);

    assert!(DatabaseId::from_str_key("__fd_database_by_id/").is_err());
    assert!(DatabaseId::from_str_key("__fd_database_by_id/1/2").is_err());
    assert!(DatabaseId::from_str_key("__fd_table_by_id/1").is_err());
}
