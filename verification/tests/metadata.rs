use query_core::catalog::CatalogOption;
use query_core::catalog::CatalogType;
use query_core::catalog::HiveCatalogOption;
use query_core::database::DbIdList;
use query_core::file_format::check_escape;
use query_core::file_format::check_field_delimiter;
use query_core::file_format::check_quote;
use query_core::file_format::check_record_delimiter;
use query_core::file_format::check_row_tag;
use query_core::file_format::FileFormatOptionsAst;
use query_core::file_format::FileFormatParams;
use query_core::file_format::StageFileCompression;
use query_core::file_format::StageFileFormatType;
use query_core::share_storage::get_share_spec_location;
use query_core::share_storage::share_table_info_location;
use query_core::table_option::is_valid_create_opt;
use query_core::user::UserOption;
use query_core::user::UserOptionItem;

fn ast(pairs: &[(&str, &str)]) -> FileFormatOptionsAst {
    let options: Vec<(String, String)> = pairs
        .iter()
        .map(|(k, v)| (k.to_string(), v.to_string()))
        .collect();
    FileFormatOptionsAst::new(options)
}

#[test]
fn file_format_checks_accept_and_reject() {
    assert!(check_row_tag("row").is_ok());
    assert!(check_row_tag("").is_err());
    assert!(check_field_delimiter(",").is_ok());
    assert!(check_field_delimiter("a").is_err());
    assert!(check_field_delimiter(",,").is_err());
    assert!(check_record_delimiter("\n").is_ok());
    assert!(check_record_delimiter("\r\n").is_ok());
    assert!(check_record_delimiter("x").is_err());
    assert!(check_quote("'").is_ok());
    assert!(check_quote("`").is_ok());
    assert!(check_quote("q").is_err());
    assert!(check_escape("\\").is_ok());
    assert!(check_escape("").is_ok());
    assert!(check_escape("e").is_err());
}

#[test]
fn try_from_ast_parses_csv_options() {
    let a = ast(&[
        ("type", "CSV"),
        ("field_delimiter", ";"),
        ("skip_header", "2"),
        ("compression", "gzip"),
    ]);
    let p = FileFormatParams::try_from_ast(a, false).unwrap();
    match p {
        FileFormatParams::Csv(c) => {
            assert_eq!(c.field_delimiter, ";");
            assert_eq!(c.headers, 2);
            assert_eq!(c.compression, StageFileCompression::Gzip);
            assert_eq!(c.record_delimiter, "\n");
            assert_eq!(c.quote, "\"");
        }
        _ => panic!("expected CSV parameters"),
    }
}

#[test]
fn try_from_ast_rejects_bad_input() {
    // Neither TYPE nor FORMAT.
    assert!(FileFormatParams::try_from_ast(ast(&[]), false).is_err());
    // Both TYPE and FORMAT.
    assert!(
        FileFormatParams::try_from_ast(ast(&[("type", "CSV"), ("format", "CSV")]), false).is_err()
    );
    // Invalid option value.
    assert!(
        FileFormatParams::try_from_ast(ast(&[("type", "CSV"), ("quote", "zz")]), false).is_err()
    );
    // Leftover unknown option.
    assert!(
        FileFormatParams::try_from_ast(ast(&[("type", "JSON"), ("what", "ever")]), false).is_err()
    );
    // Unsupported family.
    assert!(FileFormatParams::try_from_ast(ast(&[("type", "ORC")]), false).is_err());
}

#[test]
fn try_from_ast_parses_null_if_as_json() {
    let a = ast(&[("type", "NDJSON"), ("null_if", "[\"\\\\N\", \"NULL\"]")]);
    let p = FileFormatParams::try_from_ast(a, false).unwrap();
    match p {
        FileFormatParams::NdJson(nd) => {
            assert_eq!(nd.null_if, vec!["\\N".to_string(), "NULL".to_string()]);
        }
        _ => panic!("expected NDJSON parameters"),
    }
    let bad = ast(&[("type", "NDJSON"), ("null_if", "not-json")]);
    assert!(FileFormatParams::try_from_ast(bad, false).is_err());
}

#[test]
fn default_by_type_covers_supported_families() {
    assert!(FileFormatParams::default_by_type(StageFileFormatType::Csv).is_ok());
    assert!(FileFormatParams::default_by_type(StageFileFormatType::Parquet).is_ok());
    assert!(FileFormatParams::default_by_type(StageFileFormatType::Avro).is_err());
}

#[test]
fn db_id_list_tracks_history() {
    let mut l = DbIdList::new();
    assert!(l.is_empty());
    l.append(3);
    l.append(7);
    assert_eq!(l.len(), 2);
    assert_eq!(l.last(), Some(&7));
    assert_eq!(l.pop(), Some(7));
    assert_eq!(l.id_list(), &vec![3]);
}

#[test]
fn catalog_option_reports_its_type() {
    assert_eq!(CatalogOption::Default.catalog_type(), CatalogType::Default);
    let hive = CatalogOption::Hive(HiveCatalogOption {
        address: "meta:9083".to_string(),
        storage_params: None,
    });
    assert_eq!(hive.catalog_type(), CatalogType::Hive);
}

#[test]
fn share_locations_follow_the_config_prefix() {
    assert_eq!(
        get_share_spec_location("tenant1"),
        "_share_config/tenant1/share_specs.json"
    );
    assert_eq!(
        share_table_info_location("tenant1", "share1"),
        "_share_config/tenant1/share1_table_info.json"
    );
}

#[test]
fn create_table_options_filter_unknown_keys() {
    assert!(is_valid_create_opt("comment"));
    assert!(is_valid_create_opt("COMMENT"));
    assert!(is_valid_create_opt("block_per_segment"));
    assert!(is_valid_create_opt("transient"));
    assert!(!is_valid_create_opt("snapshot_location"));
    assert!(!is_valid_create_opt("whatever"));
}

#[test]
fn user_option_items_apply_in_place() {
    let mut opt = UserOption::default();
    UserOptionItem::TenantSetting(true).apply(&mut opt);
    assert!(opt.tenant_setting);
    UserOptionItem::DefaultRole("admin".to_string()).apply(&mut opt);
    assert_eq!(opt.default_role.as_deref(), Some("admin"));
    UserOptionItem::SetNetworkPolicy("p1".to_string()).apply(&mut opt);
    assert_eq!(opt.network_policy.as_deref(), Some("p1"));
    UserOptionItem::UnsetNetworkPolicy.apply(&mut opt);
    assert_eq!(opt.network_policy, None);
    UserOptionItem::Disabled(true).apply(&mut opt);
    assert_eq!(opt.disabled, Some(true));
}
