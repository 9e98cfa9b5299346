use rs_pg_schemas2ql::db::get_db_info;
use rs_pg_schemas2ql::db::DbInfo;
use rs_pg_schemas2ql::like::like_match;
use rs_pg_schemas2ql::order::str_le;
use rs_pg_schemas2ql::schema::get_schemas;
use rs_pg_schemas2ql::schema::Schema;

fn db(name: &str, is_template: bool) -> DbInfo {
    DbInfo {
        datname: name.to_string(),
        encoding: 6,
        datcollate: "C".to_string(),
        datctype: "C".to_string(),
        datistemplate: is_template,
        datallowconn: true,
        datconnlimit: -1,
    }
}

fn sch(name: Option<&str>) -> Schema {
    Schema {
        catalog_name: Some("postgres".to_string()),
        schema_name: name.map(|n| n.to_string()),
        schema_owner: Some("owner".to_string()),
        default_character_set_catalog: None,
        default_character_set_schema: None,
        default_character_set_name: None,
        sql_path: None,
    }
}

fn names(rows: &[Schema]) -> Vec<Option<String>> {
    rows.iter().map(|r| r.schema_name.clone()).collect()
}

#[test]
fn like_match_exact_without_wildcards() {
    assert!(like_match("postgres", "postgres"));
    assert!(!like_match("postgres", "postgres2"));
    assert!(!like_match("postgres", "Postgres"));
    assert!(!like_match("postgres", "postgre"));
    assert!(!like_match("", "x"));
    assert!(like_match("", ""));
}

#[test]
fn like_match_percent_wildcard() {
    assert!(like_match("%", ""));
    assert!(like_match("%", "anything"));
    assert!(like_match("app%", "app_v1"));
    assert!(like_match("app%", "app"));
    assert!(!like_match("app%", "the_app"));
    assert!(like_match("%v1", "app_v1"));
    assert!(like_match("a%1", "app_v1"));
    assert!(!like_match("a%2", "app_v1"));
}

#[test]
fn like_match_underscore_wildcard() {
    assert!(like_match("_", "a"));
    assert!(!like_match("_", ""));
    assert!(!like_match("_", "ab"));
    assert!(like_match("app_v_", "app_v1"));
    assert!(like_match("temp_ate_", "template0"));
    assert!(!like_match("temp_ate_", "template"));
}

#[test]
fn name_order_is_lexicographic() {
    assert!(str_le("a", "b"));
    assert!(str_le("a", "a"));
    assert!(!str_le("b", "a"));
    assert!(str_le("", "a"));
    assert!(!str_le("a", ""));
    assert!(str_le("a", "ab"));
    assert!(!str_le("ab", "a"));
    assert!(str_le("app_v1", "public"));
    assert!(str_le("A", "a"));
}

#[test]
fn databases_omit_templates_excludes_templates() {
    let rows = vec![db("template0", true), db("postgres", false), db("template1", true)];
    let out = get_db_info(rows, None, Some(true));
    assert_eq!(out.len(), 1);
    assert_eq!(out[0].datname, "postgres");
    assert!(!out[0].datistemplate);
}

#[test]
fn databases_keep_templates_by_default() {
    let rows = vec![db("template0", true), db("postgres", false)];
    let unset = get_db_info(rows.clone(), None, None);
    assert_eq!(unset.len(), 2);
    let explicit = get_db_info(rows, None, Some(false));
    assert_eq!(unset, explicit);
    assert_eq!(unset[0].datname, "template0");
    assert_eq!(unset[1].datname, "postgres");
}

#[test]
fn databases_unset_pattern_equals_percent() {
    let rows = vec![db("alpha", false), db("beta", true), db("gamma", false)];
    let unset = get_db_info(rows.clone(), None, None);
    let percent = get_db_info(rows.clone(), Some("%".to_string()), None);
    assert_eq!(unset, percent);
    assert_eq!(unset.len(), 3);
}

#[test]
fn databases_exact_pattern_matches_only_that_name() {
    let rows = vec![db("alpha", false), db("alphabet", false), db("Alpha", false)];
    let out = get_db_info(rows, Some("alpha".to_string()), None);
    assert_eq!(out.len(), 1);
    assert_eq!(out[0].datname, "alpha");
}

#[test]
fn databases_pattern_and_omit_combine() {
    let rows = vec![
        db("template0", true),
        db("template_like", false),
        db("postgres", false),
    ];
    let out = get_db_info(rows, Some("temp%".to_string()), Some(true));
    assert_eq!(out.len(), 1);
    assert_eq!(out[0].datname, "template_like");
}

#[test]
fn databases_preserve_catalog_order_and_duplicates() {
    let rows = vec![db("b", false), db("a", false), db("b", false)];
    let out = get_db_info(rows, None, None);
    let got: Vec<&str> = out.iter().map(|r| r.datname.as_str()).collect();
    assert_eq!(got, vec!["b", "a", "b"]);
}

#[test]
fn databases_empty_input_gives_empty_output() {
    let out = get_db_info(Vec::new(), None, None);
    assert!(out.is_empty());
    let out2 = get_db_info(Vec::new(), Some("%".to_string()), Some(true));
    assert!(out2.is_empty());
}

#[test]
fn schemas_prefix_pattern_scenario() {
    let rows = vec![sch(Some("public")), sch(Some("app_v1"))];
    let out = get_schemas(rows, Some("app%".to_string()));
    assert_eq!(out.len(), 1);
    assert_eq!(out[0].schema_name.as_deref(), Some("app_v1"));
}

#[test]
fn schemas_sorted_ascending_by_name() {
    let rows = vec![
        sch(Some("public")),
        sch(Some("app_v1")),
        sch(Some("information_schema")),
        sch(Some("pg_catalog")),
    ];
    let out = get_schemas(rows, None);
    let got = names(&out);
    assert_eq!(
        got,
        vec![
            Some("app_v1".to_string()),
            Some("information_schema".to_string()),
            Some("pg_catalog".to_string()),
            Some("public".to_string()),
        ]
    );
    for w in out.windows(2) {
        assert!(w[0].schema_name <= w[1].schema_name);
    }
}

#[test]
fn schemas_unset_pattern_equals_percent() {
    let rows = vec![sch(Some("b")), sch(Some("a")), sch(Some("c"))];
    let unset = get_schemas(rows.clone(), None);
    let percent = get_schemas(rows, Some("%".to_string()));
    assert_eq!(unset, percent);
    assert_eq!(unset.len(), 3);
}

#[test]
fn schemas_without_name_are_dropped() {
    let rows = vec![sch(None), sch(Some("public")), sch(None)];
    let out = get_schemas(rows, None);
    assert_eq!(out.len(), 1);
    assert_eq!(out[0].schema_name.as_deref(), Some("public"));
}

#[test]
fn schemas_exact_pattern_matches_only_that_name() {
    let rows = vec![sch(Some("public")), sch(Some("public2")), sch(Some("pub"))];
    let out = get_schemas(rows, Some("public".to_string()));
    assert_eq!(out.len(), 1);
    assert_eq!(out[0].schema_name.as_deref(), Some("public"));
}

#[test]
fn schemas_duplicates_kept_and_sorted() {
    let rows = vec![sch(Some("b")), sch(Some("a")), sch(Some("b"))];
    let out = get_schemas(rows, None);
    let got = names(&out);
    assert_eq!(
        got,
        vec![Some("a".to_string()), Some("b".to_string()), Some("b".to_string())]
    );
}

#[test]
fn schemas_empty_result_for_unmatched_pattern() {
    let rows = vec![sch(Some("public"))];
    let out = get_schemas(rows, Some("nosuch%".to_string()));
    assert!(out.is_empty());
}
