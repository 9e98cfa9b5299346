use rs_pg_schemas2ql::sdl::contains_str;
use rs_pg_schemas2ql::sdl::sdl_declares_query_fields;

#[test]
fn contains_str_finds_runs() {
    assert!(contains_str("hello world", "hello"));
    assert!(contains_str("hello world", "world"));
    assert!(contains_str("hello world", "o w"));
    assert!(contains_str("hello world", ""));
    assert!(contains_str("", ""));
    assert!(!contains_str("hello world", "worlds"));
    assert!(!contains_str("hello", "hello world"));
    assert!(!contains_str("", "x"));
}

#[test]
fn sdl_with_both_field_declarations_is_accepted() {
    let sdl = "type DbInfo {\n\
        \x20 datname: String!\n\
        \x20 encoding: Int!\n\
        \x20 datcollate: String!\n\
        \x20 datctype: String!\n\
        \x20 datistemplate: Boolean!\n\
        \x20 datallowconn: Boolean!\n\
        \x20 datconnlimit: Int!\n\
        }\n\
        \n\
        type Query {\n\
        \x20 databases(dbnamePattern: String, omitTemplates: Boolean): [DbInfo!]!\n\
        \x20 schemas(schemaNamePattern: String): [Schema!]!\n\
        }\n\
        \n\
        type Schema {\n\
        \x20 catalogName: String\n\
        \x20 schemaName: String\n\
        \x20 schemaOwner: String\n\
        }\n";
    assert!(sdl_declares_query_fields(sdl));
}

#[test]
fn sdl_missing_a_field_declaration_is_rejected() {
    let only_databases =
        "type Query {\n  databases(dbnamePattern: String, omitTemplates: Boolean): [DbInfo!]!\n}\n";
    assert!(!sdl_declares_query_fields(only_databases));

    let only_schemas = "type Query {\n  schemas(schemaNamePattern: String): [Schema!]!\n}\n";
    assert!(!sdl_declares_query_fields(only_schemas));

    let wrong_shape =
        "type Query {\n  databases(dbnamePattern: String): [DbInfo!]!\n  schemas(schemaNamePattern: String): [Schema!]!\n}\n";
    assert!(!sdl_declares_query_fields(wrong_shape));

    assert!(!sdl_declares_query_fields(""));
}
