use feco3::record::{RecordSchema, ValueType};
use feco3::schemas::json::{parse_json, Json};
use feco3::schemas::lookup::{
    do_lookup, load_mappings, lookup_schema, table_from_json, Mappings, MappingsError,
    SchemaRegistry,
};
use feco3::Error;

fn table_text() -> &'static str {
    r#"{
        "^hdr$": {
            "^[6-8]": ["record_type", "ef_type", "fec_version", "soft_name", "soft_ver", "report_id", "report_number", "comment"],
            "^[3-5]": ["record_type", "ef_type", "fec_version", "soft_name", "soft_ver", "name_delim", "report_id", "report_number", "comment"]
        },
        "^f3x[ant]?$": {
            "^8.3|8.2": ["form_type", "filer_committee_id_number", "committee_name"],
            "^8": ["form_type", "filer_committee_id_number"]
        },
        "^sa": {
            "^8": ["form_type", "filer_committee_id_number", "transaction_id", "contribution_amount"]
        },
        "^s": {
            "^8": ["form_type", "anything"]
        }
    }"#
}

fn registry() -> SchemaRegistry {
    SchemaRegistry::new(load_mappings(table_text()).unwrap())
}

fn names(schema: &RecordSchema) -> Vec<String> {
    schema.fields.iter().map(|f| f.name.clone()).collect()
}

#[test]
fn json_documents_are_read_as_trees() {
    match parse_json(r#"{"b": [1, "x", null, true, 2.5], "a": {}}"#).unwrap() {
        Json::Object(members) => {
            assert_eq!(members.len(), 2);
            assert_eq!(members[0].0, "b");
            assert_eq!(members[1].0, "a");
            match &members[0].1 {
                Json::Array(items) => {
                    assert_eq!(items.len(), 5);
                    assert!(matches!(&items[0], Json::Number(n) if n == "1"));
                    assert!(matches!(&items[1], Json::Text(s) if s == "x"));
                    assert!(matches!(&items[2], Json::Null));
                    assert!(matches!(&items[3], Json::Bool(true)));
                    assert!(matches!(&items[4], Json::Number(n) if n == "2.5"));
                }
                other => panic!("unexpected {:?}", other),
            }
            assert!(matches!(&members[1].1, Json::Object(m) if m.is_empty()));
        }
        other => panic!("unexpected {:?}", other),
    }
}

#[test]
fn json_syntax_errors_are_refused() {
    assert!(parse_json("{").is_none());
    assert!(parse_json("").is_none());
    assert!(parse_json("{\"a\": }").is_none());
    assert!(parse_json("[1, 2").is_none());
}

#[test]
fn table_keeps_the_order_of_the_document() {
    let json = parse_json(r#"{"z": {"2": ["a"], "1": ["b", "c"]}, "a": {}}"#).unwrap();
    let table = table_from_json(&json).unwrap();
    assert_eq!(table.len(), 2);
    assert_eq!(table[0].0, "z");
    assert_eq!(table[0].1.len(), 2);
    assert_eq!(table[0].1[0], ("2".to_string(), vec!["a".to_string()]));
    assert_eq!(table[0].1[1], ("1".to_string(), vec!["b".to_string(), "c".to_string()]));
    assert_eq!(table[1], ("a".to_string(), vec![]));
}

#[test]
fn table_must_have_the_shape_of_one() {
    for bad in [
        "[]",
        "3",
        "\"x\"",
        r#"{"a": []}"#,
        r#"{"a": {"1": "x"}}"#,
        r#"{"a": {"1": [1]}}"#,
        r#"{"a": {"1": ["x", null]}}"#,
        r#"{"a": {"1": {}}}"#,
    ] {
        assert!(table_from_json(&parse_json(bad).unwrap()).is_none(), "{}", bad);
        assert!(matches!(load_mappings(bad), Err(MappingsError::Shape)), "{}", bad);
    }
    assert!(table_from_json(&parse_json("{}").unwrap()).unwrap().is_empty());
}

#[test]
fn load_mappings_reports_each_error() {
    assert!(matches!(load_mappings("{"), Err(MappingsError::Syntax)));
    assert!(matches!(load_mappings("[]"), Err(MappingsError::Shape)));
    match load_mappings(r#"{"^ok$": {"(": ["a"]}}"#) {
        Err(MappingsError::Pattern(p)) => assert_eq!(p, "("),
        other => panic!("unexpected {:?}", other.map(|_| ())),
    }
    match load_mappings(r#"{"[": {"^1": ["a"]}}"#) {
        Err(MappingsError::Pattern(p)) => assert_eq!(p, "["),
        other => panic!("unexpected {:?}", other.map(|_| ())),
    }
}

#[test]
fn load_mappings_keeps_patterns_and_names() {
    let m = load_mappings(table_text()).unwrap();
    assert_eq!(m.entries.len(), 4);
    assert_eq!(m.entries[0].pattern, "^hdr$");
    assert_eq!(m.entries[0].versions.len(), 2);
    assert_eq!(m.entries[0].versions[1].pattern, "^[3-5]");
    assert_eq!(m.entries[0].versions[1].fields.len(), 9);
    assert_eq!(m.entries[2].versions[0].fields[3], "contribution_amount");
}

#[test]
fn mappings_from_a_plain_table() {
    let table = vec![(
        "^x$".to_string(),
        vec![("^1".to_string(), vec!["form_type".to_string(), "n".to_string()])],
    )];
    let m = Mappings::from_table(&table).unwrap();
    let schema = do_lookup(&m, "1.0", "X").unwrap();
    assert_eq!(names(&schema), vec!["form_type", "n"]);
    let bad = vec![("^x$".to_string(), vec![("*".to_string(), vec![])])];
    assert!(matches!(Mappings::from_table(&bad), Err(MappingsError::Pattern(p)) if p == "*"));
}

#[test]
fn lookup_resolves_the_schema_of_a_line_code() {
    let mut r = registry();
    let schema = lookup_schema(&mut r, "8.3", "SA11AI").unwrap();
    assert_eq!(schema.code, "SA11AI");
    assert_eq!(
        names(&schema),
        vec!["form_type", "filer_committee_id_number", "transaction_id", "contribution_amount"]
    );
    assert!(schema.fields.iter().all(|f| f.typ == ValueType::String));
}

#[test]
fn lookup_ignores_case_in_patterns() {
    let mut r = registry();
    assert_eq!(lookup_schema(&mut r, "8.3", "hdr").unwrap().fields.len(), 8);
    assert_eq!(lookup_schema(&mut r, "8.3", "HDR").unwrap().fields.len(), 8);
    assert_eq!(lookup_schema(&mut r, "8.3", "Hdr").unwrap().code, "Hdr");
    assert_eq!(lookup_schema(&mut r, "8.3", "f3xn").unwrap().code, "f3xn");
}

#[test]
fn lookup_takes_the_first_entry_that_matches() {
    let mut r = registry();
    // `^sa` stands before `^s`, and `^8.3|8.2` before `^8`.
    assert_eq!(lookup_schema(&mut r, "8.3", "SA17").unwrap().fields.len(), 4);
    assert_eq!(names(&lookup_schema(&mut r, "8.3", "SB23").unwrap()), vec!["form_type", "anything"]);
    assert_eq!(lookup_schema(&mut r, "8.3", "F3XN").unwrap().fields.len(), 3);
    assert_eq!(lookup_schema(&mut r, "8.1", "F3XN").unwrap().fields.len(), 2);
    assert_eq!(lookup_schema(&mut r, "5.0", "HDR").unwrap().fields.len(), 9);
}

#[test]
fn lookup_goes_on_when_no_version_of_an_entry_matches() {
    let m = load_mappings(
        r#"{"^s": {"^1": ["form_type", "first"]}, "^sa": {"^2": ["form_type", "second"]}}"#,
    )
    .unwrap();
    assert_eq!(names(&do_lookup(&m, "2.0", "SA11").unwrap()), vec!["form_type", "second"]);
    assert_eq!(names(&do_lookup(&m, "1.0", "SA11").unwrap()), vec!["form_type", "first"]);
}

#[test]
fn schema_miss_is_an_error_with_version_and_code() {
    let mut r = registry();
    match lookup_schema(&mut r, "8.3", "ZZZ") {
        Err(Error::SchemaError(v, c)) => {
            assert_eq!(v, "8.3");
            assert_eq!(c, "ZZZ");
        }
        other => panic!("unexpected {:?}", other),
    }
    assert!(matches!(lookup_schema(&mut r, "1.0", "SA11"), Err(Error::SchemaError(_, _))));
    assert_eq!(r.cached_len(), 0);
}

#[test]
fn lookup_remembers_each_schema_once() {
    let mut r = registry();
    assert_eq!(r.cached_len(), 0);
    let first = lookup_schema(&mut r, "8.3", "SA11").unwrap();
    assert_eq!(r.cached_len(), 1);
    let second = lookup_schema(&mut r, "8.3", "SA11").unwrap();
    assert_eq!(r.cached_len(), 1);
    assert!(first == second);
    assert_eq!(names(&first), names(&second));
    lookup_schema(&mut r, "8.2", "SA11").unwrap();
    lookup_schema(&mut r, "8.3", "SA12").unwrap();
    assert_eq!(r.cached_len(), 3);
    let third = lookup_schema(&mut r, "8.3", "SA11").unwrap();
    assert_eq!(r.cached_len(), 3);
    assert_eq!(third.code, first.code);
    assert_eq!(names(&third), names(&first));
    assert_eq!(r.table().entries.len(), 4);
}

#[test]
fn schemas_are_equal_by_code() {
    let mut r = registry();
    let a = lookup_schema(&mut r, "8.3", "SA11").unwrap();
    let b = lookup_schema(&mut r, "8.3", "SB23").unwrap();
    assert!(a != b);
    let mut c = a.clone();
    c.fields.clear();
    assert!(a == c);
    assert!(a.same_code(&c));
    assert!(!a.same_code(&b));
}
