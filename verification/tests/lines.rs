use feco3::cover::parse_cover_line;
use feco3::record::{FieldSchema, Record, RecordSchema, Value, ValueType};
use feco3::schemas::lookup::{load_mappings, SchemaRegistry};
use feco3::schemas::parse::get_record_type_code;
use feco3::schemas::{CoercingLineParser, LineParser, LiteralLineParser};
use feco3::Error;

fn registry() -> SchemaRegistry {
    SchemaRegistry::new(
        load_mappings(
            r#"{
                "^f3x[ant]?$": {"^8": ["form_type", "filer_committee_id_number", "committee_name"]},
                "^sa": {"^8": ["form_type", "filer_committee_id_number", "transaction_id", "amount"]},
                "^nofiler$": {"^8": ["form_type", "other"]},
                "^twice$": {"^8": ["form_type", "x", "x"]}
            }"#,
        )
        .unwrap(),
    )
}

fn line(fields: &[&str]) -> Vec<String> {
    fields.iter().map(|s| s.to_string()).collect()
}

fn text(s: &str) -> Value {
    Value::String(Some(s.to_string()))
}

fn typed_schema() -> RecordSchema {
    RecordSchema {
        code: "SA11".to_string(),
        fields: vec![
            FieldSchema { name: "code".to_string(), typ: ValueType::String },
            FieldSchema { name: "amt".to_string(), typ: ValueType::Float },
            FieldSchema { name: "dt".to_string(), typ: ValueType::Date },
            FieldSchema { name: "ok".to_string(), typ: ValueType::Boolean },
        ],
    }
}

#[test]
fn coercing_policy_on_short_line() {
    let values =
        CoercingLineParser.parse_values(&typed_schema(), &line(&["SA11", "", "20240102", ""])).unwrap();
    assert_eq!(values.len(), 4);
    assert_eq!(values[0], text("SA11"));
    assert_eq!(values[1], Value::Float(None));
    assert_eq!(values[2].typ(), ValueType::Date);
    assert_eq!(values[2].to_text(), "2024-01-02");
    assert_eq!(values[3], Value::Boolean(None));
}

#[test]
fn coercing_policy_pads_with_absent_values() {
    let values = CoercingLineParser.parse_values(&typed_schema(), &line(&["SA11", "1.5"])).unwrap();
    assert_eq!(
        values,
        vec![text("SA11"), Value::Float(Some("1.5".to_string())), Value::Date(None), Value::Boolean(None)]
    );
    let values = CoercingLineParser.parse_values(&typed_schema(), &line(&[])).unwrap();
    assert_eq!(
        values,
        vec![Value::String(None), Value::Float(None), Value::Date(None), Value::Boolean(None)]
    );
}

#[test]
fn coercing_policy_forgives_fields_that_do_not_parse() {
    let values = CoercingLineParser
        .parse_values(&typed_schema(), &line(&["SA11", "abc", "20241301", "maybe"]))
        .unwrap();
    assert_eq!(values, vec![text("SA11"), Value::Float(None), Value::Date(None), Value::Boolean(None)]);
}

#[test]
fn coercing_policy_keeps_extra_fields_as_text() {
    let values = CoercingLineParser
        .parse_values(&typed_schema(), &line(&["SA11", "1", "20240102", "true", " extra ", ""]))
        .unwrap();
    assert_eq!(values.len(), 6);
    assert_eq!(values[3], Value::Boolean(Some(true)));
    assert_eq!(values[4], text(" extra "));
    assert_eq!(values[5], text(""));
}

#[test]
fn coercing_policy_gives_one_value_for_each_field_of_the_schema() {
    let schema = typed_schema();
    for n in 0..=4 {
        let raw: Vec<String> = (0..n).map(|i| format!("f{}", i)).collect();
        let values = CoercingLineParser.parse_values(&schema, &raw).unwrap();
        assert_eq!(values.len(), schema.fields.len());
        for (v, f) in values.iter().zip(schema.fields.iter()).skip(1) {
            assert_eq!(v.typ(), f.typ);
        }
    }
}

#[test]
fn literal_policy_reads_every_field_as_its_type() {
    let values = LiteralLineParser
        .parse_values(&typed_schema(), &line(&["SA11", " 250.00 ", "20240102", "false"]))
        .unwrap();
    assert_eq!(values[0], text("SA11"));
    assert_eq!(values[1], Value::Float(Some("250.00".to_string())));
    assert_eq!(values[2].to_text(), "2024-01-02");
    assert_eq!(values[3], Value::Boolean(Some(false)));
}

#[test]
fn literal_policy_gives_fewer_values_for_a_short_line() {
    let values = LiteralLineParser.parse_values(&typed_schema(), &line(&["SA11", ""])).unwrap();
    assert_eq!(values, vec![text("SA11"), Value::Float(None)]);
    assert!(LiteralLineParser.parse_values(&typed_schema(), &line(&[])).unwrap().is_empty());
}

#[test]
fn literal_policy_fails_on_a_field_that_does_not_parse() {
    match LiteralLineParser.parse_values(&typed_schema(), &line(&["SA11", "1", "xx", "maybe"])) {
        Err(Error::RecordParseError(m)) => assert_eq!(m, "invalid date: xx"),
        other => panic!("unexpected {:?}", other),
    }
}

#[test]
fn literal_policy_fails_on_too_many_fields() {
    match LiteralLineParser.parse_values(&typed_schema(), &line(&["SA11", "1", "", "", "extra"])) {
        Err(Error::RecordParseError(m)) => assert_eq!(m, "too many values"),
        other => panic!("unexpected {:?}", other),
    }
    // A field that does not parse comes first.
    match LiteralLineParser.parse_values(&typed_schema(), &line(&["SA11", "x", "", "", "extra"])) {
        Err(Error::RecordParseError(m)) => assert_eq!(m, "invalid float: x"),
        other => panic!("unexpected {:?}", other),
    }
    let empty = RecordSchema { code: "X".to_string(), fields: vec![] };
    assert!(LiteralLineParser.parse_values(&empty, &line(&["X"])).is_err());
}

#[test]
fn parse_line_takes_the_first_field_as_the_line_code() {
    let mut r = registry();
    let record: Record =
        CoercingLineParser.parse_line(&mut r, "8.3", &line(&["sa11ai", "C1", "T1", "100"])).unwrap();
    assert_eq!(record.line_code, "sa11ai");
    assert_eq!(record.schema.code, "sa11ai");
    assert_eq!(record.schema.fields.len(), 4);
    assert_eq!(record.values, vec![text("sa11ai"), text("C1"), text("T1"), text("100")]);
    assert_eq!(r.cached_len(), 1);
}

#[test]
fn parse_line_refuses_a_line_without_fields() {
    let mut r = registry();
    for result in [
        CoercingLineParser.parse_line(&mut r, "8.3", &line(&[])),
        LiteralLineParser.parse_line(&mut r, "8.3", &line(&[])),
    ] {
        match result {
            Err(Error::RecordParseError(m)) => assert_eq!(m, "No form name"),
            other => panic!("unexpected {:?}", other),
        }
    }
    assert!(matches!(get_record_type_code(&line(&[])), Err(Error::RecordParseError(_))));
    assert_eq!(get_record_type_code(&line(&["A", "B"])).unwrap(), "A");
    assert_eq!(r.cached_len(), 0);
}

#[test]
fn parse_line_reports_a_schema_miss() {
    let mut r = registry();
    match CoercingLineParser.parse_line(&mut r, "8.3", &line(&["ZZZ", "x", "y"])) {
        Err(Error::SchemaError(v, c)) => {
            assert_eq!(v, "8.3");
            assert_eq!(c, "ZZZ");
        }
        other => panic!("unexpected {:?}", other),
    }
}

#[test]
fn parse_line_policies_differ_on_long_lines() {
    let mut r = registry();
    let long = line(&["F3XN", "C1", "Name", "extra"]);
    assert!(matches!(
        LiteralLineParser.parse_line(&mut r, "8.3", &long),
        Err(Error::RecordParseError(_))
    ));
    let record = CoercingLineParser.parse_line(&mut r, "8.3", &long).unwrap();
    assert_eq!(record.values.len(), 4);
    assert_eq!(record.values[3], text("extra"));
}

#[test]
fn get_value_finds_fields_by_name() {
    let mut r = registry();
    let record =
        CoercingLineParser.parse_line(&mut r, "8.3", &line(&["SA11", "C1", " T1 "])).unwrap();
    assert_eq!(record.get_value("form_type"), Some(&text("SA11")));
    assert_eq!(record.get_value("filer_committee_id_number"), Some(&text("C1")));
    assert_eq!(record.get_value("transaction_id"), Some(&text("T1")));
    assert_eq!(record.get_value("amount"), Some(&Value::String(None)));
    assert_eq!(record.get_value("missing"), None);
    assert_eq!(record.get_value("FORM_TYPE"), None);
}

#[test]
fn get_value_is_none_beyond_the_values() {
    let mut r = registry();
    let record = LiteralLineParser.parse_line(&mut r, "8.3", &line(&["SA11", "C1"])).unwrap();
    assert_eq!(record.values.len(), 2);
    assert_eq!(record.get_value("filer_committee_id_number"), Some(&text("C1")));
    assert_eq!(record.get_value("transaction_id"), None);
}

#[test]
fn get_value_takes_the_first_of_two_fields_with_one_name() {
    let mut r = registry();
    let record = LiteralLineParser.parse_line(&mut r, "8.3", &line(&["twice", "a", "b"])).unwrap();
    assert_eq!(record.get_value("x"), Some(&text("a")));
}

#[test]
fn cover_extraction() {
    let mut r = registry();
    let cover = parse_cover_line(&mut r, "8.3", &line(&["F3XN", "C00101766", "Some PAC"])).unwrap();
    assert_eq!(cover.form_type, "F3XN");
    assert_eq!(cover.filer_committee_id, "C00101766");
}

#[test]
fn cover_of_a_short_line_has_an_empty_filer() {
    let mut r = registry();
    let cover = parse_cover_line(&mut r, "8.3", &line(&["F3XA", ""])).unwrap();
    assert_eq!(cover.form_type, "F3XA");
    assert_eq!(cover.filer_committee_id, "");
}

#[test]
fn cover_without_filer_is_an_error() {
    let mut r = registry();
    match parse_cover_line(&mut r, "8.3", &line(&["NOFILER", "x"])) {
        Err(Error::CoverParseError(m)) => {
            assert_eq!(m, "no 'filer_committee_id_number' in cover line")
        }
        other => panic!("unexpected {:?}", other),
    }
    // The field is in the schema, but the line ends before it.
    assert!(matches!(
        parse_cover_line(&mut r, "8.3", &line(&["F3XN"])),
        Err(Error::CoverParseError(_))
    ));
}

#[test]
fn cover_passes_on_the_errors_of_the_line() {
    let mut r = registry();
    assert!(matches!(
        parse_cover_line(&mut r, "8.3", &line(&["ZZZ", "x"])),
        Err(Error::SchemaError(_, _))
    ));
    assert!(matches!(
        parse_cover_line(&mut r, "8.3", &line(&[])),
        Err(Error::RecordParseError(_))
    ));
    assert!(matches!(
        parse_cover_line(&mut r, "8.3", &line(&["F3XN", "C1", "n", "too", "many"])),
        Err(Error::RecordParseError(_))
    ));
}

#[test]
fn errors_describe_themselves() {
    assert_eq!(
        Error::CoverParseError("x".to_string()).message(),
        "Failed to parse cover line: x"
    );
    assert_eq!(Error::RecordParseError("y".to_string()).message(), "Failed to parse record: y");
    assert_eq!(
        Error::SchemaError("8.3".to_string(), "ZZZ".to_string()).message(),
        "Failed to find schema for fec version 8.3 and line code ZZZ"
    );
    assert_eq!(Error::IoError("broken pipe".to_string()).message(), "broken pipe");
}

#[test]
fn records_and_covers_are_copied() {
    let mut r = registry();
    let record = CoercingLineParser.parse_line(&mut r, "8.3", &line(&["SA11", "C1"])).unwrap();
    let copy = record.clone();
    assert_eq!(copy.line_code, record.line_code);
    assert!(copy.schema == record.schema);
    assert_eq!(copy.schema.fields.len(), record.schema.fields.len());
    assert_eq!(copy.values, record.values);
    let cover = parse_cover_line(&mut r, "8.3", &line(&["F3XN", "C1", "n"])).unwrap();
    let copy = cover.clone();
    assert_eq!(copy.form_type, "F3XN");
    assert_eq!(copy.filer_committee_id, "C1");
    let empty = feco3::Cover::default();
    assert_eq!(empty.form_type, "");
    assert_eq!(empty.filer_committee_id, "");
}

#[test]
fn coercing_policy_reads_the_first_field_under_its_type() {
    let schema = RecordSchema {
        code: "X".to_string(),
        fields: vec![
            FieldSchema { name: "n".to_string(), typ: ValueType::Integer },
            FieldSchema { name: "ok".to_string(), typ: ValueType::Boolean },
            FieldSchema { name: "d".to_string(), typ: ValueType::Date },
        ],
    };
    let values =
        CoercingLineParser.parse_values(&schema, &line(&["12x", "TRUE", "2024-01-02"])).unwrap();
    assert_eq!(values, vec![Value::Integer(None), Value::Boolean(None), Value::Date(None)]);
    let values = CoercingLineParser.parse_values(&schema, &line(&[" 12 ", "true"])).unwrap();
    assert_eq!(values, vec![Value::Integer(Some(12)), Value::Boolean(Some(true)), Value::Date(None)]);
    for n in 0..=3 {
        let raw: Vec<String> = (0..n).map(|i| format!("f{}", i)).collect();
        let values = CoercingLineParser.parse_values(&schema, &raw).unwrap();
        assert_eq!(values.len(), 3);
        for (v, f) in values.iter().zip(schema.fields.iter()) {
            assert_eq!(v.typ(), f.typ);
        }
    }
}

#[test]
fn literal_policy_reads_the_first_field_under_its_type() {
    let schema = RecordSchema {
        code: "X".to_string(),
        fields: vec![
            FieldSchema { name: "amt".to_string(), typ: ValueType::Float },
            FieldSchema { name: "memo".to_string(), typ: ValueType::String },
        ],
    };
    match LiteralLineParser.parse_values(&schema, &line(&["abc", "x"])) {
        Err(Error::RecordParseError(m)) => assert_eq!(m, "invalid float: abc"),
        other => panic!("unexpected {:?}", other),
    }
    assert_eq!(
        LiteralLineParser.parse_values(&schema, &line(&[" 1.5 ", " x "])).unwrap(),
        vec![Value::Float(Some("1.5".to_string())), text("x")]
    );
    assert_eq!(
        LiteralLineParser.parse_values(&schema, &line(&["  ", ""])).unwrap(),
        vec![Value::Float(None), Value::String(None)]
    );
    assert_eq!(
        LiteralLineParser.parse_values(&schema, &line(&[""])).unwrap(),
        vec![Value::Float(None)]
    );
}

#[test]
fn the_line_code_is_kept_as_it_stood() {
    let mut r = registry();
    let record =
        CoercingLineParser.parse_line(&mut r, "8.3", &line(&["SA11 ", "C1"])).unwrap();
    assert_eq!(record.line_code, "SA11 ");
    assert_eq!(record.schema.code, "SA11 ");
    assert_eq!(record.values[0], text("SA11"));
    assert_eq!(record.get_value("form_type"), Some(&text("SA11")));
}
