use feco3::record::{FieldSchema, Record, RecordSchema, Value, ValueType};
use feco3::schemas::lookup::{load_mappings, SchemaRegistry};
use feco3::schemas::{CoercingLineParser, LineParser};
use feco3::writers::arrow::{
    field_schema_to_arrow_field, record_schema_to_arrow_schema, value_type_to_arrow_type,
    ArrowType, RecordBatchProcessor, RecordBatchWriter, RecordBatchWriterFactory,
};
use feco3::writers::base::{
    join_path, norm_form_name, write_all, FileRecordWriterFactory, MultiFileRecordWriterFactory,
    MultiRecordWriter, RecordWriter, RecordWriterFactory,
};
use feco3::writers::csv::{CSVFileWriterFactory, CSVFormWriter, CSVProcessor};
use feco3::writers::parquet::{ParquetProcessor, ParquetWriter, ParquetWriterFactory};
use feco3::{Error, FecFile};

fn registry() -> SchemaRegistry {
    SchemaRegistry::new(
        load_mappings(
            r#"{
                "^hdr$": {"^[6-8]": ["record_type", "ef_type", "fec_version", "soft_name", "soft_ver", "report_id", "report_number", "comment"]},
                "^f3x[ant]?$": {"^8": ["form_type", "filer_committee_id_number", "committee_name"]},
                "^sa": {"^8": ["form_type", "filer_committee_id_number", "transaction_id", "amount"]},
                "^sb": {"^8": ["form_type", "filer_committee_id_number", "transaction_id"]},
                "^sc/": {"^8": ["form_type", "filer_committee_id_number", "loan"]}
            }"#,
        )
        .unwrap(),
    )
}

fn filing() -> Vec<u8> {
    b"HDR,FEC,8.3,NGP8,8\nF3XN,C1,Some PAC\nSA11,C1,T1,100\nSB23,C1,T2\nSA11,C1,\"Smith, John\",250\n".to_vec()
}

fn record(r: &mut SchemaRegistry, fields: &[&str]) -> Record {
    let line: Vec<String> = fields.iter().map(|s| s.to_string()).collect();
    CoercingLineParser.parse_line(r, "8.3", &line).unwrap()
}

fn text(s: &str) -> Value {
    Value::String(Some(s.to_string()))
}

fn typed_schema() -> RecordSchema {
    RecordSchema {
        code: "T".to_string(),
        fields: vec![
            FieldSchema { name: "code".to_string(), typ: ValueType::String },
            FieldSchema { name: "n".to_string(), typ: ValueType::Integer },
            FieldSchema { name: "ok".to_string(), typ: ValueType::Boolean },
        ],
    }
}

fn typed_record(n: i64) -> Record {
    Record {
        schema: typed_schema(),
        line_code: "T".to_string(),
        values: vec![text("T"), Value::Integer(Some(n)), Value::Boolean(None)],
    }
}

#[test]
fn form_names_become_file_names() {
    assert_eq!(norm_form_name("SC/10"), "SC-10");
    assert_eq!(norm_form_name("SA11"), "SA11");
    assert_eq!(norm_form_name("a/b/c"), "a-b-c");
    assert_eq!(norm_form_name("/"), "-");
    assert_eq!(norm_form_name(""), "");
    assert_eq!(CSVFileWriterFactory.file_name("SC-10".to_string()), "SC-10.csv");
    assert_eq!(ParquetWriterFactory::default().file_name("SA11".to_string()), "SA11.parquet");
}

#[test]
fn paths_are_joined_with_one_slash() {
    assert_eq!(join_path("out", "SA11.csv"), "out/SA11.csv");
    assert_eq!(join_path("out/", "SA11.csv"), "out/SA11.csv");
    assert_eq!(join_path("", "SA11.csv"), "SA11.csv");
    assert_eq!(join_path("/", "x"), "/x");
    assert_eq!(join_path("a/b", "c"), "a/b/c");
    for (base, name) in [("out", "x.csv"), ("out/", "x.csv"), ("", "x"), ("/tmp/a", "b")] {
        assert_eq!(
            join_path(base, name),
            std::path::Path::new(base).join(name).to_str().unwrap()
        );
    }
}

#[test]
fn file_factory_names_the_file_after_the_schema() {
    let mut r = registry();
    let factory = MultiFileRecordWriterFactory::new("out".to_string(), CSVFileWriterFactory);
    let rec = record(&mut r, &["SC/10", "C1", "x"]);
    assert_eq!(factory.path_for(&rec.schema), "out/SC-10.csv");
    let mut factory = factory;
    let writer = factory.make_writer(&rec.schema).unwrap();
    assert_eq!(writer.file_path(), "out/SC-10.csv");
    let factory = MultiFileRecordWriterFactory::new("dir/".to_string(), ParquetWriterFactory::default());
    assert_eq!(factory.path_for(&rec.schema), "dir/SC-10.parquet");
}

#[test]
fn text_writer_writes_the_header_row_once() {
    let mut r = registry();
    let rec = record(&mut r, &["SA11", "C1", "T1", "100"]);
    let mut w = CSVFormWriter::new("out/SA11.csv", &rec.schema);
    assert!(w.take_output().is_empty());
    w.write_record(&rec).unwrap();
    assert_eq!(
        w.take_output(),
        b"form_type,filer_committee_id_number,transaction_id,amount\nSA11,C1,T1,100\n"
    );
    w.write_record(&record(&mut r, &["SA11", "C2", "T2", "7"])).unwrap();
    w.write_record(&record(&mut r, &["SA11", "C3"])).unwrap();
    assert_eq!(w.take_output(), b"SA11,C2,T2,7\nSA11,C3,,\n");
    assert!(w.take_output().is_empty());
    w.finish().unwrap();
    assert!(w.take_output().is_empty());
}

#[test]
fn text_writer_writes_the_header_alone_when_asked() {
    let mut r = registry();
    let rec = record(&mut r, &["SB23", "C1", "T1"]);
    let mut w = CSVFormWriter::new("x", &rec.schema);
    w.maybe_write_header().unwrap();
    w.maybe_write_header().unwrap();
    assert_eq!(w.take_output(), b"form_type,filer_committee_id_number,transaction_id\n");
    w.write_record(&rec).unwrap();
    assert_eq!(w.take_output(), b"SB23,C1,T1\n");
}

#[test]
fn text_writer_quotes_what_needs_quotes() {
    let mut r = registry();
    let rec = record(&mut r, &["SA11", "Smith, John", "say \"hi\"", "a\nb", "extra"]);
    let mut w = CSVFormWriter::new("x", &rec.schema);
    w.maybe_write_header().unwrap();
    w.take_output();
    w.write_record(&rec).unwrap();
    assert_eq!(w.take_output(), b"SA11,\"Smith, John\",\"say \"\"hi\"\"\",\"a\nb\",extra\n");
}

#[test]
fn text_writer_writes_typed_values() {
    let schema = RecordSchema {
        code: "T".to_string(),
        fields: vec![
            FieldSchema { name: "code".to_string(), typ: ValueType::String },
            FieldSchema { name: "amt".to_string(), typ: ValueType::Float },
            FieldSchema { name: "dt".to_string(), typ: ValueType::Date },
            FieldSchema { name: "ok".to_string(), typ: ValueType::Boolean },
            FieldSchema { name: "n".to_string(), typ: ValueType::Integer },
        ],
    };
    let line: Vec<String> =
        ["T", "1.50", "20240102", "true", "-7"].iter().map(|s| s.to_string()).collect();
    let values = CoercingLineParser.parse_values(&schema, &line).unwrap();
    let rec = Record { schema: schema.clone(), line_code: "T".to_string(), values };
    let mut w = CSVFormWriter::new("x", &schema);
    w.write_record(&rec).unwrap();
    assert_eq!(w.take_output(), b"code,amt,dt,ok,n\nT,1.50,2024-01-02,true,-7\n");
    let values = CoercingLineParser.parse_values(&schema, &vec!["T".to_string()]).unwrap();
    w.write_record(&Record { schema, line_code: "T".to_string(), values }).unwrap();
    assert_eq!(w.take_output(), b"T,,,,\n");
}

#[test]
fn multi_writer_dispatch() {
    let mut r = registry();
    let factory = MultiFileRecordWriterFactory::new("out".to_string(), CSVFileWriterFactory);
    let mut multi = MultiRecordWriter::new(factory);
    assert_eq!(multi.len(), 0);
    multi.write_record(&record(&mut r, &["SA11", "C1", "T1", "100"])).unwrap();
    multi.write_record(&record(&mut r, &["SB23", "C1", "T2"])).unwrap();
    multi.write_record(&record(&mut r, &["SA11", "C1", "T3", "250"])).unwrap();
    multi.finish().unwrap();
    assert_eq!(multi.len(), 2);
    assert_eq!(multi.schema(0).code, "SA11");
    assert_eq!(multi.schema(1).code, "SB23");
    assert_eq!(multi.writer(0).file_path(), "out/SA11.csv");
    assert_eq!(multi.writer(1).file_path(), "out/SB23.csv");
    assert_eq!(multi.find_writer("SA11"), Some(0));
    assert_eq!(multi.find_writer("SB23"), Some(1));
    assert_eq!(multi.find_writer("sa11"), None);
    assert_eq!(
        multi.writer_mut(0).take_output(),
        b"form_type,filer_committee_id_number,transaction_id,amount\nSA11,C1,T1,100\nSA11,C1,T3,250\n"
    );
    assert_eq!(
        multi.writer_mut(1).take_output(),
        b"form_type,filer_committee_id_number,transaction_id\nSB23,C1,T2\n"
    );
}

#[test]
fn multi_writer_makes_a_writer_when_asked() {
    let mut r = registry();
    let mut multi = MultiRecordWriter::new(RecordBatchWriterFactory::new(10));
    let a = record(&mut r, &["SA11", "C1", "T1", "100"]);
    let b = record(&mut r, &["SB23", "C1", "T2"]);
    assert_eq!(multi.get_writer(&a.schema).unwrap(), 0);
    assert_eq!(multi.get_writer(&b.schema).unwrap(), 1);
    assert_eq!(multi.get_writer(&a.schema).unwrap(), 0);
    assert_eq!(multi.len(), 2);
    assert_eq!(multi.writer(0).len(), 0);
}

#[test]
fn csv_processor_writes_every_record_to_its_file() {
    let mut r = registry();
    let mut fec = FecFile::from_bytes(filing());
    let mut csv = CSVProcessor::new("tests/out".to_string());
    csv.process(&mut fec, &mut r).unwrap();
    assert_eq!(csv.len(), 2);
    assert_eq!(csv.writer(0).file_path(), "tests/out/SA11.csv");
    assert_eq!(csv.writer(1).file_path(), "tests/out/SB23.csv");
    assert_eq!(
        csv.take_output(0),
        b"form_type,filer_committee_id_number,transaction_id,amount\nSA11,C1,T1,100\nSA11,C1,\"Smith, John\",250\n"
    );
    assert_eq!(
        csv.take_output(1),
        b"form_type,filer_committee_id_number,transaction_id\nSB23,C1,T2\n"
    );
    assert!(csv.take_output(0).is_empty());
    assert!(fec.next_line(&mut r).is_none());
}

#[test]
fn it_can_run_everything() {
    let mut r = registry();
    let src = b"HDR,FEC,8.3,NGP8,8\nF3XN,C00101766,Some PAC\nSC/10,C00101766,first\nSA11AI,C00101766,T1,100\nSC/10,C00101766,second\n";
    let mut fec = FecFile::from_bytes(src.to_vec());
    let mut csv = CSVProcessor::new("tests/out".to_string());
    csv.process(&mut fec, &mut r).unwrap();
    assert_eq!(csv.len(), 2);
    assert_eq!(csv.writer(0).file_path(), "tests/out/SC-10.csv");
    assert_eq!(csv.writer(1).file_path(), "tests/out/SA11AI.csv");
    assert_eq!(
        csv.take_output(0),
        b"form_type,filer_committee_id_number,loan\nSC/10,C00101766,first\nSC/10,C00101766,second\n"
    );
}

#[test]
fn processing_stops_at_the_first_error() {
    let mut r = registry();
    let mut fec =
        FecFile::from_bytes(b"HDR,FEC,8.3,NGP8,8\nF3XN,C1\nSA11,C1\nZZZ,x,y\nSB23,C1\n".to_vec());
    let mut csv = CSVProcessor::new("out".to_string());
    match csv.process(&mut fec, &mut r) {
        Err(Error::SchemaError(v, c)) => {
            assert_eq!(v, "8.3");
            assert_eq!(c, "ZZZ");
        }
        other => panic!("unexpected {:?}", other),
    }
    assert_eq!(csv.len(), 1);
    assert_eq!(csv.take_output(0), b"form_type,filer_committee_id_number,transaction_id,amount\nSA11,C1,,\n");
    assert_eq!(fec.next_line(&mut r).unwrap().unwrap()[0], "SB23");

    let mut fec = FecFile::from_bytes(b"HDR\n".to_vec());
    assert!(matches!(csv.process(&mut fec, &mut r), Err(Error::HeaderParseError(_))));
    let mut fec = FecFile::from_bytes(b"HDR,FEC,8.3,NGP8,8\n".to_vec());
    assert!(matches!(csv.process(&mut fec, &mut r), Err(Error::CoverParseError(_))));
}

#[test]
fn write_all_feeds_any_writer() {
    let mut r = registry();
    let mut fec = FecFile::from_bytes(b"HDR,FEC,8.3,NGP8,8\nF3XN,C1\nSA11,C1,T1,5\nSA11,C2,T2,6\n".to_vec());
    let schema = record(&mut r, &["SA11", "", "", ""]).schema;
    let mut writer = RecordBatchWriter::new(schema, 10);
    write_all(&mut writer, &mut fec, &mut r).unwrap();
    assert_eq!(writer.len(), 2);
}

#[test]
fn value_types_have_column_types() {
    assert_eq!(value_type_to_arrow_type(&ValueType::String), ArrowType::Utf8);
    assert_eq!(value_type_to_arrow_type(&ValueType::Integer), ArrowType::Int64);
    assert_eq!(value_type_to_arrow_type(&ValueType::Float), ArrowType::Float64);
    assert_eq!(value_type_to_arrow_type(&ValueType::Date), ArrowType::Date32);
    assert_eq!(value_type_to_arrow_type(&ValueType::Boolean), ArrowType::Boolean);
    let field = field_schema_to_arrow_field(&FieldSchema { name: "n".to_string(), typ: ValueType::Integer });
    assert_eq!(field.name, "n");
    assert_eq!(field.data_type, ArrowType::Int64);
    assert!(field.nullable);
    let schema = record_schema_to_arrow_schema(&typed_schema());
    assert_eq!(schema.fields.len(), 3);
    assert_eq!(schema.fields[0].name, "code");
    assert_eq!(schema.fields[1].data_type, ArrowType::Int64);
    assert_eq!(schema.fields[2].data_type, ArrowType::Boolean);
    assert!(schema.fields.iter().all(|f| f.nullable));
}

#[test]
fn batch_writer_gathers_rows_by_column() {
    let mut w = RecordBatchWriter::new(typed_schema(), 4);
    assert_eq!(w.len(), 0);
    w.write_record(&typed_record(1)).unwrap();
    w.write_record(&typed_record(2)).unwrap();
    assert_eq!(w.len(), 2);
    let batch = w.build_batch();
    assert_eq!(w.len(), 0);
    assert_eq!(batch.num_rows, 2);
    assert_eq!(batch.schema.fields.len(), 3);
    assert_eq!(batch.columns.len(), 3);
    assert_eq!(batch.columns[0], vec![text("T"), text("T")]);
    assert_eq!(batch.columns[1], vec![Value::Integer(Some(1)), Value::Integer(Some(2))]);
    assert_eq!(batch.columns[2], vec![Value::Boolean(None), Value::Boolean(None)]);
    w.write_record(&typed_record(3)).unwrap();
    let batch = w.build_batch();
    assert_eq!(batch.num_rows, 1);
    assert_eq!(batch.columns[1], vec![Value::Integer(Some(3))]);
    let empty = w.build_batch();
    assert_eq!(empty.num_rows, 0);
    assert_eq!(empty.columns.len(), 3);
    assert!(empty.columns.iter().all(|c| c.is_empty()));
    w.finish().unwrap();
}

#[test]
fn batch_writer_refuses_records_that_do_not_fit() {
    let mut w = RecordBatchWriter::new(typed_schema(), 4);
    let mut other = typed_record(1);
    other.schema.code = "U".to_string();
    let mut short = typed_record(1);
    short.values.pop();
    let mut long = typed_record(1);
    long.values.push(text("extra"));
    let mut wrong = typed_record(1);
    wrong.values[1] = text("1");
    for bad in [other, short, long, wrong] {
        assert!(!w.accepts(&bad));
        match w.write_record(&bad) {
            Err(Error::IoError(m)) => assert_eq!(m, "record schema does not match writer schema"),
            other => panic!("unexpected {:?}", other),
        }
    }
    assert_eq!(w.len(), 0);
    assert!(w.accepts(&typed_record(1)));
}

#[test]
fn batch_processor_hands_out_full_batches() {
    let mut r = registry();
    let src = b"HDR,FEC,8.3,NGP8,8\nF3XN,C1,n\nSA11,a,b,c\nSB23,d,e\nSA11,f,g,h\nSB23,i,j\nSB23,k,l\nSA11,m,n,o\n";
    let mut fec = FecFile::from_bytes(src.to_vec());
    let mut p = RecordBatchProcessor::new(2);
    let batch = p.next_batch(&mut fec, &mut r).unwrap().unwrap();
    assert_eq!(batch.num_rows, 2);
    assert_eq!(batch.columns.len(), 4);
    assert_eq!(batch.columns[0], vec![text("SA11"), text("SA11")]);
    assert_eq!(batch.columns[1], vec![text("a"), text("f")]);
    assert_eq!(batch.schema.fields[3].name, "amount");
    let batch = p.next_batch(&mut fec, &mut r).unwrap().unwrap();
    assert_eq!(batch.num_rows, 2);
    assert_eq!(batch.columns[1], vec![text("d"), text("i")]);
    // What is left over comes at the end, one kind of record at a time.
    let batch = p.next_batch(&mut fec, &mut r).unwrap().unwrap();
    assert_eq!(batch.num_rows, 1);
    assert_eq!(batch.columns[1], vec![text("m")]);
    let batch = p.next_batch(&mut fec, &mut r).unwrap().unwrap();
    assert_eq!(batch.num_rows, 1);
    assert_eq!(batch.columns[1], vec![text("k")]);
    assert!(p.next_batch(&mut fec, &mut r).unwrap().is_none());
    assert!(p.next_batch(&mut fec, &mut r).unwrap().is_none());
    assert!(p.get_leftover_batch().is_none());
}

#[test]
fn batch_processor_passes_on_errors() {
    let mut r = registry();
    let mut p = RecordBatchProcessor::new(2);
    let mut fec = FecFile::from_bytes(b"HDR\n".to_vec());
    assert!(matches!(p.next_batch(&mut fec, &mut r), Err(Error::HeaderParseError(_))));
    let mut fec = FecFile::from_bytes(b"HDR,FEC,8.3,NGP8,8\nF3XN,C1\nZZZ,1\n".to_vec());
    assert!(matches!(p.next_batch(&mut fec, &mut r), Err(Error::SchemaError(_, _))));
    // A line with more fields than its schema does not fit the columns.
    let mut fec = FecFile::from_bytes(b"HDR,FEC,8.3,NGP8,8\nF3XN,C1\nSB23,1,2,3,4\n".to_vec());
    assert!(matches!(p.next_batch(&mut fec, &mut r), Err(Error::IoError(_))));
}

#[test]
fn columnar_writer_hands_on_full_batches() {
    let mut w = ParquetWriter::new("out/T.parquet", &typed_schema(), 2);
    assert_eq!(w.file_path(), "out/T.parquet");
    w.write_record(&typed_record(1)).unwrap();
    assert!(w.take_batches().is_empty());
    w.write_record(&typed_record(2)).unwrap();
    w.write_record(&typed_record(3)).unwrap();
    let batches = w.take_batches();
    assert_eq!(batches.len(), 1);
    assert_eq!(batches[0].num_rows, 2);
    assert_eq!(batches[0].columns[1], vec![Value::Integer(Some(1)), Value::Integer(Some(2))]);
    assert!(w.take_batches().is_empty());
    w.finish().unwrap();
    let batches = w.take_batches();
    assert_eq!(batches.len(), 1);
    assert_eq!(batches[0].columns[1], vec![Value::Integer(Some(3))]);
}

#[test]
fn columnar_writer_is_closed_by_finish() {
    let mut w = ParquetWriter::new("x", &typed_schema(), 2);
    w.finish().unwrap();
    assert!(w.take_batches().is_empty());
    for result in [w.write_record(&typed_record(1)), w.finish()] {
        match result {
            Err(Error::IoError(m)) => assert_eq!(m, "writing to a closed writer"),
            other => panic!("unexpected {:?}", other),
        }
    }
}

#[test]
fn columnar_factory_sets_the_batch_size() {
    let mut f = ParquetWriterFactory { max_row_group_size: Some(1) };
    let mut w = f.make("p", &typed_schema()).unwrap();
    w.write_record(&typed_record(1)).unwrap();
    assert_eq!(w.take_batches().len(), 1);
    let mut f = ParquetWriterFactory::default();
    assert_eq!(f.max_row_group_size, None);
    let mut w = f.make("p", &typed_schema()).unwrap();
    w.write_record(&typed_record(1)).unwrap();
    assert!(w.take_batches().is_empty());
}

#[test]
fn parquet_processor_hands_on_batches_for_each_file() {
    let mut r = registry();
    let mut fec = FecFile::from_bytes(filing());
    let mut p = ParquetProcessor::new("out".to_string(), Some(2));
    p.process(&mut fec, &mut r).unwrap();
    assert_eq!(p.len(), 2);
    assert_eq!(p.writer(0).file_path(), "out/SA11.parquet");
    assert_eq!(p.writer(1).file_path(), "out/SB23.parquet");
    let sa = p.take_batches(0);
    assert_eq!(sa.len(), 1);
    assert_eq!(sa[0].num_rows, 2);
    assert_eq!(sa[0].columns[2], vec![text("T1"), text("Smith, John")]);
    let sb = p.take_batches(1);
    assert_eq!(sb.len(), 1);
    assert_eq!(sb[0].num_rows, 1);
    assert!(p.take_batches(1).is_empty());
}
