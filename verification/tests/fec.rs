use feco3::csv::{CsvReader, Sep};
use feco3::fec::DriverState;
use feco3::schemas::lookup::{load_mappings, SchemaRegistry};
use feco3::schemas::{CoercingLineParser, LineParser};
use feco3::{Error, FecFile};

fn registry() -> SchemaRegistry {
    SchemaRegistry::new(
        load_mappings(
            r#"{
                "^hdr$": {"^[6-8]": ["record_type", "ef_type", "fec_version", "soft_name", "soft_ver", "report_id", "report_number", "comment"]},
                "^f3x[ant]?$": {"^8|^2": ["form_type", "filer_committee_id_number", "committee_name"]},
                "^sa": {"^8|^2": ["form_type", "filer_committee_id_number", "transaction_id", "amount"]},
                "^sb": {"^8|^2": ["form_type", "filer_committee_id_number", "transaction_id"]}
            }"#,
        )
        .unwrap(),
    )
}

fn modern() -> Vec<u8> {
    b"HDR,FEC,8.3,NGP8,8\nF3XN,C00101766,Some PAC\nSA11AI,C00101766,T1,100\nSB23,C00101766,T2\nSA11AI,C00101766,\"Smith, John\",250\n".to_vec()
}

fn strings(fields: &[&str]) -> Vec<String> {
    fields.iter().map(|s| s.to_string()).collect()
}

#[test]
fn reader_splits_lines_into_fields() {
    let mut reader = CsvReader::new(b"a,b,c\nd\n\n\"e,f\",\"g\"\"h\"\r\nlast".to_vec(), &Sep::Comma);
    assert_eq!(reader.next_line(), Some(Ok(strings(&["a", "b", "c"]))));
    assert_eq!(reader.next_line(), Some(Ok(strings(&["d"]))));
    assert_eq!(reader.next_line(), Some(Ok(strings(&["e,f", "g\"h"]))));
    assert_eq!(reader.next_line(), Some(Ok(strings(&["last"]))));
    assert_eq!(reader.next_line(), None);
    assert_eq!(reader.next_line(), None);
}

#[test]
fn reader_splits_at_the_unit_separator() {
    let mut reader = CsvReader::new(b"a\x1cb,c\x1c\nd\x1c".to_vec(), &Sep::Ascii28);
    assert_eq!(reader.next_line(), Some(Ok(strings(&["a", "b,c", ""]))));
    assert_eq!(reader.next_line(), Some(Ok(strings(&["d", ""]))));
    assert_eq!(reader.next_line(), None);
}

#[test]
fn reader_reports_bad_lines_and_goes_on() {
    let mut reader = CsvReader::new(b"a,b\nc,\xff\nd,e\n".to_vec(), &Sep::Comma);
    assert_eq!(reader.next_line(), Some(Ok(strings(&["a", "b"]))));
    assert!(matches!(reader.next_line(), Some(Err(_))));
    assert_eq!(reader.next_line(), Some(Ok(strings(&["d", "e"]))));
    assert_eq!(reader.next_line(), None);
}

#[test]
fn reader_of_nothing_has_no_lines() {
    assert_eq!(CsvReader::new(Vec::new(), &Sep::Comma).next_line(), None);
    assert_eq!(CsvReader::new(b"\n\n".to_vec(), &Sep::Comma).next_line(), None);
}

#[test]
fn header_is_decoded_once() {
    let mut r = registry();
    let mut fec = FecFile::from_bytes(modern());
    assert_eq!(fec.state(), DriverState::Fresh);
    assert_eq!(fec.get_header(&mut r).unwrap().fec_version, "8.3");
    assert_eq!(fec.state(), DriverState::HeaderReady);
    assert_eq!(r.cached_len(), 1);
    let header = fec.get_header(&mut r).unwrap();
    assert_eq!(header.software_name, "NGP8");
    assert_eq!(header.software_version.as_deref(), Some("8"));
    assert_eq!(fec.state(), DriverState::HeaderReady);
    assert_eq!(r.cached_len(), 1);
}

#[test]
fn cover_is_decoded_once() {
    let mut r = registry();
    let mut fec = FecFile::from_bytes(modern());
    let cover = fec.get_cover(&mut r).unwrap();
    assert_eq!(cover.form_type, "F3XN");
    assert_eq!(cover.filer_committee_id, "C00101766");
    assert_eq!(fec.state(), DriverState::CoverReady);
    assert_eq!(fec.get_cover(&mut r).unwrap().form_type, "F3XN");
    assert_eq!(fec.get_header(&mut r).unwrap().fec_version, "8.3");
    assert_eq!(fec.state(), DriverState::CoverReady);
    assert_eq!(fec.next_line(&mut r).unwrap().unwrap()[0], "SA11AI");
}

#[test]
fn lines_come_in_the_order_of_the_filing() {
    let mut r = registry();
    let mut fec = FecFile::from_bytes(modern());
    assert_eq!(
        fec.next_line(&mut r).unwrap().unwrap(),
        strings(&["SA11AI", "C00101766", "T1", "100"])
    );
    assert_eq!(fec.state(), DriverState::CoverReady);
    assert_eq!(fec.next_line(&mut r).unwrap().unwrap(), strings(&["SB23", "C00101766", "T2"]));
    assert_eq!(
        fec.next_line(&mut r).unwrap().unwrap(),
        strings(&["SA11AI", "C00101766", "Smith, John", "250"])
    );
    assert!(fec.next_line(&mut r).is_none());
    assert_eq!(fec.state(), DriverState::Exhausted);
    assert!(fec.next_line(&mut r).is_none());
    assert_eq!(fec.state(), DriverState::Exhausted);
    assert_eq!(fec.get_header(&mut r).unwrap().fec_version, "8.3");
    assert_eq!(fec.get_cover(&mut r).unwrap().form_type, "F3XN");
}

#[test]
fn driving_to_exhaustion_yields_every_line_once() {
    let mut r = registry();
    let mut fec = FecFile::from_bytes(modern());
    let lines = fec.lines(&mut r).unwrap();
    assert_eq!(lines.len(), 3);
    assert_eq!(lines[0][2], "T1");
    assert_eq!(lines[1][2], "T2");
    assert_eq!(lines[2][2], "Smith, John");
    assert_eq!(fec.state(), DriverState::Exhausted);
    assert!(fec.lines(&mut r).unwrap().is_empty());
    let mut parser = CoercingLineParser;
    let codes: Vec<String> = lines
        .iter()
        .map(|l| parser.parse_line(&mut r, "8.3", l).unwrap().schema.code)
        .collect();
    assert_eq!(codes, strings(&["SA11AI", "SB23", "SA11AI"]));
}

#[test]
fn lines_after_some_were_read() {
    let mut r = registry();
    let mut fec = FecFile::from_bytes(modern());
    fec.next_line(&mut r).unwrap().unwrap();
    let rest = fec.lines(&mut r).unwrap();
    assert_eq!(rest.len(), 2);
    assert_eq!(rest[0][0], "SB23");
}

#[test]
fn legacy_filing_is_read_with_commas() {
    let mut r = registry();
    let src = b"/* Header\nFEC_Ver_# = 2.02\nSoft_Name = FECfile\nSoft_Ver# = 3\n/* End Header\nF3XA,C00101766,Fund\nSA11A1,C00101766,T1,5\n";
    let mut fec = FecFile::from_bytes(src.to_vec());
    assert_eq!(fec.get_header(&mut r).unwrap().fec_version, "2.02");
    assert_eq!(fec.get_cover(&mut r).unwrap().form_type, "F3XA");
    assert_eq!(fec.lines(&mut r).unwrap(), vec![strings(&["SA11A1", "C00101766", "T1", "5"])]);
}

#[test]
fn unit_separated_filing() {
    let mut r = registry();
    let src = b"HDR\x1cFEC\x1c8.3\x1cNGP8\x1c8\nF3XN\x1cC1\x1cA, B and C\nSB23\x1cC1\x1cT,1\n";
    let mut fec = FecFile::from_bytes(src.to_vec());
    assert_eq!(fec.get_cover(&mut r).unwrap().filer_committee_id, "C1");
    assert_eq!(fec.lines(&mut r).unwrap(), vec![strings(&["SB23", "C1", "T,1"])]);
}

#[test]
fn header_error_is_terminal() {
    let mut r = registry();
    let mut fec = FecFile::from_bytes(b"HDR\nF3XN,C1\n".to_vec());
    for _ in 0..2 {
        match fec.get_header(&mut r) {
            Err(Error::HeaderParseError(e)) => {
                assert_eq!(e.message, "less than 2 parts in header");
                assert_eq!(e.read, b"HDR\n");
            }
            other => panic!("unexpected {:?}", other.map(|_| ())),
        }
        assert_eq!(fec.state(), DriverState::Fresh);
    }
    assert!(matches!(fec.get_cover(&mut r), Err(Error::HeaderParseError(_))));
    assert!(matches!(fec.next_line(&mut r), Some(Err(Error::HeaderParseError(_)))));
    assert!(matches!(fec.lines(&mut r), Err(Error::HeaderParseError(_))));
    assert_eq!(fec.state(), DriverState::Fresh);
}

#[test]
fn filing_without_cover() {
    let mut r = registry();
    let mut fec = FecFile::from_bytes(b"HDR,FEC,8.3,NGP8,8\n".to_vec());
    match fec.get_cover(&mut r) {
        Err(Error::CoverParseError(m)) => assert_eq!(m, "no cover record"),
        other => panic!("unexpected {:?}", other.map(|_| ())),
    }
    assert_eq!(fec.state(), DriverState::Exhausted);
    assert!(matches!(fec.next_line(&mut r), Some(Err(Error::CoverParseError(_)))));
    assert_eq!(fec.get_header(&mut r).unwrap().software_name, "NGP8");
}

#[test]
fn cover_that_cannot_be_read() {
    let mut r = registry();
    let mut fec = FecFile::from_bytes(b"HDR,FEC,8.3,NGP8,8\nF3XN,\xff\nSA11,C1\n".to_vec());
    assert!(matches!(fec.get_cover(&mut r), Err(Error::CoverParseError(_))));
    assert_eq!(fec.state(), DriverState::ReaderAttached);
}

#[test]
fn cover_with_unknown_form() {
    let mut r = registry();
    let mut fec = FecFile::from_bytes(b"HDR,FEC,8.3,NGP8,8\nZZZ,x,y\n".to_vec());
    match fec.get_cover(&mut r) {
        Err(Error::SchemaError(v, c)) => {
            assert_eq!(v, "8.3");
            assert_eq!(c, "ZZZ");
        }
        other => panic!("unexpected {:?}", other.map(|_| ())),
    }
}

#[test]
fn line_that_cannot_be_read_is_a_record_error() {
    let mut r = registry();
    let mut fec =
        FecFile::from_bytes(b"HDR,FEC,8.3,NGP8,8\nF3XN,C1\nSA11,C1\nSA11,\xff\nSB23,C1\n".to_vec());
    assert!(fec.next_line(&mut r).unwrap().is_ok());
    assert!(matches!(fec.next_line(&mut r), Some(Err(Error::RecordParseError(_)))));
    assert_eq!(fec.next_line(&mut r).unwrap().unwrap()[0], "SB23");
    assert!(fec.next_line(&mut r).is_none());

    let mut fec =
        FecFile::from_bytes(b"HDR,FEC,8.3,NGP8,8\nF3XN,C1\nSA11,C1\nSA11,\xff\nSB23,C1\n".to_vec());
    assert!(matches!(fec.lines(&mut r), Err(Error::RecordParseError(_))));
    assert_eq!(fec.lines(&mut r).unwrap(), vec![strings(&["SB23", "C1"])]);
}

#[test]
fn dropping_a_filing_midway_is_harmless() {
    let mut r = registry();
    let mut fec = FecFile::from_bytes(modern());
    fec.next_line(&mut r).unwrap().unwrap();
    drop(fec);
    let fresh = FecFile::from_bytes(modern());
    drop(fresh);
}
