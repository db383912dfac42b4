use feco3::csv::Sep;
use feco3::error::HeaderParseError;
use feco3::header::{
    byte_slice_contains, byte_slice_to_string, legacy_line, next_line, parse_header,
    parse_legacy_header, parse_legacy_kv, parse_nonlegacy_header, HeaderParsing, LegacyKind,
};
use feco3::schemas::lookup::{load_mappings, SchemaRegistry};
use feco3::text::{count_byte, find_byte, split_bytes};
use feco3::Error;

fn registry() -> SchemaRegistry {
    SchemaRegistry::new(
        load_mappings(
            r#"{
                "^hdr$": {
                    "^[6-8]": ["record_type", "ef_type", "fec_version", "soft_name", "soft_ver", "report_id", "report_number", "comment"],
                    "^[3-5]": ["record_type", "ef_type", "fec_version", "soft_name", "soft_ver", "name_delim", "report_id", "report_number", "comment"],
                    "^9": ["record_type", "ef_type", "fec_version"]
                }
            }"#,
        )
        .unwrap(),
    )
}

fn decode(src: &[u8]) -> Result<(HeaderParsing, usize), HeaderParseError> {
    parse_header(&mut registry(), src)
}

fn fails(src: &[u8], message: &str, read: &[u8]) {
    match decode(src) {
        Err(e) => {
            assert_eq!(e.message, message);
            assert_eq!(e.read, read);
        }
        Ok(_) => panic!("decoded {:?}", String::from_utf8_lossy(src)),
    }
}

#[test]
fn legacy_header() {
    let src = b"/* Header\nFEC_Ver_# = 2.02\nSoft_Name = FECfile\nSoft_Ver# = 3\n/* End Header\nrest";
    let (parsing, consumed) = decode(src).unwrap();
    assert_eq!(parsing.header.fec_version, "2.02");
    assert_eq!(parsing.header.software_name, "FECfile");
    assert_eq!(parsing.header.software_version, Some("3".to_string()));
    assert_eq!(parsing.header.report_id, None);
    assert_eq!(parsing.header.report_number, None);
    assert_eq!(parsing.sep, Sep::Comma);
    assert_eq!(&src[consumed..], b"rest");
}

#[test]
fn legacy_header_with_other_keys_and_schedule_counts() {
    let src = b"/* Header\r\nFEC_Ver_# = 2.02\r\nSoft_Name = FECfile\r\nSoft_Ver# = 3\r\nDec/NoDec = DEC\r\nDate_Fmat = CCYYMMDD\r\nNameDelim = ^\r\nForm_Name = F3XA\r\nFEC_IDnum = C00101766\r\nCommittee = CONTINENTAL \xc9 FUND\r\nControl_# = K245592Q\r\nSchedule_Counts:\r\nSA11A1    = 00139\r\nSA17      = 00001\r\n/* End Header\r\nF3XA,C00101766\r\n";
    let (parsing, consumed) = decode(src).unwrap();
    assert_eq!(parsing.header.fec_version, "2.02");
    assert_eq!(parsing.header.software_name, "FECfile");
    assert_eq!(parsing.header.software_version.as_deref(), Some("3"));
    assert_eq!(&src[consumed..], b"F3XA,C00101766\r\n");
}

#[test]
fn legacy_keys_are_read_whatever_their_case() {
    let src = b"/*\nfec_ver_# = 1\nSOFT_NAME=Name With Spaces  \n  soft_VER#   =\t2.1 \n/*\n";
    let (parsing, consumed) = decode(src).unwrap();
    assert_eq!(parsing.header.fec_version, "1");
    assert_eq!(parsing.header.software_name, "Name With Spaces");
    assert_eq!(parsing.header.software_version.as_deref(), Some("2.1"));
    assert_eq!(consumed, src.len());
}

#[test]
fn legacy_key_that_comes_again_replaces_the_first() {
    let src = b"/*\nFEC_Ver_# = 1\nSoft_Name = a\nSoft_Ver# = x\nFEC_Ver_# = 2\n/*\n";
    assert_eq!(decode(src).unwrap().0.header.fec_version, "2");
}

#[test]
fn legacy_header_must_have_all_three_fields() {
    let all = b"/*\nSoft_Name = a\nSoft_Ver# = x\n/*\nrest";
    fails(all, "missing FEC_Ver_#", &all[..all.len() - 4]);
    fails(b"/*\nFEC_Ver_# = 1\nSoft_Ver# = x\n/*", "missing Soft_Name", b"/*\nFEC_Ver_# = 1\nSoft_Ver# = x\n/*");
    fails(b"/*\nFEC_Ver_# = 1\nSoft_Name = a\n/*\n", "missing Soft_Ver#", b"/*\nFEC_Ver_# = 1\nSoft_Name = a\n/*\n");
    fails(b"/*\nFEC_Ver_# =\nSoft_Name = a\nSoft_Ver# = x\n/*\n", "missing FEC_Ver_#", b"/*\nFEC_Ver_# =\nSoft_Name = a\nSoft_Ver# = x\n/*\n");
    // An empty version of the software is a version all the same.
    assert_eq!(
        decode(b"/*\nFEC_Ver_# = 1\nSoft_Name = a\nSoft_Ver# =\n/*\n").unwrap().0.header.software_version,
        Some(String::new())
    );
}

#[test]
fn legacy_header_must_be_closed() {
    let src = b"/* Header\nFEC_Ver_# = 2.02\nSoft_Name = FECfile\n";
    fails(src, "unexpected end of file", src);
    fails(b"/* Header", "unexpected end of file", b"/* Header");
}

#[test]
fn legacy_lines_must_hold_one_equals_sign() {
    fails(b"/*\nFEC_Ver_# = 1 = 2\n/*\n", "not exactly one '=' in header k=v line", b"/*\nFEC_Ver_# = 1 = 2\n");
    fails(b"/*\nno equals sign\n/*\n", "not exactly one '=' in header k=v line", b"/*\nno equals sign\n");
    fails(b"/*\n\n/*\n", "not exactly one '=' in header k=v line", b"/*\n\n");
}

#[test]
fn legacy_header_has_at_most_a_hundred_lines() {
    let mut src = b"/* Header\nFEC_Ver_# = 1\nSoft_Name = a\nSoft_Ver# = x\n".to_vec();
    for i in 0..97 {
        src.extend_from_slice(format!("key{} = {}\n", i, i).as_bytes());
    }
    let mut ok = src.clone();
    ok.extend_from_slice(b"/* End Header\n");
    assert!(decode(&ok).is_ok());
    src.extend_from_slice(b"one = more\n");
    let read = src.clone();
    src.extend_from_slice(b"/* End Header\n");
    fails(&src, "more than 100 lines in header", &read);
}

#[test]
fn legacy_value_must_be_utf8_where_it_is_read() {
    fails(b"/*\nSoft_Name = \xff\n/*\n", "invalid UTF-8 in header", b"/*\nSoft_Name = \xff\n");
    // Other keys are not read.
    let src = b"/*\nFEC_Ver_# = 1\nSoft_Name = n\xc3\xa9\nSoft_Ver# = x\nCommittee = \xff\n\xff = 1\n/*\n";
    assert_eq!(decode(src).unwrap().0.header.software_name, "né");
}

#[test]
fn legacy_lines_are_classified() {
    assert_eq!(legacy_line(b"FEC_Ver_# = 2.02"), (LegacyKind::Version, "2.02".to_string()));
    assert_eq!(legacy_line(b" soft_name=x y "), (LegacyKind::Name, "x y".to_string()));
    assert_eq!(legacy_line(b"SOFT_VER#="), (LegacyKind::SoftVersion, String::new()));
    assert_eq!(legacy_line(b"Schedule_Counts:"), (LegacyKind::Skipped, String::new()));
    assert_eq!(legacy_line(b"  schedule_counts_x = 1 = 2").0, LegacyKind::Skipped);
    assert_eq!(legacy_line(b"Form_Name = F3XA"), (LegacyKind::Other, String::new()));
    assert_eq!(legacy_line(b"Soft_Names = F3XA").0, LegacyKind::Other);
    assert_eq!(legacy_line(b"a = b = c").0, LegacyKind::Malformed);
    assert_eq!(legacy_line(b"nothing").0, LegacyKind::Malformed);
    assert_eq!(legacy_line(b"Soft_Name = \xff").0, LegacyKind::BadValue);
    assert_eq!(legacy_line(b"\xff = 1").0, LegacyKind::Other);
}

#[test]
fn legacy_lines_split_into_key_and_value() {
    let pair = |k: &str, v: &str| Ok((Some(k.to_string()), Some(v.to_string())));
    assert_eq!(parse_legacy_kv(b"FEC_Ver_#  = 2.02"), pair("FEC_Ver_#", "2.02"));
    assert_eq!(parse_legacy_kv(b"Form_Name = F3XA"), pair("Form_Name", "F3XA"));
    assert_eq!(parse_legacy_kv(b"  a b \t=\t c d  "), pair("a b", "c d"));
    assert_eq!(parse_legacy_kv(b"="), pair("", ""));
    assert_eq!(parse_legacy_kv(b"k="), pair("k", ""));
    assert_eq!(parse_legacy_kv(b"=v"), pair("", "v"));
    assert_eq!(parse_legacy_kv(b"Schedule_Counts = 3"), pair("Schedule_Counts", "3"));
    assert_eq!(parse_legacy_kv("né = 日本".as_bytes()), pair("né", "日本"));
    assert_eq!(parse_legacy_kv(b"k = \xff"), Ok((Some("k".to_string()), None)));
    assert_eq!(parse_legacy_kv(b"\xff = v"), Ok((None, Some("v".to_string()))));
    for bad in [&b"nothing"[..], b"", b"a = b = c", b"==", b"Schedule_Counts:"] {
        assert_eq!(
            parse_legacy_kv(bad),
            Err("not exactly one '=' in header k=v line".to_string())
        );
    }
}

#[test]
fn legacy_header_from_a_position() {
    let src = b"junk\nFEC_Ver_# = 1\nSoft_Name = a\nSoft_Ver# = x\n/*\nrest";
    let (parsing, consumed) = parse_legacy_header(src, 5).unwrap();
    assert_eq!(parsing.header.fec_version, "1");
    assert_eq!(&src[consumed..], b"rest");
}

#[test]
fn modern_header_with_unit_separator() {
    let src = b"HDR\x1cFEC\x1c8.3\x1cNGP8\x1c8";
    let (parsing, consumed) = decode(src).unwrap();
    assert_eq!(parsing.header.fec_version, "8.3");
    assert_eq!(parsing.header.software_name, "NGP8");
    assert_eq!(parsing.header.software_version, Some("8".to_string()));
    assert_eq!(parsing.header.report_id, None);
    assert_eq!(parsing.header.report_number, None);
    assert_eq!(parsing.sep, Sep::Ascii28);
    assert_eq!(consumed, src.len());
}

#[test]
fn modern_header_with_commas_and_all_fields() {
    let src = b"HDR,FEC,8.3,NGP8, 8 ,FEC-123,2,a comment\nF3XN,C00101766\n";
    let (parsing, consumed) = decode(src).unwrap();
    assert_eq!(parsing.header.fec_version, "8.3");
    assert_eq!(parsing.header.software_name, "NGP8");
    assert_eq!(parsing.header.software_version.as_deref(), Some("8"));
    assert_eq!(parsing.header.report_id.as_deref(), Some("FEC-123"));
    assert_eq!(parsing.header.report_number.as_deref(), Some("2"));
    assert_eq!(parsing.sep, Sep::Comma);
    assert_eq!(&src[consumed..], b"F3XN,C00101766\n");
}

#[test]
fn modern_header_with_empty_fields() {
    let (parsing, _) = decode(b"HDR,FEC,8.3,NGP8,,,\n").unwrap();
    assert_eq!(parsing.header.software_version.as_deref(), Some(""));
    assert_eq!(parsing.header.report_id.as_deref(), Some(""));
    assert_eq!(parsing.header.report_number.as_deref(), Some(""));
}

#[test]
fn modern_header_ends_at_its_line_feed() {
    let src = b"HDR,FEC,8.3,NGP8,8\r\nF3XN,C1\r\n";
    let (_, consumed) = decode(src).unwrap();
    assert_eq!(&src[consumed..], b"F3XN,C1\r\n");
}

#[test]
fn modern_header_without_the_fec_field_names_its_version_second() {
    let mut r = registry();
    match parse_nonlegacy_header(&mut r, &b"HDR,9.0,x".to_vec()) {
        Err(m) => assert_eq!(m, "missing soft_name"),
        Ok(_) => panic!("decoded"),
    }
    assert_eq!(r.cached_len(), 1);
}

#[test]
fn modern_header_errors() {
    fails(b"HDR\nrest", "less than 2 parts in header", b"HDR\n");
    fails(b"HDR,FEC\nrest", "less than 3 parts in header", b"HDR,FEC\n");
    fails(b"HDR,FEC,8.3,\xff\n", "invalid UTF-8 in header", b"HDR,FEC,8.3,\xff\n");
    fails(
        b"HDR,FEC,1.0,x\n",
        "Failed to find schema for fec version 1.0 and line code HDR",
        b"HDR,FEC,1.0,x\n",
    );
    fails(
        b"HDR,FEC,8.3,a,b,c,d,e,f\n",
        "Failed to parse record: too many values",
        b"HDR,FEC,8.3,a,b,c,d,e,f\n",
    );
    fails(b"HDR,FEC,8.3\n", "missing soft_name", b"HDR,FEC,8.3\n");
}

#[test]
fn header_of_nothing_is_an_error() {
    fails(b"", "unexpected end of file", b"");
    fails(b"\n\r\n\n", "unexpected end of file", b"\n\r\n\n");
}

#[test]
fn header_starts_at_the_first_line_that_is_not_empty() {
    let src = b"\n\r\nHDR,FEC,8.3,NGP8,8\nrest";
    let (parsing, consumed) = decode(src).unwrap();
    assert_eq!(parsing.header.software_name, "NGP8");
    assert_eq!(&src[consumed..], b"rest");
    let src = b"\n/* Header\nFEC_Ver_# = 1\nSoft_Name = a\nSoft_Ver# = x\n/* End\nrest";
    let (parsing, consumed) = decode(src).unwrap();
    assert_eq!(parsing.sep, Sep::Comma);
    assert_eq!(&src[consumed..], b"rest");
}

#[test]
fn header_errors_describe_themselves() {
    let e = decode(b"HDR\n").unwrap_err();
    assert_eq!(Error::HeaderParseError(e).message(), "HeaderParseError: less than 2 parts in header");
}

#[test]
fn lines_end_at_line_feeds() {
    let src = b"ab\r\ncd\n\nef\r";
    assert_eq!(next_line(src, 0), Some((b"ab".to_vec(), 4)));
    assert_eq!(next_line(src, 4), Some((b"cd".to_vec(), 7)));
    assert_eq!(next_line(src, 7), Some((Vec::new(), 8)));
    assert_eq!(next_line(src, 8), Some((b"ef\r".to_vec(), 11)));
    assert_eq!(next_line(src, 11), None);
    assert_eq!(next_line(src, 1), Some((b"b".to_vec(), 4)));
    assert_eq!(next_line(b"\r\n", 0), Some((Vec::new(), 2)));
    assert_eq!(next_line(b"\r\r\nx", 0), Some((b"\r".to_vec(), 3)));
}

#[test]
fn separator_is_detected_from_the_bytes() {
    assert_eq!(Sep::detect(b"HDR,FEC,8.3"), Sep::Comma);
    assert_eq!(Sep::detect(b"HDR\x1cFEC"), Sep::Ascii28);
    assert_eq!(Sep::detect(b"a,b\x1c"), Sep::Ascii28);
    assert_eq!(Sep::detect(b""), Sep::Comma);
    assert_eq!(Sep::Comma.to_byte(), b',');
    assert_eq!(Sep::Ascii28.to_byte(), 0x1c);
}

#[test]
fn bytes_are_searched_and_split() {
    assert!(byte_slice_contains(b"/* Header", b"/*"));
    assert!(byte_slice_contains(b"x /*", b"/*"));
    assert!(!byte_slice_contains(b"/ *", b"/*"));
    assert!(!byte_slice_contains(b"/", b"/*"));
    assert!(!byte_slice_contains(b"", b"/*"));
    assert!(byte_slice_contains(b"abc", b"abc"));
    assert!(byte_slice_contains(b"aab", b"ab"));
    assert_eq!(split_bytes(b"a,b,,c", b','), vec![b"a".to_vec(), b"b".to_vec(), vec![], b"c".to_vec()]);
    assert_eq!(split_bytes(b"", b','), vec![Vec::<u8>::new()]);
    assert_eq!(split_bytes(b",", b','), vec![Vec::<u8>::new(), Vec::new()]);
    assert_eq!(split_bytes(b"abc", b','), vec![b"abc".to_vec()]);
    assert_eq!(find_byte(b"a=b=c", 0, b'='), 1);
    assert_eq!(find_byte(b"a=b=c", 2, b'='), 3);
    assert_eq!(find_byte(b"a=b=c", 4, b'='), 5);
    assert_eq!(count_byte(b"a=b=c", b'='), 2);
    assert_eq!(count_byte(b"", b'='), 0);
}

#[test]
fn bytes_become_text_where_they_are_utf8() {
    assert_eq!(byte_slice_to_string(b"abc"), Some("abc".to_string()));
    assert_eq!(byte_slice_to_string("né 日本".as_bytes()), Some("né 日本".to_string()));
    assert_eq!(byte_slice_to_string(b""), Some(String::new()));
    assert_eq!(byte_slice_to_string(b"\xff"), None);
    assert_eq!(byte_slice_to_string(b"a\xc3"), None);
}

#[test]
fn headers_are_copied_and_made_empty() {
    let (parsing, _) = decode(b"HDR,FEC,8.3,NGP8,8,FEC-1,2\n").unwrap();
    let copy = parsing.clone();
    assert_eq!(copy.header.fec_version, "8.3");
    assert_eq!(copy.header.report_id.as_deref(), Some("FEC-1"));
    assert_eq!(copy.sep, parsing.sep);
    let header = copy.header.clone();
    assert_eq!(header.software_name, parsing.header.software_name);
    assert_eq!(header.report_number, parsing.header.report_number);
    let empty = feco3::Header::default();
    assert_eq!(empty.fec_version, "");
    assert_eq!(empty.software_name, "");
    assert_eq!(empty.software_version, None);
    assert_eq!(empty.report_id, None);
    let e = decode(b"HDR\n").unwrap_err();
    let c = e.clone();
    assert_eq!(c.message, e.message);
    assert_eq!(c.read, e.read);
}
