//! The header, the first section of a filing.
//!
//! The header names the version of the file format and the software that
//! wrote the filing. It comes in two dialects: the legacy dialect, a block
//! of `key = value` lines between two comment markers, and the modern
//! dialect, one delimited line.

use crate::csv::{detected_sep, sep_byte, Sep};
use crate::error::HeaderParseError;
use crate::record::{opt_string_view, FieldSchemaView, Record, ValueView};
use crate::schemas::lookup::{remember, CacheEntryView, Mappings, SchemaRegistry};
use crate::schemas::parse::{line_outcome, literal_outcome, LineParser, LiteralLineParser};
use crate::text::{
    bytes_of, chars_of, contains_seq, count, count_byte, eq_ignore_case, find_byte, first_index,
    occurs_at, range_eq_ignore_case, range_starts_with_ignore_case, split, split_bytes,
    starts_with_ignore_case, str_eq, trim, trimmed, views,
};
use vstd::prelude::*;
use vstd::string::StringExecFns;
use vstd::utf8::{decode_utf8, valid_utf8};

verus! {

/// The header of a filing.
#[derive(Debug)]
pub struct Header {
    /// The version of the file format.
    pub fec_version: String,
    /// The name of the software that wrote the filing.
    pub software_name: String,
    /// The version of that software. This and what follows may be missing,
    /// depending on the version of the format.
    pub software_version: Option<String>,
    pub report_id: Option<String>,
    pub report_number: Option<String>,
}

/// What a [`Header`] holds, as mathematical data.
pub struct HeaderView {
    pub fec_version: Seq<char>,
    pub software_name: Seq<char>,
    pub software_version: Option<Seq<char>>,
    pub report_id: Option<Seq<char>>,
    pub report_number: Option<Seq<char>>,
}

impl View for Header {
    type V = HeaderView;

    open spec fn view(&self) -> HeaderView {
        HeaderView {
            fec_version: self.fec_version@,
            software_name: self.software_name@,
            software_version: opt_string_view(self.software_version),
            report_id: opt_string_view(self.report_id),
            report_number: opt_string_view(self.report_number),
        }
    }
}

/// A copy of an optional string.
fn clone_opt(s: &Option<String>) -> (r: Option<String>)
    ensures
        opt_string_view(r) == opt_string_view(*s),
{
    match s {
        Some(s) => Some(s.clone()),
        None => None,
    }
}

impl Clone for Header {
    fn clone(&self) -> (r: Self)
        ensures
            r@ == self@,
    {
        Header {
            fec_version: self.fec_version.clone(),
            software_name: self.software_name.clone(),
            software_version: clone_opt(&self.software_version),
            report_id: clone_opt(&self.report_id),
            report_number: clone_opt(&self.report_number),
        }
    }
}

impl Default for Header {
    /// The header that names nothing.
    fn default() -> (r: Self)
        ensures
            r@ == (HeaderView {
                fec_version: Seq::empty(),
                software_name: Seq::empty(),
                software_version: None,
                report_id: None,
                report_number: None,
            }),
    {
        Header {
            fec_version: String::new(),
            software_name: String::new(),
            software_version: None,
            report_id: None,
            report_number: None,
        }
    }
}

/// A decoded header, and the separator of the lines that follow it.
#[derive(Debug)]
pub struct HeaderParsing {
    pub header: Header,
    pub sep: Sep,
}

impl Clone for HeaderParsing {
    fn clone(&self) -> (r: Self)
        ensures
            r.header@ == self.header@,
            r.sep == self.sep,
    {
        HeaderParsing { header: self.header.clone(), sep: self.sep }
    }
}

/// The position of the first line feed at or after `from`, or the length
/// of `src` where there is none.
pub open spec fn newline_at(src: Seq<u8>, from: int) -> int {
    from + first_index(src.skip(from), 10u8)
}

/// Where the line that starts at `from` ends: after its line feed, or at
/// the end of `src`.
pub open spec fn line_end(src: Seq<u8>, from: int) -> int {
    if newline_at(src, from) < src.len() {
        newline_at(src, from) + 1
    } else {
        src.len() as int
    }
}

/// The bytes of the line that starts at `from`: up to its line feed,
/// without a carriage return before the line feed; or up to the end of
/// `src`, where no line feed follows.
pub open spec fn line_at(src: Seq<u8>, from: int) -> Seq<u8> {
    let i = newline_at(src, from);
    let line = src.subrange(from, i);
    if i < src.len() && line.len() > 0 && line.last() == 13u8 {
        line.drop_last()
    } else {
        line
    }
}

/// The marker of a comment, which opens and closes a legacy header.
pub open spec fn comment_marker() -> Seq<u8> {
    seq![47u8, 42u8]
}

/// What a line of a legacy header is.
#[derive(Debug, Clone, Copy, PartialEq, Eq, Structural)]
pub enum LegacyKind {
    /// A count of schedules: passed over.
    Skipped,
    /// Not one key and one value: it holds no `=`, or more than one.
    Malformed,
    /// The value of a key that is read is not UTF-8.
    BadValue,
    /// The version of the file format.
    Version,
    /// The name of the software.
    Name,
    /// The version of the software.
    SoftVersion,
    /// Another key: ignored.
    Other,
}

/// The text that bytes encode, trimmed; `None` where they are not UTF-8.
pub open spec fn trimmed_text(bytes: Seq<u8>) -> Option<Seq<char>> {
    if valid_utf8(bytes) {
        Some(trimmed(decode_utf8(bytes)))
    } else {
        None
    }
}

/// The key of a line of a legacy header: the text before the first `=`,
/// or the whole line where it holds none, trimmed. `None` where that text
/// is not UTF-8.
pub open spec fn key_of(line: Seq<u8>) -> Option<Seq<char>> {
    trimmed_text(line.take(first_index(line, 61u8) as int))
}

/// The value of a line of a legacy header: the text after the first `=`,
/// trimmed. `None` where that text is not UTF-8.
pub open spec fn value_of(line: Seq<u8>) -> Option<Seq<char>> {
    trimmed_text(value_bytes(line))
}

/// The bytes after the first `=` of a line.
pub open spec fn value_bytes(line: Seq<u8>) -> Seq<u8> {
    line.skip(first_index(line, 61u8) as int + 1)
}

/// The value of a line of a legacy header: the text after the `=`, trimmed.
pub open spec fn legacy_value(line: Seq<u8>) -> Seq<char> {
    trimmed(decode_utf8(value_bytes(line)))
}

/// What a key of a legacy header names. Case does not count.
pub open spec fn key_kind(key: Seq<char>) -> LegacyKind {
    if eq_ignore_case(key, "fec_ver_#"@) {
        LegacyKind::Version
    } else if eq_ignore_case(key, "soft_name"@) {
        LegacyKind::Name
    } else if eq_ignore_case(key, "soft_ver#"@) {
        LegacyKind::SoftVersion
    } else {
        LegacyKind::Other
    }
}

/// Whether a line of a legacy header is passed over: its key begins with
/// `schedule_counts`, whatever the case.
pub open spec fn is_schedule_counts(line: Seq<u8>) -> bool {
    key_of(line) matches Some(key) && starts_with_ignore_case(key, "schedule_counts"@)
}

/// What a line of a legacy header is.
pub open spec fn legacy_kind(line: Seq<u8>) -> LegacyKind {
    if is_schedule_counts(line) {
        LegacyKind::Skipped
    } else if count(line, 61u8) != 1 {
        LegacyKind::Malformed
    } else {
        match key_of(line) {
            None => LegacyKind::Other,
            Some(key) => if key_kind(key) != LegacyKind::Other && !valid_utf8(value_bytes(line)) {
                LegacyKind::BadValue
            } else {
                key_kind(key)
            },
        }
    }
}

/// What has been read of a legacy header.
pub struct LegacyFields {
    pub version: Seq<char>,
    pub name: Seq<char>,
    pub soft_version: Option<Seq<char>>,
}

/// What has been read of a legacy header after one more line. A key that
/// comes again replaces what it set before.
pub open spec fn legacy_apply(fields: LegacyFields, line: Seq<u8>) -> LegacyFields {
    match legacy_kind(line) {
        LegacyKind::Version => LegacyFields { version: legacy_value(line), ..fields },
        LegacyKind::Name => LegacyFields { name: legacy_value(line), ..fields },
        LegacyKind::SoftVersion => LegacyFields { soft_version: Some(legacy_value(line)), ..fields },
        _ => fields,
    }
}

/// The most lines that a legacy header may have between its markers.
pub open spec fn max_legacy_lines() -> int {
    100
}

/// The source ended within the header.
pub open spec fn msg_end_of_file() -> Seq<char> {
    "unexpected end of file"@
}

/// A legacy header went on for more lines than it may have.
pub open spec fn msg_too_many_lines() -> Seq<char> {
    "more than 100 lines in header"@
}

/// A line of a legacy header is not one key and one value.
pub open spec fn msg_malformed() -> Seq<char> {
    "not exactly one '=' in header k=v line"@
}

/// A part of the header that is read is not UTF-8.
pub open spec fn msg_bad_utf8() -> Seq<char> {
    "invalid UTF-8 in header"@
}

/// A legacy header does not name the version of the format.
pub open spec fn msg_missing_version() -> Seq<char> {
    "missing FEC_Ver_#"@
}

/// A legacy header does not name the software.
pub open spec fn msg_missing_name() -> Seq<char> {
    "missing Soft_Name"@
}

/// A legacy header does not name the version of the software.
pub open spec fn msg_missing_soft_version() -> Seq<char> {
    "missing Soft_Ver#"@
}

/// A modern header has fewer than two fields.
pub open spec fn msg_two_parts() -> Seq<char> {
    "less than 2 parts in header"@
}

/// A modern header that begins with `HDR` and `FEC` has no third field.
pub open spec fn msg_three_parts() -> Seq<char> {
    "less than 3 parts in header"@
}

/// A modern header has no field for the name of the software.
pub open spec fn msg_missing_soft_name() -> Seq<char> {
    "missing soft_name"@
}

/// The lines of a legacy header from `pos` on, after `seen` lines: the
/// fields read when the closing marker is met and where the header ends,
/// or the message of the error and how far the source was read.
pub open spec fn legacy_scan(src: Seq<u8>, pos: int, seen: int, fields: LegacyFields) -> Result<
    (LegacyFields, int),
    (Seq<char>, int),
>
    decreases src.len() - pos,
{
    if pos < 0 || pos >= src.len() {
        Err((msg_end_of_file(), src.len() as int))
    } else {
        let line = line_at(src, pos);
        let next = line_end(src, pos);
        if contains_seq(line, comment_marker()) {
            Ok((fields, next))
        } else if seen >= max_legacy_lines() {
            Err((msg_too_many_lines(), next))
        } else if legacy_kind(line) == LegacyKind::Malformed {
            Err((msg_malformed(), next))
        } else if legacy_kind(line) == LegacyKind::BadValue {
            Err((msg_bad_utf8(), next))
        } else {
            legacy_scan(src, next, seen + 1, legacy_apply(fields, line))
        }
    }
}

/// A header with its separator and where it ends in the source; or the
/// message of an error and how far the source was read.
pub type HeaderOutcome = Result<(HeaderView, Sep, int), (Seq<char>, int)>;

/// What a legacy header decodes to, from the line after its opening
/// marker: the three fields, which must all be there, and the comma.
pub open spec fn legacy_outcome(src: Seq<u8>, pos: int) -> HeaderOutcome {
    let nothing = LegacyFields { version: Seq::empty(), name: Seq::empty(), soft_version: None };
    match legacy_scan(src, pos, 0, nothing) {
        Err(e) => Err(e),
        Ok((fields, end)) => if fields.version.len() == 0 {
            Err((msg_missing_version(), end))
        } else if fields.name.len() == 0 {
            Err((msg_missing_name(), end))
        } else if fields.soft_version is None {
            Err((msg_missing_soft_version(), end))
        } else {
            Ok(
                (
                    HeaderView {
                        fec_version: fields.version,
                        software_name: fields.name,
                        software_version: fields.soft_version,
                        report_id: None,
                        report_number: None,
                    },
                    Sep::Comma,
                    end,
                ),
            )
        },
    }
}

/// Whether every part is UTF-8.
pub open spec fn all_utf8(parts: Seq<Seq<u8>>) -> bool {
    forall|i: int| 0 <= i < parts.len() ==> valid_utf8(#[trigger] parts[i])
}

/// The texts of parts that are UTF-8.
pub open spec fn texts_of(parts: Seq<Seq<u8>>) -> Seq<Seq<char>> {
    parts.map_values(|p: Seq<u8>| decode_utf8(p))
}

/// The fields of a modern header line, split on the separator it announces.
pub open spec fn modern_parts(line: Seq<u8>) -> Seq<Seq<u8>> {
    split(line, sep_byte(detected_sep(line)))
}

/// The version that a modern header line names: its third field where the
/// second is `FEC`, its second otherwise. `None` where the line is not
/// UTF-8 throughout or too short.
pub open spec fn modern_version(line: Seq<u8>) -> Option<Seq<char>> {
    let texts = texts_of(modern_parts(line));
    if !all_utf8(modern_parts(line)) || texts.len() < 2 {
        None
    } else if texts[1] == "FEC"@ {
        if texts.len() < 3 {
            None
        } else {
            Some(texts[2])
        }
    } else {
        Some(texts[1])
    }
}

/// The text of a value that may be missing.
pub open spec fn opt_text(v: Option<ValueView>) -> Option<Seq<char>> {
    match v {
        Some(v) => Some(v.text()),
        None => None,
    }
}

/// What a modern header line decodes to: the fields named `soft_name`,
/// `soft_ver`, `report_id` and `report_number` of the line, read under the
/// literal policy with the schema of its first field in the version that
/// it names; or the message of the error.
pub open spec fn modern_outcome(mappings: Mappings, line: Seq<u8>) -> Result<
    (HeaderView, Sep),
    Seq<char>,
> {
    let parts = modern_parts(line);
    let texts = texts_of(parts);
    if !all_utf8(parts) {
        Err(msg_bad_utf8())
    } else if texts.len() < 2 {
        Err(msg_two_parts())
    } else if texts[1] == "FEC"@ && texts.len() < 3 {
        Err(msg_three_parts())
    } else {
        let version = modern_version(line)->0;
        match line_outcome(
            |fields: Seq<FieldSchemaView>, line: Seq<Seq<char>>| literal_outcome(fields, line),
            mappings,
            version,
            texts,
        ) {
            Err(e) => Err(e.text()),
            Ok(record) => match record.value_of("soft_name"@) {
                None => Err(msg_missing_soft_name()),
                Some(name) => Ok(
                    (
                        HeaderView {
                            fec_version: version,
                            software_name: name.text(),
                            software_version: opt_text(record.value_of("soft_ver"@)),
                            report_id: opt_text(record.value_of("report_id"@)),
                            report_number: opt_text(record.value_of("report_number"@)),
                        },
                        detected_sep(line),
                    ),
                ),
            },
        }
    }
}

/// Where the first line that is not empty starts, at or after `pos`; the
/// length of `src` where every line is empty.
pub open spec fn first_content(src: Seq<u8>, pos: int) -> int
    decreases src.len() - pos,
{
    if pos < 0 || pos >= src.len() {
        src.len() as int
    } else if line_at(src, pos).len() > 0 {
        pos
    } else {
        first_content(src, line_end(src, pos))
    }
}

/// What the header of a filing decodes to. The first line that is not
/// empty decides the dialect: with a comment marker in it, a legacy header
/// follows; without, the line is a modern header.
pub open spec fn header_outcome(mappings: Mappings, src: Seq<u8>) -> HeaderOutcome {
    let start = first_content(src, 0);
    if start >= src.len() {
        Err((msg_end_of_file(), src.len() as int))
    } else {
        let line = line_at(src, start);
        let end = line_end(src, start);
        if contains_seq(line, comment_marker()) {
            legacy_outcome(src, end)
        } else {
            match modern_outcome(mappings, line) {
                Ok((header, sep)) => Ok((header, sep, end)),
                Err(m) => Err((m, end)),
            }
        }
    }
}

/// What decoding a header returns, given what the header decodes to: the
/// header with its separator and the number of bytes that it takes; or the
/// error with its message and the bytes that were read.
pub open spec fn header_result(
    src: Seq<u8>,
    outcome: HeaderOutcome,
    r: Result<(HeaderParsing, usize), HeaderParseError>,
) -> bool {
    match outcome {
        Ok((header, sep, consumed)) => r matches Ok((parsing, n)) && parsing.header@ == header
            && parsing.sep == sep && n == consumed && consumed <= src.len(),
        Err((message, read)) => r matches Err(e) && e.message@ == message && e.read@ == src.take(
            read,
        ),
    }
}

/// The schemas remembered after decoding a modern header from its line:
/// where the line names a version, the schema of its first field is
/// looked up.
pub open spec fn modern_cached(mappings: Mappings, cached: Seq<CacheEntryView>, line: Seq<u8>) -> Seq<
    CacheEntryView,
> {
    match modern_version(line) {
        Some(version) => remember(mappings, cached, version, texts_of(modern_parts(line))[0]),
        None => cached,
    }
}

/// The schemas remembered after decoding a header: only a modern header
/// has a schema looked up.
pub open spec fn header_cached(mappings: Mappings, cached: Seq<CacheEntryView>, src: Seq<u8>) -> Seq<
    CacheEntryView,
> {
    let start = first_content(src, 0);
    let line = line_at(src, start);
    if start < src.len() && !contains_seq(line, comment_marker()) {
        modern_cached(mappings, cached, line)
    } else {
        cached
    }
}

/// What decoding a header does to the registry.
pub open spec fn header_lookup(
    before: SchemaRegistry,
    after: SchemaRegistry,
    src: Seq<u8>,
) -> bool {
    &&& after.mappings() == before.mappings()
    &&& after.cached() == header_cached(before.mappings(), before.cached(), src)
}

/// `bytelines::ByteLines::next` over the bytes of `src` from `from` on.
/// It reads up to and with the next line feed and hands out what it read
/// without the line feed and without a carriage return before it; at the
/// end of the bytes it hands out nothing. Returned with the line is the
/// number of bytes that the reader has left.
#[verifier::external_body]
fn read_line(src: &[u8], from: usize) -> (r: Option<(Vec<u8>, usize)>)
    requires
        from <= src.len(),
    ensures
        match r {
            Some((line, left)) => from < src.len() && line@ == line_at(src@, from as int) && left
                == src.len() - line_end(src@, from as int),
            None => from == src.len(),
        },
{
    let mut rest = &src[from..];
    match bytelines::ByteLines::new(&mut rest).next() {
        Some(Ok(line)) => Some((line.to_vec(), rest.len())),
        _ => None,
    }
}

/// `String::from_utf8`: the text that bytes encode, where they are UTF-8.
#[verifier::external_body]
fn text_of_bytes(bytes: &[u8]) -> (r: Option<String>)
    ensures
        match r {
            Some(s) => valid_utf8(bytes@) && s@ == decode_utf8(bytes@),
            None => !valid_utf8(bytes@),
        },
{
    String::from_utf8(bytes.to_vec()).ok()
}

/// A line that starts within the source ends after its start, and within
/// the source.
pub proof fn lemma_line_end(src: Seq<u8>, from: int)
    requires
        0 <= from < src.len(),
    ensures
        from < line_end(src, from) <= src.len(),
        from <= newline_at(src, from) <= src.len(),
{
    lemma_first_index_bound(src.skip(from), 10u8);
}

/// The first position of a byte is at most the length of the text.
pub proof fn lemma_first_index_bound(s: Seq<u8>, c: u8)
    ensures
        first_index(s, c) <= s.len(),
    decreases s.len(),
{
    if s.len() > 0 && s[0] != c {
        lemma_first_index_bound(s.drop_first(), c);
    }
}

/// The next line of `src` from `from` on, and where the line after it
/// starts; nothing at the end of `src`.
pub fn next_line(src: &[u8], from: usize) -> (r: Option<(Vec<u8>, usize)>)
    requires
        from <= src.len(),
    ensures
        match r {
            Some((line, next)) => from < src.len() && line@ == line_at(src@, from as int) && next
                == line_end(src@, from as int) && from < next <= src.len(),
            None => from == src.len(),
        },
{
    if from < src.len() {
        proof {
            lemma_line_end(src@, from as int);
        }
    }
    match read_line(src, from) {
        Some((line, left)) => Some((line, src.len() - left)),
        None => None,
    }
}

/// Whether `needle` stands anywhere in `haystack`.
pub fn byte_slice_contains(haystack: &[u8], needle: &[u8]) -> (r: bool)
    requires
        needle@.len() > 0,
    ensures
        r == contains_seq(haystack@, needle@),
{
    if needle.len() > haystack.len() {
        assert(!contains_seq(haystack@, needle@)) by {
            if contains_seq(haystack@, needle@) {
                let i = choose|i: int| occurs_at(haystack@, needle@, i);
                assert(occurs_at(haystack@, needle@, i));
            }
        }
        return false;
    }
    let last = haystack.len() - needle.len();
    let mut i: usize = 0;
    while i <= last
        invariant
            needle.len() <= haystack.len(),
            last == haystack.len() - needle.len(),
            i <= last + 1,
            forall|k: int| 0 <= k < i ==> !occurs_at(haystack@, needle@, k),
        decreases last + 1 - i,
    {
        let mut j: usize = 0;
        while j < needle.len() && haystack[i + j] == needle[j]
            invariant
                i <= last,
                last == haystack.len() - needle.len(),
                needle.len() <= haystack.len(),
                j <= needle.len(),
                forall|k: int| 0 <= k < j ==> haystack@[i + k] == needle@[k],
            decreases needle.len() - j,
        {
            j += 1;
        }
        if j == needle.len() {
            assert(haystack@.subrange(i as int, i + needle.len()) =~= needle@);
            assert(occurs_at(haystack@, needle@, i as int));
            return true;
        }
        assert(!occurs_at(haystack@, needle@, i as int)) by {
            if occurs_at(haystack@, needle@, i as int) {
                assert(haystack@.subrange(i as int, i + needle.len())[j as int] == needle@[j as int]);
            }
        }
        i += 1;
    }
    assert(!contains_seq(haystack@, needle@)) by {
        if contains_seq(haystack@, needle@) {
            let k = choose|k: int| occurs_at(haystack@, needle@, k);
            assert(occurs_at(haystack@, needle@, k));
        }
    }
    false
}

/// Whether a line holds the marker of a comment.
fn has_comment_marker(line: &Vec<u8>) -> (r: bool)
    ensures
        r == contains_seq(line@, comment_marker()),
{
    let marker: [u8; 2] = [47u8, 42u8];
    assert(marker@ =~= comment_marker());
    byte_slice_contains(line.as_slice(), marker.as_slice())
}

/// The text that bytes encode, where they are UTF-8.
pub fn byte_slice_to_string(bytes: &[u8]) -> (r: Option<String>)
    ensures
        match r {
            Some(s) => valid_utf8(bytes@) && s@ == decode_utf8(bytes@),
            None => !valid_utf8(bytes@),
        },
{
    text_of_bytes(bytes)
}

/// The text that bytes encode, trimmed, where they are UTF-8.
fn trimmed_text_of(bytes: &[u8]) -> (r: Option<String>)
    ensures
        opt_string_view(r) == trimmed_text(bytes@),
{
    match byte_slice_to_string(bytes) {
        Some(text) => Some(trim(text.as_str())),
        None => None,
    }
}

/// Split a line of a legacy header into its key and its value.
///
/// The line must hold exactly one `=`. The key is the text before it and
/// the value the text after it, each trimmed; either is `None` where its
/// bytes are not UTF-8.
pub fn parse_legacy_kv(line: &[u8]) -> (r: Result<(Option<String>, Option<String>), String>)
    ensures
        match r {
            Ok((key, value)) => {
                &&& count(line@, 61u8) == 1
                &&& opt_string_view(key) == key_of(line@)
                &&& opt_string_view(value) == value_of(line@)
            },
            Err(m) => count(line@, 61u8) != 1 && m@ == msg_malformed(),
        },
{
    if count_byte(line, 61u8) != 1 {
        return Err(String::from_str("not exactly one '=' in header k=v line"));
    }
    let eq = find_byte(line, 0, 61u8);
    assert(line@.skip(0) == line@);
    assert(eq < line.len()) by {
        if eq >= line.len() {
            lemma_count_zero(line@, 61u8);
        }
    }
    let key_bytes = bytes_of(line, 0, eq);
    assert(key_bytes@ == line@.take(eq as int));
    let rest = bytes_of(line, eq + 1, line.len());
    assert(rest@ == value_bytes(line@));
    Ok((trimmed_text_of(key_bytes.as_slice()), trimmed_text_of(rest.as_slice())))
}

/// What a line of a legacy header is, with its value where it sets one of
/// the three fields that are read.
pub fn legacy_line(line: &[u8]) -> (r: (LegacyKind, String))
    ensures
        r.0 == legacy_kind(line@),
        r.1@ == if r.0 == LegacyKind::Version || r.0 == LegacyKind::Name || r.0
            == LegacyKind::SoftVersion {
            legacy_value(line@)
        } else {
            Seq::<char>::empty()
        },
{
    let eq = find_byte(line, 0, 61u8);
    assert(line@.skip(0) == line@);
    let key_bytes = bytes_of(line, 0, eq);
    assert(key_bytes@ == line@.take(eq as int));
    match trimmed_text_of(key_bytes.as_slice()) {
        Some(key) => {
            let chars = chars_of(key.as_str());
            assert(chars@.subrange(0, chars@.len() as int) == chars@);
            if range_starts_with_ignore_case(&chars, 0, chars.len(), "schedule_counts") {
                return (LegacyKind::Skipped, String::new());
            }
        },
        None => {},
    }
    let (key, value) = match parse_legacy_kv(line) {
        Ok(pair) => pair,
        Err(_) => {
            return (LegacyKind::Malformed, String::new());
        },
    };
    let key = match key {
        Some(key) => key,
        None => {
            return (LegacyKind::Other, String::new());
        },
    };
    let chars = chars_of(key.as_str());
    let n = chars.len();
    assert(chars@.subrange(0, n as int) == chars@);
    let kind = if range_eq_ignore_case(&chars, 0, n, "fec_ver_#") {
        LegacyKind::Version
    } else if range_eq_ignore_case(&chars, 0, n, "soft_name") {
        LegacyKind::Name
    } else if range_eq_ignore_case(&chars, 0, n, "soft_ver#") {
        LegacyKind::SoftVersion
    } else {
        return (LegacyKind::Other, String::new());
    };
    match value {
        Some(value) => (kind, value),
        None => (LegacyKind::BadValue, String::new()),
    }
}

/// A text without any `c` holds it zero times.
pub proof fn lemma_count_zero(s: Seq<u8>, c: u8)
    requires
        first_index(s, c) >= s.len(),
    ensures
        count(s, c) == 0,
    decreases s.len(),
{
    if s.len() > 0 {
        lemma_no_occurrence(s, c, s.len() - 1);
        let t = s.drop_last();
        assert(first_index(t, c) >= t.len()) by {
            lemma_first_index_prefix(s, c);
        }
        lemma_count_zero(t, c);
    }
}

/// Before its first occurrence a value does not occur.
pub proof fn lemma_no_occurrence(s: Seq<u8>, c: u8, j: int)
    requires
        0 <= j < first_index(s, c),
        j < s.len(),
    ensures
        s[j] != c,
    decreases s.len(),
{
    if j > 0 {
        lemma_no_occurrence(s.drop_first(), c, j - 1);
    }
}

/// A text without any `c` stays so when its last element is dropped.
pub proof fn lemma_first_index_prefix(s: Seq<u8>, c: u8)
    requires
        s.len() > 0,
        first_index(s, c) >= s.len(),
    ensures
        first_index(s.drop_last(), c) >= s.len() - 1,
    decreases s.len(),
{
    if s.len() > 1 {
        assert(s.drop_first().drop_last() == s.drop_last().drop_first());
        lemma_first_index_prefix(s.drop_first(), c);
    }
}

/// The error for a header that could not be decoded, with the bytes of
/// the source that were read.
fn header_error(message: String, src: &[u8], read: usize) -> (e: HeaderParseError)
    requires
        read <= src.len(),
    ensures
        e.message@ == message@,
        e.read@ == src@.take(read as int),
{
    HeaderParseError { message, read: bytes_of(src, 0, read) }
}

/// Decode a legacy header from the line after its opening marker.
///
/// The lines are `key = value` pairs up to the next line that holds a
/// comment marker. Counts of schedules are passed over; any other line
/// must hold exactly one `=`. The keys `FEC_Ver_#`, `Soft_Name` and
/// `Soft_Ver#` are read, whatever their case, and all three must be there.
/// No more than a hundred lines may come before the closing marker.
pub fn parse_legacy_header(src: &[u8], start: usize) -> (r: Result<
    (HeaderParsing, usize),
    HeaderParseError,
>)
    requires
        start <= src.len(),
    ensures
        header_result(src@, legacy_outcome(src@, start as int), r),
{
    let mut fec_version = String::new();
    let mut software_name = String::new();
    let mut software_version: Option<String> = None;
    let mut num_lines: usize = 0;
    let mut pos: usize = start;
    let ghost nothing = LegacyFields {
        version: Seq::empty(),
        name: Seq::empty(),
        soft_version: None,
    };
    loop
        invariant_except_break
            legacy_scan(src@, start as int, 0, nothing) == legacy_scan(
                src@,
                pos as int,
                num_lines as int,
                LegacyFields {
                    version: fec_version@,
                    name: software_name@,
                    soft_version: opt_string_view(software_version),
                },
            ),
        invariant
            start <= pos <= src.len(),
            num_lines <= 100,
            nothing == (LegacyFields {
                version: Seq::empty(),
                name: Seq::empty(),
                soft_version: None,
            }),
        ensures
            legacy_scan(src@, start as int, 0, nothing) == Ok::<
                (LegacyFields, int),
                (Seq<char>, int),
            >(
                (
                    LegacyFields {
                        version: fec_version@,
                        name: software_name@,
                        soft_version: opt_string_view(software_version),
                    },
                    pos as int,
                ),
            ),
        decreases src.len() - pos,
    {
        let (line, next) = match next_line(src, pos) {
            Some(found) => found,
            None => {
                return Err(header_error(String::from_str("unexpected end of file"), src, pos));
            },
        };
        pos = next;
        if has_comment_marker(&line) {
            break;
        }
        if num_lines >= 100 {
            return Err(header_error(String::from_str("more than 100 lines in header"), src, pos));
        }
        num_lines += 1;
        let (kind, value) = legacy_line(line.as_slice());
        match kind {
            LegacyKind::Malformed => {
                return Err(
                    header_error(
                        String::from_str("not exactly one '=' in header k=v line"),
                        src,
                        pos,
                    ),
                );
            },
            LegacyKind::BadValue => {
                return Err(header_error(String::from_str("invalid UTF-8 in header"), src, pos));
            },
            LegacyKind::Version => {
                fec_version = value;
            },
            LegacyKind::Name => {
                software_name = value;
            },
            LegacyKind::SoftVersion => {
                software_version = Some(value);
            },
            _ => {},
        }
    }
    // Make sure that all the required fields were found.
    if fec_version.as_str().unicode_len() == 0 {
        return Err(header_error(String::from_str("missing FEC_Ver_#"), src, pos));
    }
    if software_name.as_str().unicode_len() == 0 {
        return Err(header_error(String::from_str("missing Soft_Name"), src, pos));
    }
    if software_version.is_none() {
        return Err(header_error(String::from_str("missing Soft_Ver#"), src, pos));
    }
    let header = Header {
        fec_version,
        software_name,
        software_version,
        report_id: None,
        report_number: None,
    };
    Ok((HeaderParsing { header, sep: Sep::Comma }, pos))
}

/// The text of a field of a record, where the record has the field.
fn field_text(record: &Record, name: &str) -> (r: Option<String>)
    ensures
        opt_string_view(r) == opt_text(record@.value_of(name@)),
{
    match record.get_value(name) {
        Some(v) => Some(v.to_text()),
        None => None,
    }
}

/// Decode a modern header from its line.
///
/// The line is split on the separator that it announces. Its fields are
/// read under the literal policy, with the schema of its first field in
/// the version that the line names; the header is made of the fields
/// named `soft_name`, `soft_ver`, `report_id` and `report_number`, of
/// which only the first must be there.
pub fn parse_nonlegacy_header(registry: &mut SchemaRegistry, line: &Vec<u8>) -> (r: Result<
    HeaderParsing,
    String,
>)
    ensures
        match modern_outcome(old(registry).mappings(), line@) {
            Ok((header, sep)) => r matches Ok(parsing) && parsing.header@ == header && parsing.sep
                == sep,
            Err(message) => r matches Err(m) && m@ == message,
        },
        final(registry).mappings() == old(registry).mappings(),
        final(registry).cached() == modern_cached(
            old(registry).mappings(),
            old(registry).cached(),
            line@,
        ),
{
    let sep = Sep::detect(line.as_slice());
    let raw_parts = split_bytes(line.as_slice(), sep.to_byte());
    let ghost parts = modern_parts(line@);
    assert(parts == raw_parts@.map_values(|p: Vec<u8>| p@));
    let mut texts: Vec<String> = Vec::new();
    let mut i: usize = 0;
    while i < raw_parts.len()
        invariant
            i <= raw_parts.len(),
            parts == raw_parts@.map_values(|p: Vec<u8>| p@),
            parts == modern_parts(line@),
            *registry == *old(registry),
            texts.len() == i,
            forall|k: int| 0 <= k < i ==> valid_utf8(#[trigger] parts[k]),
            forall|k: int| 0 <= k < i ==> (#[trigger] texts@[k])@ == decode_utf8(parts[k]),
        decreases raw_parts.len() - i,
    {
        assert(parts[i as int] == raw_parts@[i as int]@);
        match byte_slice_to_string(raw_parts[i].as_slice()) {
            Some(text) => {
                texts.push(text);
            },
            None => {
                return Err(String::from_str("invalid UTF-8 in header"));
            },
        }
        i += 1;
    }
    assert(views(texts@) =~= texts_of(parts));
    if texts.len() < 2 {
        return Err(String::from_str("less than 2 parts in header"));
    }
    let version = if str_eq(texts[1].as_str(), "FEC") {
        if texts.len() < 3 {
            return Err(String::from_str("less than 3 parts in header"));
        }
        texts[2].clone()
    } else {
        texts[1].clone()
    };
    assert(modern_version(line@) == Some(version@));
    let mut parser = LiteralLineParser;
    let record = match parser.parse_line(registry, version.as_str(), &texts) {
        Ok(record) => record,
        Err(e) => {
            return Err(e.message());
        },
    };
    let software_name = match field_text(&record, "soft_name") {
        Some(name) => name,
        None => {
            return Err(String::from_str("missing soft_name"));
        },
    };
    let header = Header {
        fec_version: version,
        software_name,
        software_version: field_text(&record, "soft_ver"),
        report_id: field_text(&record, "report_id"),
        report_number: field_text(&record, "report_number"),
    };
    Ok(HeaderParsing { header, sep })
}

/// Decode the header at the start of a filing.
///
/// Returns the header, the separator of the lines after it, and the number
/// of bytes that the header takes: the rest of the filing starts there. An
/// error tells what was wrong and holds the bytes read up to it.
pub fn parse_header(registry: &mut SchemaRegistry, src: &[u8]) -> (r: Result<
    (HeaderParsing, usize),
    HeaderParseError,
>)
    ensures
        header_result(src@, header_outcome(old(registry).mappings(), src@), r),
        header_lookup(*old(registry), *final(registry), src@),
{
    let mut pos: usize = 0;
    let mut first: Vec<u8> = Vec::new();
    let mut start: usize = 0;
    loop
        invariant_except_break
            first_content(src@, 0) == first_content(src@, pos as int),
        invariant
            pos <= src.len(),
            *registry == *old(registry),
        ensures
            start < pos <= src.len(),
            start == first_content(src@, 0),
            first@ == line_at(src@, start as int),
            pos == line_end(src@, start as int),
            *registry == *old(registry),
        decreases src.len() - pos,
    {
        match next_line(src, pos) {
            None => {
                return Err(header_error(String::from_str("unexpected end of file"), src, pos));
            },
            Some((line, next)) => {
                if line.len() > 0 {
                    first = line;
                    start = pos;
                    pos = next;
                    break;
                }
                pos = next;
            },
        }
    }
    if has_comment_marker(&first) {
        parse_legacy_header(src, pos)
    } else {
        match parse_nonlegacy_header(registry, &first) {
            Ok(parsing) => Ok((parsing, pos)),
            Err(message) => Err(header_error(message, src, pos)),
        }
    }
}

/// The first line that is not empty starts within the source.
pub proof fn lemma_first_content(src: Seq<u8>, pos: int)
    requires
        0 <= pos <= src.len(),
    ensures
        pos <= first_content(src, pos) <= src.len(),
    decreases src.len() - pos,
{
    if pos < src.len() && line_at(src, pos).len() == 0 {
        lemma_line_end(src, pos);
        lemma_first_content(src, line_end(src, pos));
    }
}

/// A legacy header ends within the source.
pub proof fn lemma_legacy_scan_bounds(src: Seq<u8>, pos: int, seen: int, fields: LegacyFields)
    requires
        0 <= pos <= src.len(),
    ensures
        legacy_scan(src, pos, seen, fields) matches Ok((f, end)) ==> pos <= end <= src.len(),
    decreases src.len() - pos,
{
    if pos < src.len() {
        lemma_line_end(src, pos);
        let line = line_at(src, pos);
        let next = line_end(src, pos);
        if !contains_seq(line, comment_marker()) && seen < max_legacy_lines() && legacy_kind(line)
            != LegacyKind::Malformed && legacy_kind(line) != LegacyKind::BadValue {
            lemma_legacy_scan_bounds(src, next, seen + 1, legacy_apply(fields, line));
        }
    }
}

} // verus!
