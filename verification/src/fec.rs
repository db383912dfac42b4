//! The driver of one filing: header first, then the cover line, then the
//! lines, each decoded when it is first asked for and remembered.

use crate::cover::{cover_outcome, parse_cover_line, Cover, CoverView};
use crate::csv::{csv_lines, sep_byte, CsvReader, RawLine, Sep};
use crate::error::{Error, ErrorView};
use crate::header::{
    comment_marker, first_content, header_cached, header_outcome, lemma_first_content,
    lemma_legacy_scan_bounds, lemma_line_end, line_at, line_end, parse_header, Header, HeaderView,
    LegacyFields,
};
use crate::schemas::lookup::{CacheEntryView, Mappings, SchemaRegistry};
use crate::schemas::parse::line_cached;
use crate::text::{bytes_of, contains_seq, views};
use vstd::prelude::*;
use vstd::string::StringExecFns;

verus! {

/// How far a filing has been driven. A filing only ever moves forward.
#[derive(Debug, Clone, Copy, PartialEq, Eq, Structural)]
pub enum DriverState {
    /// Nothing has been decoded.
    Fresh,
    /// The header is decoded; the lines are not yet being read.
    HeaderReady,
    /// The reader of the lines has taken over what follows the header.
    ReaderAttached,
    /// The cover line is decoded.
    CoverReady,
    /// The reader has reported the end of the filing.
    Exhausted,
}

/// A decoded header, the separator that it announced and the number of
/// bytes that it takes.
pub struct HeaderInfo {
    pub header: HeaderView,
    pub sep: Sep,
    pub len: int,
}

/// What a [`FecFile`] holds, as mathematical data.
pub struct FecFileView {
    /// The bytes of the whole filing.
    pub source: Seq<u8>,
    /// Whether the driver still holds the bytes: it does until the reader
    /// of the lines takes them over, and never again.
    pub holds_source: bool,
    /// The header, its separator and the number of bytes that it takes,
    /// once decoded.
    pub header: Option<HeaderInfo>,
    /// The lines that have yet to be read, once the reader is attached.
    pub pending: Option<Seq<RawLine>>,
    /// The cover, once decoded.
    pub cover: Option<CoverView>,
    /// Whether the reader has reported the end of the filing.
    pub done: bool,
}

/// A filing after an operation, the schemas that the registry remembers
/// after it, and what the operation returned.
pub struct Step<T> {
    pub file: FecFileView,
    pub cached: Seq<CacheEntryView>,
    pub result: T,
}

/// The message of the error for a filing that ends after its header.
pub open spec fn msg_no_cover() -> Seq<char> {
    "no cover record"@
}

/// The position of the first line that could not be read, or the number of
/// lines where all could.
pub open spec fn first_error(lines: Seq<RawLine>) -> int
    decreases lines.len(),
{
    if lines.len() == 0 || lines[0] is Err {
        0
    } else {
        1 + first_error(lines.drop_first())
    }
}

/// The fields of lines that could be read.
pub open spec fn fields_of(lines: Seq<RawLine>) -> Seq<Seq<Seq<char>>> {
    lines.map_values(|l: RawLine| l->Ok_0)
}

impl FecFileView {
    /// How far the filing has been driven.
    pub open spec fn state(self) -> DriverState {
        if self.done {
            DriverState::Exhausted
        } else if self.cover is Some {
            DriverState::CoverReady
        } else if self.pending is Some {
            DriverState::ReaderAttached
        } else if self.header is Some {
            DriverState::HeaderReady
        } else {
            DriverState::Fresh
        }
    }

    /// The parts of the filing fit together: lines are only read after
    /// the header, the cover is the first of them, and at the end of the
    /// filing no line is pending.
    pub open spec fn wf(self) -> bool {
        &&& self.pending is Some ==> self.header is Some
        &&& self.pending is Some <==> !self.holds_source
        &&& self.cover is Some ==> self.pending is Some
        &&& self.done ==> self.pending == Some(Seq::<RawLine>::empty())
        &&& self.header is Some ==> 0 <= self.header->0.len <= self.source.len()
    }

    /// The filing with its header decoded: a header that was decoded
    /// before stays; otherwise the header is decoded from the start of
    /// the source.
    pub open spec fn with_header(self, mappings: Mappings, cached: Seq<CacheEntryView>) -> Step<
        Result<(), ErrorView>,
    > {
        if self.header is Some {
            Step { file: self, cached, result: Ok(()) }
        } else {
            match header_outcome(mappings, self.source) {
                Ok((header, sep, n)) => Step {
                    file: FecFileView { header: Some(HeaderInfo { header, sep, len: n }), ..self },
                    cached: header_cached(mappings, cached, self.source),
                    result: Ok(()),
                },
                Err((message, read)) => Step {
                    file: self,
                    cached: header_cached(mappings, cached, self.source),
                    result: Err(
                        ErrorView::HeaderParseError { message, read: self.source.take(read) },
                    ),
                },
            }
        }
    }

    /// The filing with the reader of its lines attached: the reader takes
    /// over exactly the bytes that follow the header, with the separator
    /// that the header announced. The driver gives the bytes up, once.
    pub open spec fn with_reader(self, mappings: Mappings, cached: Seq<CacheEntryView>) -> Step<
        Result<(), ErrorView>,
    > {
        if self.pending is Some {
            Step { file: self, cached, result: Ok(()) }
        } else {
            let s = self.with_header(mappings, cached);
            match s.result {
                Err(e) => s,
                Ok(_) => Step {
                    file: FecFileView {
                        pending: Some(
                            csv_lines(
                                self.source.skip(s.file.header->0.len),
                                sep_byte(s.file.header->0.sep),
                            ),
                        ),
                        holds_source: false,
                        ..s.file
                    },
                    cached: s.cached,
                    result: Ok(()),
                },
            }
        }
    }

    /// The filing with its cover decoded: a cover that was decoded before
    /// stays; otherwise the first line after the header is read and
    /// decoded as the cover. The line is used up whether or not it
    /// decodes.
    pub open spec fn with_cover(self, mappings: Mappings, cached: Seq<CacheEntryView>) -> Step<
        Result<(), ErrorView>,
    > {
        if self.cover is Some {
            Step { file: self, cached, result: Ok(()) }
        } else {
            let s = self.with_reader(mappings, cached);
            match s.result {
                Err(e) => s,
                Ok(_) => {
                    let lines = s.file.pending->0;
                    let version = s.file.header->0.header.fec_version;
                    let rest = FecFileView { pending: Some(lines.drop_first()), ..s.file };
                    if lines.len() == 0 {
                        Step {
                            file: FecFileView { done: true, ..s.file },
                            cached: s.cached,
                            result: Err(ErrorView::CoverParseError(msg_no_cover())),
                        }
                    } else {
                        match lines[0] {
                            Err(message) => Step {
                                file: rest,
                                cached: s.cached,
                                result: Err(ErrorView::CoverParseError(message)),
                            },
                            Ok(line) => match cover_outcome(mappings, version, line) {
                                Ok(cover) => Step {
                                    file: FecFileView { cover: Some(cover), ..rest },
                                    cached: line_cached(mappings, s.cached, version, line),
                                    result: Ok(()),
                                },
                                Err(e) => Step {
                                    file: rest,
                                    cached: line_cached(mappings, s.cached, version, line),
                                    result: Err(e),
                                },
                            },
                        }
                    }
                },
            }
        }
    }

    /// The filing after its next line was asked for: the cover is decoded
    /// first; then the first pending line leaves the reader, as its fields
    /// or as the error of reading it; at the end of the filing there is
    /// nothing.
    pub open spec fn next(self, mappings: Mappings, cached: Seq<CacheEntryView>) -> Step<
        Option<Result<Seq<Seq<char>>, ErrorView>>,
    > {
        let s = self.with_cover(mappings, cached);
        match s.result {
            Err(e) => Step { file: s.file, cached: s.cached, result: Some(Err(e)) },
            Ok(_) => {
                let lines = s.file.pending->0;
                if lines.len() == 0 {
                    Step {
                        file: FecFileView { done: true, ..s.file },
                        cached: s.cached,
                        result: None,
                    }
                } else {
                    Step {
                        file: FecFileView { pending: Some(lines.drop_first()), ..s.file },
                        cached: s.cached,
                        result: Some(
                            match lines[0] {
                                Ok(line) => Ok(line),
                                Err(message) => Err(ErrorView::RecordParseError(message)),
                            },
                        ),
                    }
                }
            },
        }
    }

    /// The filing after all its lines were asked for: the cover is decoded
    /// first; then every pending line leaves the reader, in order, up to
    /// and with the first that could not be read, whose error is returned.
    pub open spec fn drained(self, mappings: Mappings, cached: Seq<CacheEntryView>) -> Step<
        Result<Seq<Seq<Seq<char>>>, ErrorView>,
    > {
        let s = self.with_cover(mappings, cached);
        match s.result {
            Err(e) => Step { file: s.file, cached: s.cached, result: Err(e) },
            Ok(_) => {
                let lines = s.file.pending->0;
                let k = first_error(lines);
                if k >= lines.len() {
                    Step {
                        file: FecFileView {
                            pending: Some(Seq::<RawLine>::empty()),
                            done: true,
                            ..s.file
                        },
                        cached: s.cached,
                        result: Ok(fields_of(lines)),
                    }
                } else {
                    Step {
                        file: FecFileView { pending: Some(lines.skip(k + 1)), ..s.file },
                        cached: s.cached,
                        result: Err(ErrorView::RecordParseError(lines[k]->Err_0)),
                    }
                }
            },
        }
    }
}

/// A filing, the core data structure of this crate.
///
/// A filing is made from its bytes. Its parts are decoded when they are
/// first asked for: the header, then the cover, then one line after the
/// other. What was decoded is remembered.
pub struct FecFile {
    /// The bytes of the filing, until the reader of the lines takes over.
    reader: Option<Vec<u8>>,
    source: Ghost<Seq<u8>>,
    header: Option<Header>,
    sep: Option<Sep>,
    header_len: usize,
    cover: Option<Cover>,
    /// After the header is decoded, the reader of the rest of the filing.
    csv_reader: Option<CsvReader>,
    done: bool,
}

impl View for FecFile {
    type V = FecFileView;

    closed spec fn view(&self) -> FecFileView {
        FecFileView {
            source: self.source@,
            holds_source: self.reader is Some,
            header: match (self.header, self.sep) {
                (Some(h), Some(s)) => Some(
                    HeaderInfo { header: h@, sep: s, len: self.header_len as int },
                ),
                _ => None,
            },
            pending: match self.csv_reader {
                Some(r) => Some(r.pending()),
                None => None,
            },
            cover: match self.cover {
                Some(c) => Some(c@),
                None => None,
            },
            done: self.done,
        }
    }
}

/// The view of a result without a value.
pub open spec fn unit_result(r: Result<(), Error>) -> Result<(), ErrorView> {
    match r {
        Ok(_) => Ok(()),
        Err(e) => Err(e@),
    }
}

/// The view of what asking for the next line returns.
pub open spec fn next_result(r: Option<Result<Vec<String>, Error>>) -> Option<
    Result<Seq<Seq<char>>, ErrorView>,
> {
    match r {
        None => None,
        Some(Ok(line)) => Some(Ok(views(line@))),
        Some(Err(e)) => Some(Err(e@)),
    }
}

/// The view of what asking for all lines returns.
pub open spec fn lines_result(r: Result<Vec<Vec<String>>, Error>) -> Result<
    Seq<Seq<Seq<char>>>,
    ErrorView,
> {
    match r {
        Ok(lines) => Ok(lines@.map_values(|l: Vec<String>| views(l@))),
        Err(e) => Err(e@),
    }
}

impl FecFile {
    /// The fields of the filing fit together.
    pub closed spec fn wf(&self) -> bool {
        &&& self.csv_reader is None ==> (self.reader matches Some(bytes) && bytes@
            == self.source@)
        &&& self.csv_reader is Some ==> self.reader is None
        &&& self.csv_reader is Some ==> self.header is Some
        &&& self.header is Some <==> self.sep is Some
        &&& self.header is Some ==> self.header_len <= self.source@.len()
        &&& self.cover is Some ==> self.csv_reader is Some
        &&& self.done ==> (self.csv_reader matches Some(r) && r.pending().len() == 0)
    }

    /// A filing from its bytes. Nothing is decoded yet.
    pub fn from_bytes(bytes: Vec<u8>) -> (fec: FecFile)
        ensures
            fec.wf(),
            fec@ == (FecFileView {
                source: bytes@,
                holds_source: true,
                header: None,
                pending: None,
                cover: None,
                done: false,
            }),
    {
        FecFile {
            source: Ghost(bytes@),
            reader: Some(bytes),
            header: None,
            sep: None,
            header_len: 0,
            cover: None,
            csv_reader: None,
            done: false,
        }
    }

    /// A filing that is well formed has a view that is.
    pub proof fn lemma_view_wf(&self)
        requires
            self.wf(),
        ensures
            self@.wf(),
    {
        if self.done {
            assert(self@.pending->0 =~= Seq::<RawLine>::empty());
        }
    }

    /// The header of the filing. It is decoded at the first call and
    /// remembered from then on.
    pub fn get_header(&mut self, registry: &mut SchemaRegistry) -> (r: Result<&Header, Error>)
        requires
            old(self).wf(),
        ensures
            final(self).wf(),
            final(self)@ == old(self)@.with_header(
                old(registry).mappings(),
                old(registry).cached(),
            ).file,
            final(registry).mappings() == old(registry).mappings(),
            final(registry).cached() == old(self)@.with_header(
                old(registry).mappings(),
                old(registry).cached(),
            ).cached,
            match r {
                Ok(header) => final(self)@.header matches Some(info) && header@ == info.header
                    && old(self)@.with_header(
                    old(registry).mappings(),
                    old(registry).cached(),
                ).result is Ok,
                Err(e) => old(self)@.with_header(
                    old(registry).mappings(),
                    old(registry).cached(),
                ).result == Err::<(), ErrorView>(e@),
            },
    {
        self.parse_header(registry)?;
        match &self.header {
            Some(header) => Ok(header),
            None => Err(Error::IoError(String::from_str("header should be set"))),
        }
    }

    /// The cover of the filing. It is decoded at the first call, after the
    /// header, and remembered from then on.
    pub fn get_cover(&mut self, registry: &mut SchemaRegistry) -> (r: Result<&Cover, Error>)
        requires
            old(self).wf(),
        ensures
            final(self).wf(),
            final(self)@ == old(self)@.with_cover(
                old(registry).mappings(),
                old(registry).cached(),
            ).file,
            final(registry).mappings() == old(registry).mappings(),
            final(registry).cached() == old(self)@.with_cover(
                old(registry).mappings(),
                old(registry).cached(),
            ).cached,
            match r {
                Ok(cover) => final(self)@.cover == Some(cover@) && old(self)@.with_cover(
                    old(registry).mappings(),
                    old(registry).cached(),
                ).result is Ok,
                Err(e) => old(self)@.with_cover(
                    old(registry).mappings(),
                    old(registry).cached(),
                ).result == Err::<(), ErrorView>(e@),
            },
    {
        self.parse_cover(registry)?;
        match &self.cover {
            Some(cover) => Ok(cover),
            None => Err(Error::IoError(String::from_str("cover should be set"))),
        }
    }

    /// How far the filing has been driven.
    pub fn state(&self) -> (s: DriverState)
        requires
            self.wf(),
        ensures
            s == self@.state(),
    {
        if self.done {
            DriverState::Exhausted
        } else if self.cover.is_some() {
            DriverState::CoverReady
        } else if self.csv_reader.is_some() {
            DriverState::ReaderAttached
        } else if self.header.is_some() {
            DriverState::HeaderReady
        } else {
            DriverState::Fresh
        }
    }

    /// The next line of the filing after the cover, as its raw fields.
    ///
    /// The header and the cover are decoded first, if they were not yet.
    /// Returns `None` at the end of the filing.
    pub fn next_line(&mut self, registry: &mut SchemaRegistry) -> (r: Option<
        Result<Vec<String>, Error>,
    >)
        requires
            old(self).wf(),
        ensures
            final(self).wf(),
            final(self)@ == old(self)@.next(old(registry).mappings(), old(registry).cached()).file,
            final(registry).mappings() == old(registry).mappings(),
            final(registry).cached() == old(self)@.next(
                old(registry).mappings(),
                old(registry).cached(),
            ).cached,
            next_result(r) == old(self)@.next(
                old(registry).mappings(),
                old(registry).cached(),
            ).result,
    {
        match self.parse_cover(registry) {
            Err(e) => {
                return Some(Err(e));
            },
            Ok(_) => (),
        }
        match &mut self.csv_reader {
            Some(p) => match p.next_line() {
                None => {
                    self.done = true;
                    None
                },
                Some(Ok(line)) => Some(Ok(line)),
                Some(Err(e)) => Some(Err(Error::RecordParseError(e))),
            },
            None => None,
        }
    }

    /// All the lines of the filing after the cover that have not been read
    /// yet, in the order of the filing. Reading stops at the first line
    /// that cannot be read, with its error.
    pub fn lines(&mut self, registry: &mut SchemaRegistry) -> (r: Result<Vec<Vec<String>>, Error>)
        requires
            old(self).wf(),
        ensures
            final(self).wf(),
            final(self)@ == old(self)@.drained(
                old(registry).mappings(),
                old(registry).cached(),
            ).file,
            final(registry).mappings() == old(registry).mappings(),
            final(registry).cached() == old(self)@.drained(
                old(registry).mappings(),
                old(registry).cached(),
            ).cached,
            lines_result(r) == old(self)@.drained(
                old(registry).mappings(),
                old(registry).cached(),
            ).result,
    {
        self.parse_cover(registry)?;
        let ghost s = old(self)@.with_cover(old(registry).mappings(), old(registry).cached());
        let ghost pending = s.file.pending->0;
        let mut lines: Vec<Vec<String>> = Vec::new();
        assert(pending.skip(0) =~= pending);
        loop
            invariant_except_break
                self@ == (FecFileView { pending: Some(pending.skip(lines.len() as int)), ..s.file }),
            invariant
                self.wf(),
                self.cover is Some,
                s == old(self)@.with_cover(old(registry).mappings(), old(registry).cached()),
                s.result is Ok,
                s.file.pending == Some(pending),
                s.file.cover is Some,
                lines.len() <= pending.len(),
                forall|k: int| 0 <= k < lines.len() ==> (#[trigger] pending[k]) is Ok,
                forall|k: int|
                    0 <= k < lines.len() ==> views((#[trigger] lines@[k])@) == pending[k]->Ok_0,
                registry.mappings() == old(registry).mappings(),
                registry.cached() == s.cached,
            ensures
                lines.len() == pending.len(),
                self@ == (FecFileView {
                    pending: Some(Seq::<RawLine>::empty()),
                    done: true,
                    ..s.file
                }),
            decreases pending.len() - lines.len(),
        {
            let ghost i = lines.len() as int;
            let ghost left = pending.skip(i);
            match self.next_line(registry) {
                None => {
                    assert(left =~= Seq::<RawLine>::empty());
                    break;
                },
                Some(Ok(line)) => {
                    assert(left[0] == pending[i]);
                    assert(left.drop_first() == pending.skip(i + 1));
                    lines.push(line);
                },
                Some(Err(e)) => {
                    proof {
                        assert(left[0] == pending[i]);
                        assert(left.drop_first() == pending.skip(i + 1));
                        lemma_first_error(pending, i);
                    }
                    return Err(e);
                },
            }
        }
        proof {
            lemma_first_error(pending, lines.len() as int);
            assert(lines@.map_values(|l: Vec<String>| views(l@)) =~= fields_of(pending));
        }
        Ok(lines)
    }

    /// Decode the header, unless it is decoded already.
    fn parse_header(&mut self, registry: &mut SchemaRegistry) -> (r: Result<(), Error>)
        requires
            old(self).wf(),
        ensures
            final(self).wf(),
            final(self)@ == old(self)@.with_header(
                old(registry).mappings(),
                old(registry).cached(),
            ).file,
            final(registry).mappings() == old(registry).mappings(),
            final(registry).cached() == old(self)@.with_header(
                old(registry).mappings(),
                old(registry).cached(),
            ).cached,
            unit_result(r) == old(self)@.with_header(
                old(registry).mappings(),
                old(registry).cached(),
            ).result,
            r is Ok ==> final(self).header is Some,
            final(self).csv_reader == old(self).csv_reader,
            final(self).reader == old(self).reader,
    {
        if self.header.is_some() {
            return Ok(());
        }
        let parsed = match &self.reader {
            Some(bytes) => parse_header(registry, bytes.as_slice()),
            None => {
                return Err(Error::IoError(String::from_str("no reader")));
            },
        };
        match parsed {
            Ok((parsing, n)) => {
                self.header = Some(parsing.header);
                self.sep = Some(parsing.sep);
                self.header_len = n;
                Ok(())
            },
            Err(e) => Err(Error::HeaderParseError(e)),
        }
    }

    /// Decode the cover, unless it is decoded already.
    fn parse_cover(&mut self, registry: &mut SchemaRegistry) -> (r: Result<(), Error>)
        requires
            old(self).wf(),
        ensures
            final(self).wf(),
            final(self)@ == old(self)@.with_cover(
                old(registry).mappings(),
                old(registry).cached(),
            ).file,
            final(registry).mappings() == old(registry).mappings(),
            final(registry).cached() == old(self)@.with_cover(
                old(registry).mappings(),
                old(registry).cached(),
            ).cached,
            unit_result(r) == old(self)@.with_cover(
                old(registry).mappings(),
                old(registry).cached(),
            ).result,
            r is Ok ==> final(self).cover is Some,
    {
        if self.cover.is_some() {
            return Ok(());
        }
        self.make_csv_parser(registry)?;
        let fec_version = match &self.header {
            Some(header) => header.fec_version.clone(),
            None => {
                return Err(Error::IoError(String::from_str("no header")));
            },
        };
        let next = match &mut self.csv_reader {
            Some(p) => p.next_line(),
            None => {
                return Err(Error::IoError(String::from_str("no row parser")));
            },
        };
        let line = match next {
            None => {
                self.done = true;
                return Err(Error::CoverParseError(String::from_str("no cover record")));
            },
            Some(Ok(record)) => record,
            Some(Err(e)) => {
                return Err(Error::CoverParseError(e));
            },
        };
        let cover = parse_cover_line(registry, fec_version.as_str(), &line)?;
        self.cover = Some(cover);
        Ok(())
    }

    /// Attach the reader of the lines, unless it is attached already: the
    /// header is decoded, and the reader takes over the bytes after it.
    fn make_csv_parser(&mut self, registry: &mut SchemaRegistry) -> (r: Result<(), Error>)
        requires
            old(self).wf(),
        ensures
            final(self).wf(),
            final(self)@ == old(self)@.with_reader(
                old(registry).mappings(),
                old(registry).cached(),
            ).file,
            final(registry).mappings() == old(registry).mappings(),
            final(registry).cached() == old(self)@.with_reader(
                old(registry).mappings(),
                old(registry).cached(),
            ).cached,
            unit_result(r) == old(self)@.with_reader(
                old(registry).mappings(),
                old(registry).cached(),
            ).result,
            r is Ok ==> final(self).csv_reader is Some,
            final(self).cover == old(self).cover,
    {
        if self.csv_reader.is_some() {
            return Ok(());
        }
        self.parse_header(registry)?;
        let sep = match &self.sep {
            Some(sep) => *sep,
            None => {
                return Err(Error::IoError(String::from_str("no sep")));
            },
        };
        // Hand what follows the header over to the reader of the lines.
        let rest = match &self.reader {
            Some(bytes) => bytes_of(bytes.as_slice(), self.header_len, bytes.len()),
            None => {
                return Err(Error::IoError(String::from_str("no reader")));
            },
        };
        assert(rest@ == self.source@.skip(self.header_len as int));
        self.csv_reader = Some(CsvReader::new(rest, &sep));
        self.reader = None;
        Ok(())
    }
}

/// Before the first line that could not be read, every line could.
pub proof fn lemma_first_error(lines: Seq<RawLine>, k: int)
    requires
        0 <= k <= lines.len(),
        forall|j: int| 0 <= j < k ==> (#[trigger] lines[j]) is Ok,
        k == lines.len() || lines[k] is Err,
    ensures
        first_error(lines) == k,
    decreases k,
{
    if k > 0 {
        let t = lines.drop_first();
        assert forall|j: int| 0 <= j < k - 1 implies (#[trigger] t[j]) is Ok by {
            assert(t[j] == lines[j + 1]);
        }
        lemma_first_error(t, k - 1);
    }
}

/// The place of a state in the order in which a filing passes through
/// its states.
pub open spec fn rank(state: DriverState) -> int {
    match state {
        DriverState::Fresh => 0,
        DriverState::HeaderReady => 1,
        DriverState::ReaderAttached => 2,
        DriverState::CoverReady => 3,
        DriverState::Exhausted => 4,
    }
}

/// A filing never returns to an earlier state: whatever is asked of it,
/// it stays in its state or moves on; and what was decoded stays decoded.
pub proof fn lemma_monotonic(v: FecFileView, mappings: Mappings, cached: Seq<CacheEntryView>)
    requires
        v.wf(),
    ensures
        rank(v.with_header(mappings, cached).file.state()) >= rank(v.state()),
        rank(v.with_cover(mappings, cached).file.state()) >= rank(v.state()),
        rank(v.next(mappings, cached).file.state()) >= rank(v.state()),
        rank(v.drained(mappings, cached).file.state()) >= rank(v.state()),
        v.with_header(mappings, cached).file.wf(),
        v.with_cover(mappings, cached).file.wf(),
        v.next(mappings, cached).file.wf(),
        v.drained(mappings, cached).file.wf(),
        !v.holds_source ==> !v.next(mappings, cached).file.holds_source && !v.drained(
            mappings,
            cached,
        ).file.holds_source,
        v.header is Some ==> v.next(mappings, cached).file.header == v.header,
        v.cover is Some ==> v.next(mappings, cached).file.cover == v.cover,
        v.header is Some ==> v.drained(mappings, cached).file.header == v.header,
        v.cover is Some ==> v.drained(mappings, cached).file.cover == v.cover,
{
    lemma_header_bounds(mappings, v.source);
    let s = v.with_reader(mappings, cached);
    if s.file.pending is Some && s.file.pending->0.len() == 0 {
        assert(s.file.pending->0 =~= Seq::<RawLine>::empty());
    }
    let c = v.with_cover(mappings, cached);
    if c.file.pending is Some && c.file.pending->0.len() == 0 {
        assert(c.file.pending->0 =~= Seq::<RawLine>::empty());
    }
}

/// A header that decodes takes no more bytes than the filing has.
pub proof fn lemma_header_bounds(mappings: Mappings, src: Seq<u8>)
    ensures
        header_outcome(mappings, src) matches Ok((h, sep, n)) ==> 0 <= n <= src.len(),
{
    let start = first_content(src, 0);
    lemma_first_content(src, 0);
    if start < src.len() {
        lemma_line_end(src, start);
        let end = line_end(src, start);
        if contains_seq(line_at(src, start), comment_marker()) {
            let nothing = LegacyFields {
                version: Seq::empty(),
                name: Seq::empty(),
                soft_version: None,
            };
            lemma_legacy_scan_bounds(src, end, 0, nothing);
        }
    }
}

/// The pipeline of a filing, driven from its start to its end.
///
/// Where the header of a filing decodes, the reader of the lines takes
/// over exactly the bytes after the header. Where also the first of these
/// lines decodes as the cover and the lines after it can all be read,
/// asking for all lines yields exactly the lines after the cover: as many,
/// and in their order. The filing is then exhausted, with the one header
/// and the one cover that were decoded; asking again for the header or the
/// cover yields the same ones and changes nothing.
pub proof fn lemma_pipeline(src: Seq<u8>, mappings: Mappings, cached: Seq<CacheEntryView>)
    requires
        header_outcome(mappings, src) is Ok,
    ensures
        ({
            let fresh = FecFileView {
                source: src,
                holds_source: true,
                header: None,
                pending: None,
                cover: None,
                done: false,
            };
            let (header, sep, n) = header_outcome(mappings, src)->Ok_0;
            let lines = csv_lines(src.skip(n), sep_byte(sep));
            let end = fresh.drained(mappings, cached);
            &&& fresh.with_reader(mappings, cached).file.pending == Some(lines)
            &&& (lines.len() > 0 && lines[0] is Ok && cover_outcome(
                mappings,
                header.fec_version,
                lines[0]->Ok_0,
            ) is Ok && first_error(lines.drop_first()) >= lines.len() - 1) ==> {
                &&& end.result == Ok::<Seq<Seq<Seq<char>>>, ErrorView>(
                    fields_of(lines.drop_first()),
                )
                &&& end.result->Ok_0.len() == lines.len() - 1
                &&& end.file.state() == DriverState::Exhausted
                &&& end.file.header == Some(HeaderInfo { header, sep, len: n })
                &&& end.file.cover == Some(
                    cover_outcome(mappings, header.fec_version, lines[0]->Ok_0)->Ok_0,
                )
                &&& end.file.with_header(mappings, end.cached).file == end.file
                &&& end.file.with_cover(mappings, end.cached).file == end.file
                &&& end.file.next(mappings, end.cached).result is None
            }
        }),
{
}

} // verus!
