//! Writing records as delimited text, one file for each kind of record.

use crate::error::{Error, ErrorView};
use crate::fec::{unit_result, FecFile, FecFileView};
use crate::record::{Record, RecordSchema, RecordSchemaView, RecordView, ValueView};
use crate::schemas::lookup::{CacheEntryView, Mappings, SchemaRegistry};
use crate::text::views;
use crate::writers::base::{
    closed, coerced_record, first_bad, lemma_first_bad, refused, write_all, written_through,
    FileRecordWriterFactory, MultiFileRecordWriterFactory, MultiRecordWriter, RecordWriter,
    RecordWriterFactory,
};
use vstd::prelude::*;
use vstd::string::StringExecFns;

verus! {

/// The bytes that `csv::Writer::write_record` writes for one row of
/// fields, when the writer takes rows of any length.
pub uninterp spec fn csv_row(fields: Seq<Seq<char>>) -> Seq<u8>;

/// `csv::Writer::write_record` for one row of fields, into a writer over
/// bytes in memory that `csv::WriterBuilder` built to take rows of any
/// length, and `csv::Writer::into_inner` for the bytes written. Such a
/// writer fails only where writing to what is under it fails or where rows
/// must be of one length; bytes in memory take every write and these rows
/// may be of any length, so it does not fail.
#[verifier::external_body]
fn encode_row(fields: &Vec<String>) -> (r: Result<Vec<u8>, String>)
    ensures
        r is Ok,
        r matches Ok(bytes) ==> bytes@ == csv_row(views(fields@)),
{
    let mut writer = ::csv::WriterBuilder::new().has_headers(false).flexible(true).from_writer(
        Vec::new(),
    );
    writer.write_record(fields).map_err(|e| e.to_string())?;
    writer.into_inner().map_err(|e| e.to_string())
}

/// The texts of values, by position.
pub open spec fn texts_of(values: Seq<ValueView>) -> Seq<Seq<char>> {
    values.map_values(|v: ValueView| v.text())
}

/// The rows of records as delimited text, one after the other.
pub open spec fn rows_text(records: Seq<RecordView>) -> Seq<u8>
    decreases records.len(),
{
    if records.len() == 0 {
        Seq::empty()
    } else {
        rows_text(records.drop_last()) + csv_row(texts_of(records.last().values))
    }
}

/// The header row of a schema as delimited text: the names of its fields.
pub open spec fn header_text(schema: RecordSchemaView) -> Seq<u8> {
    csv_row(schema.names())
}

/// A [`RecordWriter`] that writes delimited text.
///
/// Before the first record it writes a header row with the names of the
/// fields of its schema. Every record is one row, with the texts of its
/// values by position, however many there are. The bytes are kept until
/// they are taken.
pub struct CSVFormWriter {
    path: String,
    out: Vec<u8>,
    schema: RecordSchema,
    has_written_header: bool,
    taken: Ghost<Seq<u8>>,
    log: Ghost<Seq<RecordView>>,
}

impl CSVFormWriter {
    /// The path of the file that the text is meant for.
    pub closed spec fn path(&self) -> Seq<char> {
        self.path@
    }

    /// The schema whose records the writer writes.
    pub closed spec fn schema(&self) -> RecordSchemaView {
        self.schema@
    }

    /// Whether the header row has been written.
    pub closed spec fn header_written(&self) -> bool {
        self.has_written_header
    }

    /// The bytes written that have not been taken yet.
    pub closed spec fn buffered(&self) -> Seq<u8> {
        self.out@
    }

    /// All the bytes written so far, taken or not.
    pub closed spec fn emitted(&self) -> Seq<u8> {
        self.taken@ + self.out@
    }

    /// What was written is the header row, once it was written, and the
    /// rows of the records accepted.
    pub closed spec fn wf(&self) -> bool {
        &&& self.taken@ + self.out@ == (if self.has_written_header {
            header_text(self.schema@)
        } else {
            Seq::<u8>::empty()
        }) + rows_text(self.log@)
        &&& self.log@.len() > 0 ==> self.has_written_header
    }

    /// What was written is the header row, once it was written, and the
    /// rows of the records accepted.
    pub proof fn lemma_emitted(&self)
        requires
            self.wf(),
        ensures
            self.emitted() == (if self.header_written() {
                header_text(self.schema())
            } else {
                Seq::<u8>::empty()
            }) + rows_text(self.written()),
            self.written().len() > 0 ==> self.header_written(),
    {
    }

    /// A writer for the records of a schema, meant for the file at `path`.
    /// Nothing is written yet.
    pub fn new(path: &str, schema: &RecordSchema) -> (w: Self)
        ensures
            w.wf(),
            w.path() == path@,
            w.schema() == schema@,
            !w.header_written(),
            w.written() == Seq::<RecordView>::empty(),
            w.emitted() == Seq::<u8>::empty(),
            w.buffered() == Seq::<u8>::empty(),
    {
        let w = Self {
            path: String::from_str(path),
            out: Vec::new(),
            schema: schema.clone(),
            has_written_header: false,
            taken: Ghost(Seq::empty()),
            log: Ghost(Seq::empty()),
        };
        assert(w.taken@ + w.out@ =~= Seq::<u8>::empty());
        assert(Seq::<u8>::empty() + rows_text(w.log@) =~= Seq::<u8>::empty());
        w
    }

    /// The path of the file that the text is meant for.
    pub fn file_path(&self) -> (p: &String)
        ensures
            p@ == self.path(),
    {
        &self.path
    }

    /// Take the bytes that were written since they were last taken.
    pub fn take_output(&mut self) -> (bytes: Vec<u8>)
        requires
            old(self).wf(),
        ensures
            final(self).wf(),
            bytes@ == old(self).buffered(),
            final(self).buffered() == Seq::<u8>::empty(),
            final(self).emitted() == old(self).emitted(),
            final(self).written() == old(self).written(),
            final(self).path() == old(self).path(),
            final(self).schema() == old(self).schema(),
            final(self).header_written() == old(self).header_written(),
    {
        let mut bytes: Vec<u8> = Vec::new();
        bytes.append(&mut self.out);
        proof {
            self.taken@ = self.taken@ + bytes@;
            assert(self.taken@ + self.out@ =~= old(self).taken@ + old(self).out@);
            assert(bytes@ =~= old(self).out@);
        }
        bytes
    }

    /// Write the header row if it has not been written yet. This always
    /// goes well: the row is written to memory.
    pub fn maybe_write_header(&mut self) -> (r: Result<(), Error>)
        requires
            old(self).wf(),
        ensures
            final(self).wf(),
            final(self).written() == old(self).written(),
            final(self).path() == old(self).path(),
            final(self).schema() == old(self).schema(),
            r is Ok,
            final(self).header_written(),
            final(self).emitted() == old(self).emitted() + if old(self).header_written() {
                Seq::<u8>::empty()
            } else {
                header_text(old(self).schema())
            },
    {
        if self.has_written_header {
            assert(self.emitted() + Seq::<u8>::empty() =~= self.emitted());
            return Ok(());
        }
        let mut names: Vec<String> = Vec::new();
        let mut i: usize = 0;
        while i < self.schema.fields.len()
            invariant
                i <= self.schema.fields.len(),
                names.len() == i,
                forall|k: int| 0 <= k < i ==> (#[trigger] names@[k])@ == self.schema.fields@[k].name@,
            decreases self.schema.fields.len() - i,
        {
            names.push(self.schema.fields[i].name.clone());
            i += 1;
        }
        assert(views(names@) =~= self.schema@.names());
        let mut row = match encode_row(&names) {
            Ok(row) => row,
            Err(message) => {
                return Err(Error::IoError(message));
            },
        };
        proof {
            assert(self.log@.len() == 0);
            assert(rows_text(self.log@) =~= Seq::<u8>::empty());
        }
        self.out.append(&mut row);
        self.has_written_header = true;
        proof {
            assert(self.taken@ + self.out@ =~= (old(self).taken@ + old(self).out@) + header_text(
                self.schema@,
            ));
            assert(self.taken@ + self.out@ =~= header_text(self.schema@) + rows_text(self.log@));
        }
        Ok(())
    }

    /// The texts of the values of a record, by position.
    fn row_of(record: &Record) -> (texts: Vec<String>)
        ensures
            views(texts@) == texts_of(record@.values),
    {
        let mut texts: Vec<String> = Vec::new();
        let mut i: usize = 0;
        while i < record.values.len()
            invariant
                i <= record.values.len(),
                texts.len() == i,
                forall|k: int| 0 <= k < i ==> (#[trigger] texts@[k])@ == record.values@[k]@.text(),
            decreases record.values.len() - i,
        {
            texts.push(record.values[i].to_text());
            i += 1;
        }
        assert(views(texts@) =~= texts_of(record@.values));
        texts
    }
}

impl RecordWriter for CSVFormWriter {
    open spec fn writer_inv(&self) -> bool {
        self.wf()
    }

    closed spec fn written(&self) -> Seq<RecordView> {
        self.log@
    }

    /// A text writer holds nothing back: every row is written at once.
    open spec fn finished(&self) -> bool {
        true
    }

    /// Every record is accepted, and written as one row, after the header
    /// row where that was not written yet. Path and schema stay.
    open spec fn wrote(&self, after: &Self, record: RecordView, r: Result<(), ErrorView>) -> bool {
        &&& r is Ok
        &&& after.path() == self.path()
        &&& after.schema() == self.schema()
        &&& after.header_written()
        &&& after.emitted() == self.emitted() + (if self.header_written() {
            Seq::<u8>::empty()
        } else {
            header_text(self.schema())
        }) + csv_row(texts_of(record.values))
    }

    /// Finishing always goes well and changes nothing.
    open spec fn closes(&self, after: &Self, r: Result<(), ErrorView>) -> bool {
        &&& r is Ok
        &&& after.path() == self.path()
        &&& after.schema() == self.schema()
        &&& after.emitted() == self.emitted()
        &&& after.buffered() == self.buffered()
        &&& after.header_written() == self.header_written()
    }

    fn write_record(&mut self, record: &Record) -> (r: Result<(), Error>)
        ensures
            r is Ok,
    {
        self.maybe_write_header()?;
        let texts = Self::row_of(record);
        let mut row = match encode_row(&texts) {
            Ok(row) => row,
            Err(message) => {
                return Err(Error::IoError(message));
            },
        };
        let ghost before = self.taken@ + self.out@;
        self.out.append(&mut row);
        proof {
            self.log@ = self.log@.push(record@);
            assert(self.log@.drop_last() =~= old(self).log@);
            assert(self.taken@ + self.out@ =~= before + csv_row(texts_of(record@.values)));
            assert(self.taken@ + self.out@ =~= header_text(self.schema@) + rows_text(self.log@));
        }
        Ok(())
    }

    fn finish(&mut self) -> (r: Result<(), Error>) {
        Ok(())
    }
}

/// The factory of the writers of delimited text.
pub struct CSVFileWriterFactory;

impl FileRecordWriterFactory for CSVFileWriterFactory {
    type Writer = CSVFormWriter;

    open spec fn file_factory_inv(&self) -> bool {
        true
    }

    open spec fn extension(&self) -> Seq<char> {
        seq!['c', 's', 'v']
    }

    open spec fn fresh_file(
        &self,
        writer: &CSVFormWriter,
        path: Seq<char>,
        schema: RecordSchemaView,
    ) -> bool {
        &&& writer.path() == path
        &&& writer.schema() == schema
        &&& !writer.header_written()
        &&& writer.emitted() == Seq::<u8>::empty()
    }

    /// A writer is always made, and the factory stays as it is.
    open spec fn made_file(
        &self,
        after: &Self,
        path: Seq<char>,
        schema: RecordSchemaView,
        made: Result<CSVFormWriter, ErrorView>,
    ) -> bool {
        made is Ok && *after == *self
    }

    fn file_name(&self, form_name: String) -> (r: String) {
        let mut r = form_name;
        r.append(".csv");
        proof {
            reveal_strlit(".csv");
            assert(".csv"@ =~= seq!['.'] + seq!['c', 's', 'v']);
            assert(r@ =~= form_name@ + seq!['.'] + seq!['c', 's', 'v']);
        }
        r
    }

    fn make(&mut self, path: &str, schema: &RecordSchema) -> (r: Result<CSVFormWriter, Error>)
        ensures
            r is Ok,
    {
        Ok(CSVFormWriter::new(path, schema))
    }
}

/// Writes the records of a filing as delimited text: for each kind of
/// record a file of its own in one directory, named by the code of the
/// record with hyphens for slashes, with the extension `csv`.
pub struct CSVProcessor {
    multi_writer: MultiRecordWriter<MultiFileRecordWriterFactory<CSVFileWriterFactory>>,
}

impl CSVProcessor {
    /// The dispatcher that holds the writers.
    pub closed spec fn writers(&self) -> MultiRecordWriter<
        MultiFileRecordWriterFactory<CSVFileWriterFactory>,
    > {
        self.multi_writer
    }

    /// A processor that writes to files in the directory `out_dir`.
    pub fn new(out_dir: String) -> (p: Self)
        ensures
            p.writers().wf(),
            p.writers().entries().len() == 0,
            p.writers().written() == Seq::<RecordView>::empty(),
            p.writers().factory().base_path() == out_dir@,
    {
        let factory = CSVFileWriterFactory;
        let f2 = MultiFileRecordWriterFactory::new(out_dir, factory);
        let multi_writer = MultiRecordWriter::new(f2);
        Self { multi_writer }
    }

    /// The number of files written to.
    pub fn len(&self) -> (n: usize)
        ensures
            n == self.writers().entries().len(),
    {
        self.multi_writer.len()
    }

    /// The writer of the file at a position, in the order in which the
    /// files were begun.
    pub fn writer(&self, i: usize) -> (w: &CSVFormWriter)
        requires
            i < self.writers().entries().len(),
        ensures
            *w == self.writers().entries()[i as int].1,
    {
        self.multi_writer.writer(i)
    }

    /// Take, from the writer of the file at a position, the bytes written
    /// since they were last taken.
    pub fn take_output(&mut self, i: usize) -> (bytes: Vec<u8>)
        requires
            old(self).writers().wf(),
            i < old(self).writers().entries().len(),
        ensures
            final(self).writers().wf(),
            bytes@ == old(self).writers().entries()[i as int].1.buffered(),
            final(self).writers().codes() == old(self).writers().codes(),
            final(self).writers().logs() == old(self).writers().logs(),
            final(self).writers().written() == old(self).writers().written(),
            final(self).writers().entries().len() == old(self).writers().entries().len(),
            final(self).writers().entries()[i as int].1.buffered() == Seq::<u8>::empty(),
    {
        let ghost before = self.multi_writer.entries();
        let writer = self.multi_writer.writer_mut(i);
        let bytes = writer.take_output();
        proof {
            let after = self.multi_writer.entries();
            assert(self.multi_writer.codes() =~= old(self).multi_writer.codes());
            assert(self.multi_writer.logs() =~= old(self).multi_writer.logs());
            assert forall|k: int| 0 <= k < after.len() implies (#[trigger] after[k]).1.writer_inv() by {
                if k != i {
                    assert(after[k] == before[k]);
                }
            }
        }
        bytes
    }

    /// Write every record of a filing: decode the header and the cover,
    /// then read line after line, make a record of each under the coercing
    /// policy, and hand it to the writer for its schema. Returns at the
    /// first error.
    ///
    /// The writers of text refuse nothing, so the only errors are those of
    /// the filing: of its header, of its cover, and of the first line that
    /// cannot be read or cannot be made into a record. Every line before
    /// that line is written.
    pub fn process(&mut self, fec: &mut FecFile, registry: &mut SchemaRegistry) -> (r: Result<
        (),
        Error,
    >)
        requires
            old(self).writers().wf(),
            old(fec).wf(),
        ensures
            final(self).writers().wf(),
            final(fec).wf(),
            final(registry).mappings() == old(registry).mappings(),
            r is Ok ==> final(self).writers().finished(),
            written_through(
                old(fec)@,
                final(fec)@,
                old(registry).mappings(),
                old(registry).cached(),
                final(registry).cached(),
                old(self).writers(),
                final(self).writers(),
                text_stop(old(fec)@, old(registry).mappings(), old(registry).cached()),
                r,
            ),
            r is Ok <==> text_ok(old(fec)@, old(registry).mappings(), old(registry).cached()),
    {
        let r = write_all(&mut self.multi_writer, fec, registry);
        proof {
            let m = old(registry).mappings();
            let s = old(fec)@.with_cover(m, old(registry).cached());
            let k = choose|k: int|
                written_through(
                    old(fec)@,
                    fec@,
                    m,
                    old(registry).cached(),
                    registry.cached(),
                    old(self).multi_writer,
                    self.multi_writer,
                    k,
                    r,
                );
            if s.result is Ok {
                let lines = s.file.pending->0;
                let version = s.file.header->0.header.fec_version;
                if k == lines.len() {
                    lemma_text_closes(self.multi_writer.written(), self.multi_writer, unit_result(r));
                } else if lines[k] is Ok && coerced_record(m, version, lines[k]->Ok_0) is Ok {
                    lemma_text_accepts(
                        self.multi_writer.written(),
                        self.multi_writer,
                        coerced_record(m, version, lines[k]->Ok_0)->Ok_0,
                        r->Err_0@,
                    );
                }
                lemma_first_bad(m, version, lines, 0, k);
            }
        }
        r
    }
}

/// Where writing the records of a filing as text stops: at the first line
/// that cannot be read or cannot be made into a record, or after the last
/// line; before the first line where the header or the cover fail.
pub open spec fn text_stop(
    before: FecFileView,
    mappings: Mappings,
    cached: Seq<CacheEntryView>,
) -> int {
    let s = before.with_cover(mappings, cached);
    if s.result is Ok {
        first_bad(mappings, s.file.header->0.header.fec_version, s.file.pending->0, 0)
    } else {
        0
    }
}

/// Whether writing the records of a filing as text goes well: the header
/// and the cover decode, and every line after them can be read and be made
/// into a record.
pub open spec fn text_ok(
    before: FecFileView,
    mappings: Mappings,
    cached: Seq<CacheEntryView>,
) -> bool {
    let s = before.with_cover(mappings, cached);
    s.result is Ok && text_stop(before, mappings, cached) == s.file.pending->0.len()
}

/// The writers of text refuse no record.
pub proof fn lemma_text_accepts(
    written: Seq<RecordView>,
    after: MultiRecordWriter<MultiFileRecordWriterFactory<CSVFileWriterFactory>>,
    record: RecordView,
    e: ErrorView,
)
    ensures
        !refused(written, after, record, e),
{
    if refused(written, after, record, e) {
        let mid = choose|mid: MultiRecordWriter<MultiFileRecordWriterFactory<CSVFileWriterFactory>>|
            mid.writer_inv() && mid.written() == written && #[trigger] mid.wrote(
                &after,
                record,
                Err::<(), ErrorView>(e),
            );
        assert(mid.wrote(&after, record, Err::<(), ErrorView>(e)));
        assert(false);
    }
}

/// Finishing the writers of text always goes well.
pub proof fn lemma_text_closes(
    written: Seq<RecordView>,
    after: MultiRecordWriter<MultiFileRecordWriterFactory<CSVFileWriterFactory>>,
    r: Result<(), ErrorView>,
)
    requires
        closed(written, after, r),
    ensures
        r is Ok,
{
    let mid = choose|mid: MultiRecordWriter<MultiFileRecordWriterFactory<CSVFileWriterFactory>>|
        mid.writer_inv() && mid.written() == written && #[trigger] mid.closes(&after, r);
    assert(mid.closes(&after, r));
}

} // verus!
