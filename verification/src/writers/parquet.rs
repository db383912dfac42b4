//! Writing records as columnar files, one file for each kind of record:
//! the records are gathered into batches, and the batches are handed on to
//! whoever encodes them.

use crate::error::{Error, ErrorView};
use crate::fec::FecFile;
use crate::record::{Record, RecordSchema, RecordSchemaView, RecordView, ValueView};
use crate::schemas::lookup::SchemaRegistry;
use crate::text::first_index;
use crate::writers::arrow::{
    fits, msg_full, msg_mismatch, values_of, RecordBatch, RecordBatchWriter,
};
use crate::writers::base::{
    write_all, written_some, FileRecordWriterFactory, MultiFileRecordWriterFactory,
    MultiRecordWriter, RecordWriter, RecordWriterFactory,
};
use vstd::prelude::*;
use vstd::string::StringExecFns;

verus! {

/// The number of rows of a batch where none is asked for.
pub const DEFAULT_BATCH_SIZE: usize = 1048576;

/// The message of the error for a writer that was finished before.
pub open spec fn msg_closed() -> Seq<char> {
    "writing to a closed writer"@
}

/// What a writer answers to a record: that it accepts it, or the error
/// that says why not. A writer that was finished takes no record; a record
/// must fit the schema; and there must be room for one more row.
pub open spec fn refusal(closed: bool, fits: bool, room: bool) -> Result<(), ErrorView> {
    if closed {
        Err(ErrorView::IoError(msg_closed()))
    } else if !fits {
        Err(ErrorView::IoError(msg_mismatch()))
    } else if !room {
        Err(ErrorView::IoError(msg_full()))
    } else {
        Ok(())
    }
}

/// The rows of batches, batch by batch.
pub open spec fn batch_rows(batches: Seq<RecordBatch>) -> Seq<Seq<Seq<ValueView>>> {
    batches.map_values(|b: RecordBatch| b.rows())
}

/// The rows of batches, one batch after the other.
pub open spec fn joined_rows(batches: Seq<Seq<Seq<ValueView>>>) -> Seq<Seq<ValueView>>
    decreases batches.len(),
{
    if batches.len() == 0 {
        Seq::empty()
    } else {
        joined_rows(batches.drop_last()) + batches.last()
    }
}

/// A [`RecordWriter`] for a columnar file.
///
/// It gathers records until they fill a batch, and hands the batch on;
/// what is left when the writer is finished is handed on as a last batch.
/// The batches are kept until they are taken.
pub struct ParquetWriter {
    path: String,
    batcher: RecordBatchWriter,
    ready: Vec<RecordBatch>,
    taken: Ghost<Seq<Seq<Seq<ValueView>>>>,
    /// The number of records to gather before handing on a batch.
    batch_size: usize,
    closed: bool,
}

impl ParquetWriter {
    /// The path of the file that the batches are meant for.
    pub closed spec fn path(&self) -> Seq<char> {
        self.path@
    }

    /// The schema whose records the writer takes.
    pub closed spec fn schema(&self) -> RecordSchemaView {
        self.batcher.schema()
    }

    /// The number of rows at which a batch is handed on.
    pub closed spec fn batch_size(&self) -> usize {
        self.batch_size
    }

    /// Whether the writer was finished.
    pub closed spec fn is_closed(&self) -> bool {
        self.closed
    }

    /// The rows gathered that are not in a batch yet.
    pub closed spec fn gathered(&self) -> Seq<Seq<ValueView>> {
        self.batcher.rows()
    }

    /// The rows of the batches handed on so far, taken or not.
    pub closed spec fn handed(&self) -> Seq<Seq<Seq<ValueView>>> {
        self.taken@ + batch_rows(self.ready@)
    }

    /// The rows of the batches that have not been taken yet.
    pub closed spec fn ready(&self) -> Seq<Seq<Seq<ValueView>>> {
        batch_rows(self.ready@)
    }

    /// The batcher is in order, and so is every batch; and the rows handed
    /// on and the rows gathered are the values of the records written.
    pub closed spec fn wf(&self) -> bool {
        &&& self.batcher.wf()
        &&& forall|k: int| 0 <= k < self.ready@.len() ==> (#[trigger] self.ready@[k]).wf()
        &&& joined_rows(self.taken@ + batch_rows(self.ready@)) + self.batcher.rows() == values_of(
            self.batcher.written(),
        )
    }

    /// No record is lost: the rows of the batches handed on, followed by
    /// the rows gathered, are the values of the records written, in their
    /// order. After the writer is finished, every record written is in a
    /// batch.
    pub proof fn lemma_all_rows(&self)
        requires
            self.wf(),
        ensures
            joined_rows(self.handed()) + self.gathered() == values_of(self.written()),
            self.finished() ==> joined_rows(self.handed()) == values_of(self.written()),
    {
        if self.gathered().len() == 0 {
            assert(joined_rows(self.handed()) + self.gathered() =~= joined_rows(self.handed()));
        }
    }

    /// A writer for the records of a schema, meant for the file at `path`,
    /// that hands on a batch when it holds `batch_size` rows.
    pub fn new(path: &str, feco3_schema: &RecordSchema, batch_size: usize) -> (w: Self)
        ensures
            w.wf(),
            w.path() == path@,
            w.schema() == feco3_schema@,
            w.batch_size() == batch_size,
            !w.is_closed(),
            w.gathered() == Seq::<Seq<ValueView>>::empty(),
            w.handed() == Seq::<Seq<Seq<ValueView>>>::empty(),
            w.written() == Seq::<RecordView>::empty(),
    {
        let batcher = RecordBatchWriter::new(feco3_schema.clone(), batch_size);
        let w = Self {
            path: String::from_str(path),
            batcher,
            ready: Vec::new(),
            taken: Ghost(Seq::empty()),
            batch_size,
            closed: false,
        };
        assert(w.handed() =~= Seq::<Seq<Seq<ValueView>>>::empty());
        assert(joined_rows(w.handed()) + w.batcher.rows() =~= values_of(w.batcher.written()));
        w
    }

    /// The path of the file that the batches are meant for.
    pub fn file_path(&self) -> (p: &String)
        ensures
            p@ == self.path(),
    {
        &self.path
    }

    /// Hand on the rows gathered as a batch.
    fn write_batch(&mut self)
        requires
            old(self).wf(),
        ensures
            final(self).wf(),
            final(self).handed() == old(self).handed().push(old(self).gathered()),
            final(self).gathered() == Seq::<Seq<ValueView>>::empty(),
            final(self).written() == old(self).written(),
            final(self).path() == old(self).path(),
            final(self).schema() == old(self).schema(),
            final(self).batch_size() == old(self).batch_size(),
            final(self).is_closed() == old(self).is_closed(),
    {
        let batch = self.batcher.build_batch();
        let ghost before = self.ready@;
        self.ready.push(batch);
        proof {
            assert(batch_rows(self.ready@) =~= batch_rows(before).push(batch.rows()));
            assert(self.taken@ + batch_rows(self.ready@) =~= (self.taken@ + batch_rows(
                before,
            )).push(batch.rows()));
            let handed = self.taken@ + batch_rows(before);
            assert(handed.push(batch.rows()).drop_last() =~= handed);
            assert(joined_rows(handed.push(batch.rows())) + self.batcher.rows() =~= joined_rows(
                handed,
            ) + batch.rows());
            assert forall|k: int| 0 <= k < self.ready@.len() implies (#[trigger] self.ready@[k]).wf() by {
                if k < before.len() {
                    assert(self.ready@[k] == before[k]);
                }
            }
        }
    }

    /// Take the batches that were handed on since they were last taken.
    pub fn take_batches(&mut self) -> (batches: Vec<RecordBatch>)
        requires
            old(self).wf(),
        ensures
            final(self).wf(),
            batch_rows(batches@) == old(self).ready(),
            forall|k: int| 0 <= k < batches@.len() ==> (#[trigger] batches@[k]).wf(),
            final(self).ready() == Seq::<Seq<Seq<ValueView>>>::empty(),
            final(self).handed() == old(self).handed(),
            final(self).gathered() == old(self).gathered(),
            final(self).written() == old(self).written(),
            final(self).path() == old(self).path(),
            final(self).schema() == old(self).schema(),
            final(self).batch_size() == old(self).batch_size(),
            final(self).is_closed() == old(self).is_closed(),
    {
        let mut batches: Vec<RecordBatch> = Vec::new();
        batches.append(&mut self.ready);
        proof {
            assert(batches@ =~= old(self).ready@);
            self.taken@ = self.taken@ + batch_rows(batches@);
            assert(batch_rows(self.ready@) =~= Seq::<Seq<Seq<ValueView>>>::empty());
            assert(self.taken@ + batch_rows(self.ready@) =~= old(self).taken@ + batch_rows(
                old(self).ready@,
            ));
            assert(self.taken@ + batch_rows(self.ready@) == old(self).handed());
        }
        batches
    }
}

impl RecordWriter for ParquetWriter {
    open spec fn writer_inv(&self) -> bool {
        self.wf()
    }

    closed spec fn written(&self) -> Seq<RecordView> {
        self.batcher.written()
    }

    open spec fn finished(&self) -> bool {
        self.is_closed() && self.gathered().len() == 0
    }

    /// A record is accepted where the writer is open, the record fits the
    /// schema and there is room for it; it then joins the rows gathered,
    /// and these are handed on as a batch when they fill one. Otherwise
    /// the error says which of the three it was, and nothing changes.
    open spec fn wrote(&self, after: &Self, record: RecordView, r: Result<(), ErrorView>) -> bool {
        &&& after.path() == self.path()
        &&& after.schema() == self.schema()
        &&& after.batch_size() == self.batch_size()
        &&& after.is_closed() == self.is_closed()
        &&& r == refusal(
            self.is_closed(),
            fits(self.schema(), record),
            self.gathered().len() < usize::MAX,
        )
        &&& if r is Err {
            after.handed() == self.handed() && after.gathered() == self.gathered()
        } else if self.gathered().len() + 1 >= self.batch_size() {
            &&& after.handed() == self.handed().push(self.gathered().push(record.values))
            &&& after.gathered() == Seq::<Seq<ValueView>>::empty()
        } else {
            &&& after.handed() == self.handed()
            &&& after.gathered() == self.gathered().push(record.values)
        }
    }

    /// A writer that is open is closed, and the rows gathered are handed
    /// on as a last batch, if there are any; a writer that is closed
    /// refuses.
    open spec fn closes(&self, after: &Self, r: Result<(), ErrorView>) -> bool {
        &&& after.path() == self.path()
        &&& after.schema() == self.schema()
        &&& after.batch_size() == self.batch_size()
        &&& after.is_closed()
        &&& r == if self.is_closed() {
            Err::<(), ErrorView>(ErrorView::IoError(msg_closed()))
        } else {
            Ok::<(), ErrorView>(())
        }
        &&& if r is Ok {
            &&& after.gathered() == Seq::<Seq<ValueView>>::empty()
            &&& after.handed() == if self.gathered().len() > 0 {
                self.handed().push(self.gathered())
            } else {
                self.handed()
            }
        } else {
            after.handed() == self.handed() && after.gathered() == self.gathered()
        }
    }

    fn write_record(&mut self, record: &Record) -> (r: Result<(), Error>) {
        if self.closed {
            return Err(Error::IoError(String::from_str("writing to a closed writer")));
        }
        self.batcher.write_record(record)?;
        proof {
            assert(values_of(self.batcher.written()) =~= values_of(
                old(self).batcher.written(),
            ).push(record@.values));
            assert(joined_rows(self.handed()) + self.batcher.rows() =~= (joined_rows(
                old(self).handed(),
            ) + old(self).batcher.rows()).push(record@.values));
        }
        if self.batcher.len() >= self.batch_size {
            self.write_batch();
        }
        Ok(())
    }

    fn finish(&mut self) -> (r: Result<(), Error>) {
        if self.closed {
            return Err(Error::IoError(String::from_str("writing to a closed writer")));
        }
        if self.batcher.len() > 0 {
            self.write_batch();
        } else {
            assert(self.gathered() =~= Seq::<Seq<ValueView>>::empty());
        }
        self.closed = true;
        Ok(())
    }
}

/// The factory of the writers of columnar files.
#[derive(Debug)]
pub struct ParquetWriterFactory {
    /// The number of rows of a batch, or `None` for the usual number.
    pub max_row_group_size: Option<usize>,
}

impl Default for ParquetWriterFactory {
    fn default() -> (f: Self)
        ensures
            f.max_row_group_size is None,
    {
        ParquetWriterFactory { max_row_group_size: None }
    }
}

impl ParquetWriterFactory {
    /// The number of rows of the batches of the writers.
    pub open spec fn rows_per_batch(&self) -> usize {
        match self.max_row_group_size {
            Some(n) => n,
            None => DEFAULT_BATCH_SIZE,
        }
    }
}

impl FileRecordWriterFactory for ParquetWriterFactory {
    type Writer = ParquetWriter;

    open spec fn file_factory_inv(&self) -> bool {
        true
    }

    open spec fn extension(&self) -> Seq<char> {
        seq!['p', 'a', 'r', 'q', 'u', 'e', 't']
    }

    open spec fn fresh_file(
        &self,
        writer: &ParquetWriter,
        path: Seq<char>,
        schema: RecordSchemaView,
    ) -> bool {
        &&& writer.path() == path
        &&& writer.schema() == schema
        &&& writer.batch_size() == self.rows_per_batch()
        &&& !writer.is_closed()
        &&& writer.gathered() == Seq::<Seq<ValueView>>::empty()
        &&& writer.handed() == Seq::<Seq<Seq<ValueView>>>::empty()
    }

    /// A writer is always made, and the factory stays as it is.
    open spec fn made_file(
        &self,
        after: &Self,
        path: Seq<char>,
        schema: RecordSchemaView,
        made: Result<ParquetWriter, ErrorView>,
    ) -> bool {
        made is Ok && *after == *self
    }

    fn file_name(&self, form_name: String) -> (r: String) {
        let mut r = form_name;
        r.append(".parquet");
        proof {
            reveal_strlit(".parquet");
            assert(".parquet"@ =~= seq!['.'] + seq!['p', 'a', 'r', 'q', 'u', 'e', 't']);
            assert(r@ =~= form_name@ + seq!['.'] + seq!['p', 'a', 'r', 'q', 'u', 'e', 't']);
        }
        r
    }

    fn make(&mut self, path: &str, schema: &RecordSchema) -> (r: Result<ParquetWriter, Error>)
        ensures
            *final(self) == *old(self),
            r is Ok,
    {
        let batch_size = match self.max_row_group_size {
            Some(n) => n,
            None => DEFAULT_BATCH_SIZE,
        };
        Ok(ParquetWriter::new(path, schema, batch_size))
    }
}

/// Writes the records of a filing as columnar files: for each kind of
/// record a file of its own in one directory, named by the code of the
/// record with hyphens for slashes, with the extension `parquet`.
pub struct ParquetProcessor {
    writer: MultiRecordWriter<MultiFileRecordWriterFactory<ParquetWriterFactory>>,
}

impl ParquetProcessor {
    /// The dispatcher that holds the writers.
    pub closed spec fn writers(&self) -> MultiRecordWriter<
        MultiFileRecordWriterFactory<ParquetWriterFactory>,
    > {
        self.writer
    }

    /// A processor that writes to files in the directory `out_dir`, in
    /// batches of `writer_props` rows, or of the usual number for `None`.
    pub fn new(out_dir: String, writer_props: Option<usize>) -> (p: Self)
        ensures
            p.writers().wf(),
            p.writers().entries().len() == 0,
            p.writers().written() == Seq::<RecordView>::empty(),
            p.writers().factory().base_path() == out_dir@,
            p.writers().factory().inner().max_row_group_size == writer_props,
    {
        let factory = ParquetWriterFactory { max_row_group_size: writer_props };
        let f2 = MultiFileRecordWriterFactory::new(out_dir, factory);
        let writer = MultiRecordWriter::new(f2);
        Self { writer }
    }

    /// The number of files written to.
    pub fn len(&self) -> (n: usize)
        ensures
            n == self.writers().entries().len(),
    {
        self.writer.len()
    }

    /// The writer of the file at a position, in the order in which the
    /// files were begun.
    pub fn writer(&self, i: usize) -> (w: &ParquetWriter)
        requires
            i < self.writers().entries().len(),
        ensures
            *w == self.writers().entries()[i as int].1,
    {
        self.writer.writer(i)
    }

    /// Take, from the writer of the file at a position, the batches handed
    /// on since they were last taken.
    pub fn take_batches(&mut self, i: usize) -> (batches: Vec<RecordBatch>)
        requires
            old(self).writers().wf(),
            i < old(self).writers().entries().len(),
        ensures
            final(self).writers().wf(),
            batch_rows(batches@) == old(self).writers().entries()[i as int].1.ready(),
            final(self).writers().codes() == old(self).writers().codes(),
            final(self).writers().logs() == old(self).writers().logs(),
            final(self).writers().written() == old(self).writers().written(),
            final(self).writers().entries().len() == old(self).writers().entries().len(),
    {
        let ghost before = self.writer.entries();
        let writer = self.writer.writer_mut(i);
        let batches = writer.take_batches();
        proof {
            let after = self.writer.entries();
            assert(self.writer.codes() =~= old(self).writer.codes());
            assert(self.writer.logs() =~= old(self).writer.logs());
            assert forall|k: int| 0 <= k < after.len() implies (#[trigger] after[k]).1.writer_inv() by {
                if k != i {
                    assert(after[k] == before[k]);
                }
            }
        }
        batches
    }

    /// Write every record of a filing: decode the header and the cover,
    /// then read line after line, make a record of each under the coercing
    /// policy, and hand it to the writer for its schema; at the end,
    /// finish the writers. Returns at the first error.
    ///
    /// A line that can be read and be made into a record ends the writing
    /// only where the writer for its code refuses the record: because the
    /// writer was finished, because the record does not fit its schema, or
    /// because it has no room for another row. The error says which.
    pub fn process(&mut self, fec: &mut FecFile, registry: &mut SchemaRegistry) -> (r: Result<
        (),
        Error,
    >)
        requires
            old(self).writers().wf(),
            old(fec).wf(),
        ensures
            final(self).writers().wf(),
            final(fec).wf(),
            final(registry).mappings() == old(registry).mappings(),
            r is Ok ==> final(self).writers().finished(),
            written_some(
                old(fec)@,
                final(fec)@,
                old(registry).mappings(),
                old(registry).cached(),
                final(registry).cached(),
                old(self).writers(),
                final(self).writers(),
                r,
            ),
    {
        let r = write_all(&mut self.writer, fec, registry);
        r
    }
}

/// The writers of columnar files refuse a record exactly where the writer
/// for its code was finished, or the record does not fit the schema of
/// that writer, or that writer has no room for another row; the error says
/// which. A record whose writer is yet to be made is refused exactly where
/// it does not fit its own schema.
pub proof fn lemma_columnar_refusal(
    before: MultiRecordWriter<MultiFileRecordWriterFactory<ParquetWriterFactory>>,
    after: MultiRecordWriter<MultiFileRecordWriterFactory<ParquetWriterFactory>>,
    record: RecordView,
    r: Result<(), ErrorView>,
)
    requires
        before.wrote(&after, record, r),
    ensures
        ({
            let i = first_index(before.codes(), record.schema.code) as int;
            if i < before.entries().len() {
                r == refusal(
                    before.entries()[i].1.is_closed(),
                    fits(before.entries()[i].1.schema(), record),
                    before.entries()[i].1.gathered().len() < usize::MAX,
                )
            } else {
                r == refusal(false, fits(record.schema, record), true)
            }
        }),
{
    let n = before.entries().len() as int;
    let i = first_index(before.codes(), record.schema.code) as int;
    if i >= n && after.entries().len() != n {
        let made = choose|made: ParquetWriter|
            {
                &&& before.factory().fresh(&made, record.schema)
                &&& before.factory().made(&after.factory(), record.schema, Ok(made))
                &&& made.written() == Seq::<RecordView>::empty()
                &&& #[trigger] made.wrote(&after.entries()[n].1, record, r)
            };
        assert(made.wrote(&after.entries()[n].1, record, r));
    }
}

} // verus!
