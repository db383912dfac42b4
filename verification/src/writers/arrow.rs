//! Gathering records into batches of typed columns.

use crate::error::{Error, ErrorView};
use crate::fec::{unit_result, FecFile, FecFileView};
use crate::record::{
    FieldSchema, FieldSchemaView, Record, RecordSchema, RecordSchemaView, RecordView, Value,
    ValueType, ValueView,
};
use crate::csv::RawLine;
use crate::schemas::lookup::{CacheEntryView, Mappings, SchemaRegistry};
use crate::schemas::parse::{CoercingLineParser, LineParser};
use crate::text::first_index;
use crate::writers::base::{
    cached_through, coerced_record, records_of, refused, MultiRecordWriter, RecordWriter,
    RecordWriterFactory,
};
use vstd::prelude::*;
use vstd::string::StringExecFns;

verus! {

/// The type of a column of a batch.
#[derive(Debug, Clone, Copy, PartialEq, Eq, Structural)]
pub enum ArrowType {
    /// Text.
    Utf8,
    /// Signed integers of 64 bits.
    Int64,
    /// Floating-point numbers of 64 bits.
    Float64,
    /// Dates, as days.
    Date32,
    /// Truth values.
    Boolean,
}

/// The type of the column for values of a type.
pub open spec fn arrow_type(vt: ValueType) -> ArrowType {
    match vt {
        ValueType::String => ArrowType::Utf8,
        ValueType::Integer => ArrowType::Int64,
        ValueType::Float => ArrowType::Float64,
        ValueType::Date => ArrowType::Date32,
        ValueType::Boolean => ArrowType::Boolean,
    }
}

/// Convert a [`ValueType`] into the type of its column.
pub fn value_type_to_arrow_type(vt: &ValueType) -> (t: ArrowType)
    ensures
        t == arrow_type(*vt),
{
    match vt {
        ValueType::String => ArrowType::Utf8,
        ValueType::Integer => ArrowType::Int64,
        ValueType::Float => ArrowType::Float64,
        ValueType::Date => ArrowType::Date32,
        ValueType::Boolean => ArrowType::Boolean,
    }
}

/// A column of a batch: its name, its type, and whether values may be
/// absent.
#[derive(Debug)]
pub struct ArrowField {
    pub name: String,
    pub data_type: ArrowType,
    pub nullable: bool,
}

/// What an [`ArrowField`] holds, as mathematical data.
pub struct ArrowFieldView {
    pub name: Seq<char>,
    pub data_type: ArrowType,
    pub nullable: bool,
}

impl View for ArrowField {
    type V = ArrowFieldView;

    open spec fn view(&self) -> ArrowFieldView {
        ArrowFieldView { name: self.name@, data_type: self.data_type, nullable: self.nullable }
    }
}

/// The column for a field: under its name, of the type of its values, and
/// with absent values allowed.
pub open spec fn arrow_field(fs: FieldSchemaView) -> ArrowFieldView {
    ArrowFieldView { name: fs.name, data_type: arrow_type(fs.typ), nullable: true }
}

/// Convert a [`FieldSchema`] into its column.
pub fn field_schema_to_arrow_field(fs: &FieldSchema) -> (f: ArrowField)
    ensures
        f@ == arrow_field(fs@),
{
    ArrowField { name: fs.name.clone(), data_type: value_type_to_arrow_type(&fs.typ), nullable: true }
}

/// The columns of a batch.
#[derive(Debug)]
pub struct ArrowSchema {
    pub fields: Vec<ArrowField>,
}

impl View for ArrowSchema {
    type V = Seq<ArrowFieldView>;

    open spec fn view(&self) -> Seq<ArrowFieldView> {
        self.fields@.map_values(|f: ArrowField| f@)
    }
}

/// The columns for the fields of a schema, by position.
pub open spec fn arrow_schema(rs: RecordSchemaView) -> Seq<ArrowFieldView> {
    rs.fields.map_values(|f: FieldSchemaView| arrow_field(f))
}

/// Convert a [`RecordSchema`] into the columns of its batches.
pub fn record_schema_to_arrow_schema(rs: &RecordSchema) -> (schema: ArrowSchema)
    ensures
        schema@ == arrow_schema(rs@),
{
    let mut fields: Vec<ArrowField> = Vec::new();
    let mut i: usize = 0;
    while i < rs.fields.len()
        invariant
            i <= rs.fields.len(),
            fields.len() == i,
            forall|k: int| 0 <= k < i ==> (#[trigger] fields@[k])@ == arrow_field(rs.fields@[k]@),
        decreases rs.fields.len() - i,
    {
        fields.push(field_schema_to_arrow_field(&rs.fields[i]));
        i += 1;
    }
    let schema = ArrowSchema { fields };
    assert(schema@ =~= arrow_schema(rs@));
    schema
}

/// The cell of a table of columns at a row and a column.
pub open spec fn cell(columns: Seq<Vec<Value>>, row: int, column: int) -> ValueView {
    columns[column]@[row]@
}

/// The rows of a table of columns that all have `n` values.
pub open spec fn rows_of(columns: Seq<Vec<Value>>, n: int) -> Seq<Seq<ValueView>> {
    Seq::new(n as nat, |r: int| Seq::new(columns.len(), |c: int| cell(columns, r, c)))
}

/// Whether every column of a table has `n` values.
pub open spec fn rectangular(columns: Seq<Vec<Value>>, n: int) -> bool {
    forall|c: int| 0 <= c < columns.len() ==> (#[trigger] columns[c])@.len() == n
}

/// Rows of typed values, held column by column.
#[derive(Debug)]
pub struct RecordBatch {
    /// The columns: their names and types.
    pub schema: ArrowSchema,
    /// The values, column by column. All columns have one length.
    pub columns: Vec<Vec<Value>>,
    /// The number of rows.
    pub num_rows: usize,
}

impl RecordBatch {
    /// The rows of the batch: for each row the values of its columns.
    pub open spec fn rows(&self) -> Seq<Seq<ValueView>> {
        rows_of(self.columns@, self.num_rows as int)
    }

    /// The batch has a column of values for each column of its schema,
    /// and all columns have the length of the batch.
    pub open spec fn wf(&self) -> bool {
        &&& self.columns@.len() == self.schema@.len()
        &&& rectangular(self.columns@, self.num_rows as int)
    }
}

/// Whether a writer for a schema takes a record: the record has the code
/// of the schema, and one value of the right type for each field.
pub open spec fn fits(schema: RecordSchemaView, record: RecordView) -> bool {
    &&& record.schema.code == schema.code
    &&& record.values.len() == schema.fields.len()
    &&& forall|c: int|
        0 <= c < schema.fields.len() ==> (#[trigger] record.values[c]).typ() == schema.fields[c].typ
}

/// The values of records, record by record.
pub open spec fn values_of(records: Seq<RecordView>) -> Seq<Seq<ValueView>> {
    records.map_values(|r: RecordView| r.values)
}

/// A [`RecordWriter`] that gathers records into batches of typed columns.
///
/// It is of no use by itself: take the batches and write them somewhere.
pub struct RecordBatchWriter {
    feco3_schema: RecordSchema,
    builders: Vec<Vec<Value>>,
    rows: usize,
    built: Ghost<int>,
    log: Ghost<Seq<RecordView>>,
}

/// One empty column for each field of a schema.
fn builders_from_schema(schema: &ArrowSchema, capacity: usize) -> (builders: Vec<Vec<Value>>)
    ensures
        builders@.len() == schema@.len(),
        rectangular(builders@, 0),
{
    let mut builders: Vec<Vec<Value>> = Vec::new();
    let mut i: usize = 0;
    while i < schema.fields.len()
        invariant
            i <= schema.fields.len(),
            builders.len() == i,
            forall|c: int| 0 <= c < i ==> (#[trigger] builders@[c])@.len() == 0,
        decreases schema.fields.len() - i,
    {
        builders.push(Vec::new());
        i += 1;
    }
    builders
}

/// Add a value at the end of a column.
fn append_value_to_builder(builder: &mut Vec<Value>, val: &Value)
    ensures
        final(builder)@.len() == old(builder)@.len() + 1,
        forall|r: int| 0 <= r < old(builder)@.len() ==> final(builder)@[r] == old(builder)@[r],
        final(builder)@[old(builder)@.len() as int]@ == val@,
{
    builder.push(val.clone());
}

impl RecordBatchWriter {
    /// The schema whose records the writer takes.
    pub closed spec fn schema(&self) -> RecordSchemaView {
        self.feco3_schema@
    }

    /// The rows gathered since the last batch was built.
    pub closed spec fn rows(&self) -> Seq<Seq<ValueView>> {
        rows_of(self.builders@, self.rows as int)
    }

    /// The number of records that were handed out in batches.
    pub closed spec fn handed(&self) -> nat {
        self.built@ as nat
    }

    /// There is a column for each field of the schema, all columns have
    /// one length, and the rows gathered are the values of the records
    /// written since the last batch was built.
    pub closed spec fn wf(&self) -> bool {
        &&& self.builders@.len() == self.feco3_schema@.fields.len()
        &&& rectangular(self.builders@, self.rows as int)
        &&& 0 <= self.built@ <= self.log@.len()
        &&& self.rows == self.log@.len() - self.built@
        &&& forall|r: int|
            0 <= r < self.rows ==> fits(self.feco3_schema@, #[trigger] self.log@[self.built@ + r])
        &&& forall|r: int, c: int|
            0 <= r < self.rows && 0 <= c < self.builders@.len() ==> #[trigger] cell(
                self.builders@,
                r,
                c,
            ) == self.log@[self.built@ + r].values[c]
    }

    /// The rows gathered are the values of the records written since the
    /// last batch was built.
    pub proof fn lemma_rows(&self)
        requires
            self.wf(),
        ensures
            self.handed() + self.rows().len() == self.written().len(),
            self.rows() == values_of(self.written().skip(self.handed() as int)),
    {
        let tail = self.log@.skip(self.built@);
        assert forall|r: int| 0 <= r < self.rows implies #[trigger] self.rows()[r] == values_of(
            tail,
        )[r] by {
            assert(tail[r] == self.log@[self.built@ + r]);
            assert(fits(self.feco3_schema@, self.log@[self.built@ + r]));
            assert forall|c: int| 0 <= c < self.builders@.len() implies self.rows()[r][c]
                == tail[r].values[c] by {
                assert(cell(self.builders@, r, c) == self.log@[self.built@ + r].values[c]);
            }
            assert(self.rows()[r] =~= tail[r].values);
        }
        assert(self.rows() =~= values_of(tail));
    }

    /// A writer for the records of a schema, with nothing gathered.
    pub fn new(feco3_schema: RecordSchema, capacity: usize) -> (w: Self)
        ensures
            w.wf(),
            w.schema() == feco3_schema@,
            w.rows() == Seq::<Seq<ValueView>>::empty(),
            w.written() == Seq::<RecordView>::empty(),
            w.handed() == 0,
    {
        let schema = record_schema_to_arrow_schema(&feco3_schema);
        let builders = builders_from_schema(&schema, capacity);
        let w = Self { feco3_schema, builders, rows: 0, built: Ghost(0), log: Ghost(Seq::empty()) };
        assert(w.rows() =~= Seq::<Seq<ValueView>>::empty());
        w
    }

    /// Build and return the batch of the rows gathered, and start anew.
    pub fn build_batch(&mut self) -> (batch: RecordBatch)
        requires
            old(self).wf(),
        ensures
            final(self).wf(),
            batch.wf(),
            batch.schema@ == arrow_schema(old(self).schema()),
            batch.rows() == old(self).rows(),
            final(self).rows() == Seq::<Seq<ValueView>>::empty(),
            final(self).written() == old(self).written(),
            final(self).schema() == old(self).schema(),
            final(self).handed() == old(self).written().len(),
    {
        let schema = record_schema_to_arrow_schema(&self.feco3_schema);
        let mut columns = builders_from_schema(&schema, 0);
        std::mem::swap(&mut columns, &mut self.builders);
        let num_rows = self.rows;
        self.rows = 0;
        proof {
            self.built@ = self.log@.len() as int;
            assert(self.rows() =~= Seq::<Seq<ValueView>>::empty());
        }
        RecordBatch { schema, columns, num_rows }
    }

    /// The number of rows gathered since the last batch was built.
    pub fn len(&self) -> (n: usize)
        ensures
            n == self.rows().len(),
    {
        self.rows
    }

    /// Whether the writer takes a record.
    pub fn accepts(&self, record: &Record) -> (b: bool)
        requires
            self.wf(),
        ensures
            b == fits(self.schema(), record@),
    {
        if !record.schema.same_code(&self.feco3_schema) {
            return false;
        }
        if record.values.len() != self.feco3_schema.fields.len() {
            return false;
        }
        let mut c: usize = 0;
        while c < record.values.len()
            invariant
                c <= record.values.len(),
                record.values.len() == self.feco3_schema.fields.len(),
                forall|k: int|
                    0 <= k < c ==> (#[trigger] record@.values[k]).typ()
                        == self.feco3_schema@.fields[k].typ,
            decreases record.values.len() - c,
        {
            assert(record@.values[c as int] == record.values@[c as int]@);
            assert(self.feco3_schema@.fields[c as int] == self.feco3_schema.fields@[c as int]@);
            if record.values[c].typ() != self.feco3_schema.fields[c].typ {
                return false;
            }
            c += 1;
        }
        true
    }
}

/// The message of the error for a record that a writer does not take.
pub open spec fn msg_mismatch() -> Seq<char> {
    "record schema does not match writer schema"@
}

/// The message of the error for a writer that can gather no more rows.
pub open spec fn msg_full() -> Seq<char> {
    "too many records in one batch"@
}

impl RecordWriter for RecordBatchWriter {
    open spec fn writer_inv(&self) -> bool {
        self.wf()
    }

    closed spec fn written(&self) -> Seq<RecordView> {
        self.log@
    }

    /// Finishing hands nothing on: the rows that a batch writer has
    /// gathered leave it only in the batches that are built of them, so it
    /// never holds back what finishing would hand on.
    open spec fn finished(&self) -> bool {
        true
    }

    /// A record is accepted where it fits the schema and there is room
    /// for it; it is then the last of the rows gathered. Otherwise the
    /// error says which of the two it was, and nothing changes. Nothing is
    /// handed out.
    open spec fn wrote(&self, after: &Self, record: RecordView, r: Result<(), ErrorView>) -> bool {
        &&& after.schema() == self.schema()
        &&& after.handed() == self.handed()
        &&& r == if !fits(self.schema(), record) {
            Err::<(), ErrorView>(ErrorView::IoError(msg_mismatch()))
        } else if self.rows().len() >= usize::MAX {
            Err::<(), ErrorView>(ErrorView::IoError(msg_full()))
        } else {
            Ok::<(), ErrorView>(())
        }
        &&& after.rows() == if r is Ok {
            self.rows().push(record.values)
        } else {
            self.rows()
        }
    }

    /// Finishing always goes well and changes nothing: the rows gathered
    /// stay gathered until a batch is built of them.
    open spec fn closes(&self, after: &Self, r: Result<(), ErrorView>) -> bool {
        &&& r is Ok
        &&& after.schema() == self.schema()
        &&& after.handed() == self.handed()
        &&& after.rows() == self.rows()
    }

    fn write_record(&mut self, record: &Record) -> (r: Result<(), Error>) {
        if !self.accepts(record) {
            return Err(
                Error::IoError(String::from_str("record schema does not match writer schema")),
            );
        }
        if self.rows == usize::MAX {
            return Err(Error::IoError(String::from_str("too many records in one batch")));
        }
        let n = record.values.len();
        let mut i: usize = 0;
        while i < n
            invariant
                i <= n,
                n == record.values.len(),
                n == self.builders@.len(),
                self.rows == old(self).rows,
                self.built == old(self).built,
                self.log == old(self).log,
                self.feco3_schema == old(self).feco3_schema,
                old(self).wf(),
                forall|c: int| 0 <= c < i ==> (#[trigger] self.builders@[c])@.len() == self.rows + 1,
                forall|c: int| i <= c < n ==> (#[trigger] self.builders@[c])@.len() == self.rows,
                forall|r: int, c: int|
                    0 <= r < self.rows && 0 <= c < n ==> #[trigger] cell(self.builders@, r, c)
                        == cell(old(self).builders@, r, c),
                forall|c: int|
                    0 <= c < i ==> #[trigger] cell(self.builders@, self.rows as int, c)
                        == record@.values[c],
            decreases n - i,
        {
            let ghost before = self.builders@;
            append_value_to_builder(&mut self.builders[i], &record.values[i]);
            proof {
                assert(record@.values[i as int] == record.values@[i as int]@);
                assert forall|r: int, c: int| 0 <= r < self.rows && 0 <= c < n implies #[trigger] cell(
                    self.builders@,
                    r,
                    c,
                ) == cell(old(self).builders@, r, c) by {
                    assert(cell(before, r, c) == cell(old(self).builders@, r, c));
                    if c != i {
                        assert(self.builders@[c] == before[c]);
                    }
                }
                assert forall|c: int| 0 <= c < i + 1 implies #[trigger] cell(
                    self.builders@,
                    self.rows as int,
                    c,
                ) == record@.values[c] by {
                    if c != i {
                        assert(self.builders@[c] == before[c]);
                        assert(cell(before, self.rows as int, c) == record@.values[c]);
                    }
                }
                assert forall|c: int| 0 <= c < i + 1 implies (#[trigger] self.builders@[c])@.len()
                    == self.rows + 1 by {
                    if c != i {
                        assert(self.builders@[c] == before[c]);
                    }
                }
                assert forall|c: int| i + 1 <= c < n implies (#[trigger] self.builders@[c])@.len()
                    == self.rows by {
                    assert(self.builders@[c] == before[c]);
                }
            }
            i += 1;
        }
        self.rows = self.rows + 1;
        proof {
            self.log@ = self.log@.push(record@);
            let last = old(self).rows as int;
            assert forall|r: int| 0 <= r < self.rows implies fits(
                self.feco3_schema@,
                #[trigger] self.log@[self.built@ + r],
            ) by {
                if r < last {
                    assert(self.log@[self.built@ + r] == old(self).log@[self.built@ + r]);
                }
            }
            assert forall|r: int, c: int|
                0 <= r < self.rows && 0 <= c < self.builders@.len() implies #[trigger] cell(
                self.builders@,
                r,
                c,
            ) == self.log@[self.built@ + r].values[c] by {
                if r < last {
                    assert(cell(self.builders@, r, c) == cell(old(self).builders@, r, c));
                    assert(self.log@[self.built@ + r] == old(self).log@[self.built@ + r]);
                }
            }
            assert forall|r: int| 0 <= r < self.rows implies #[trigger] self.rows()[r] == old(
                self,
            ).rows().push(record@.values)[r] by {
                if r < last {
                    assert forall|c: int| 0 <= c < n implies self.rows()[r][c] == old(
                        self,
                    ).rows()[r][c] by {
                        assert(cell(self.builders@, r, c) == cell(old(self).builders@, r, c));
                    }
                    assert(self.rows()[r] =~= old(self).rows()[r]);
                } else {
                    assert(self.rows()[r] =~= record@.values);
                }
            }
            assert(self.rows() =~= old(self).rows().push(record@.values));
        }
        Ok(())
    }

    fn finish(&mut self) -> (r: Result<(), Error>) {
        Ok(())
    }
}

/// The factory of the writers that gather batches.
pub struct RecordBatchWriterFactory {
    capacity: usize,
}

impl RecordBatchWriterFactory {
    /// The number of rows that a batch is meant to hold.
    pub closed spec fn capacity(&self) -> usize {
        self.capacity
    }

    /// A factory of writers whose batches are meant to hold `capacity` rows.
    pub fn new(capacity: usize) -> (f: Self)
        ensures
            f.capacity() == capacity,
    {
        Self { capacity }
    }
}

impl RecordWriterFactory for RecordBatchWriterFactory {
    type Writer = RecordBatchWriter;

    open spec fn factory_inv(&self) -> bool {
        true
    }

    open spec fn fresh(&self, writer: &RecordBatchWriter, schema: RecordSchemaView) -> bool {
        &&& writer.schema() == schema
        &&& writer.rows() == Seq::<Seq<ValueView>>::empty()
        &&& writer.handed() == 0
    }

    /// A writer is always made, and the factory stays as it is.
    open spec fn made(
        &self,
        after: &Self,
        schema: RecordSchemaView,
        made: Result<RecordBatchWriter, ErrorView>,
    ) -> bool {
        made is Ok && after.capacity() == self.capacity()
    }

    fn make_writer(&mut self, schema: &RecordSchema) -> (r: Result<RecordBatchWriter, Error>)
        ensures
            final(self).capacity() == old(self).capacity(),
            r is Ok,
    {
        Ok(RecordBatchWriter::new(schema.clone(), self.capacity))
    }
}

/// The number of records that the writer at a position had handed out in
/// batches; none for a writer that was not there yet.
pub open spec fn handed_before(entries: Seq<(RecordSchema, RecordBatchWriter)>, j: int) -> nat {
    if 0 <= j < entries.len() {
        entries[j].1.handed()
    } else {
        0
    }
}

/// Whether a batch was taken from the writer at position `i`: the batch
/// has the columns of the writer's schema and holds, as its rows, the
/// values of the records that the writer has written and had not handed
/// out, of which there is at least one. These are now handed out; no
/// other writer has handed out anything.
pub open spec fn batch_taken(
    batch: RecordBatch,
    before: Seq<(RecordSchema, RecordBatchWriter)>,
    after: MultiRecordWriter<RecordBatchWriterFactory>,
    i: int,
) -> bool {
    let entries = after.entries();
    let from = handed_before(before, i);
    &&& 0 <= i < entries.len()
    &&& batch.wf()
    &&& batch.schema@ == arrow_schema(entries[i].1.schema())
    &&& from < after.logs()[i].len()
    &&& batch.rows() == values_of(after.logs()[i].skip(from as int))
    &&& entries[i].1.handed() == after.logs()[i].len()
    &&& forall|j: int|
        0 <= j < entries.len() && j != i ==> (#[trigger] entries[j]).1.handed() == handed_before(
            before,
            j,
        )
}

/// Whether no writer has handed out anything.
pub open spec fn none_taken(
    before: Seq<(RecordSchema, RecordBatchWriter)>,
    after: MultiRecordWriter<RecordBatchWriterFactory>,
) -> bool {
    forall|j: int|
        0 <= j < after.entries().len() ==> (#[trigger] after.entries()[j]).1.handed()
            == handed_before(before, j)
}

/// Whether the writers before position `i` have handed out all that they
/// have written.
pub open spec fn all_handed(after: MultiRecordWriter<RecordBatchWriterFactory>, i: int) -> bool {
    forall|j: int|
        0 <= j < i && j < after.entries().len() ==> (#[trigger] after.entries()[j]).1.handed()
            == after.logs()[j].len()
}

/// What asking for the next batch does, where `k` lines were written as
/// records.
///
/// The header and the cover are decoded first; their error is returned
/// with nothing written. Then the pending lines are read in order, and
/// each becomes a record under the coercing policy and is written. This
/// ends when the writer of record `k` has gathered as many rows as a batch
/// is to hold: its batch is handed out. At the end of the filing the batch
/// of the first writer that has rows left is handed out, or nothing where
/// none has. An error of line `k` ends it too: the line could not be read,
/// or not be made into a record, and that error is returned; or its writer
/// refused the record, because the record does not fit the writer's schema
/// or the writer has no room, and that error is returned.
pub open spec fn batched_through(
    before: FecFileView,
    after: FecFileView,
    mappings: Mappings,
    cached: Seq<CacheEntryView>,
    new_cached: Seq<CacheEntryView>,
    writers: MultiRecordWriter<RecordBatchWriterFactory>,
    new_writers: MultiRecordWriter<RecordBatchWriterFactory>,
    max_batch_size: usize,
    k: int,
    r: Result<Option<RecordBatch>, Error>,
) -> bool {
    let s = before.with_cover(mappings, cached);
    match s.result {
        Err(e) => {
            &&& k == 0
            &&& r is Err
            &&& r->Err_0@ == e
            &&& after == s.file
            &&& new_cached == s.cached
            &&& new_writers.written() == writers.written()
            &&& none_taken(writers.entries(), new_writers)
        },
        Ok(_) => {
            let lines = s.file.pending->0;
            let version = s.file.header->0.header.fec_version;
            let exhausted = FecFileView {
                pending: Some(Seq::<RawLine>::empty()),
                done: true,
                ..s.file
            };
            &&& 0 <= k <= lines.len()
            &&& forall|j: int|
                0 <= j < k ==> (#[trigger] lines[j]) is Ok && coerced_record(
                    mappings,
                    version,
                    lines[j]->Ok_0,
                ) is Ok
            &&& new_writers.written() == writers.written() + records_of(
                mappings,
                version,
                lines,
                k,
            )
            &&& match r {
                Ok(None) => {
                    &&& k == lines.len()
                    &&& after == exhausted
                    &&& new_cached == cached_through(mappings, s.cached, version, lines, k)
                    &&& none_taken(writers.entries(), new_writers)
                    &&& all_handed(new_writers, new_writers.entries().len() as int)
                },
                Ok(Some(batch)) => {
                    &&& new_cached == cached_through(mappings, s.cached, version, lines, k)
                    &&& if after == exhausted {
                        &&& k == lines.len()
                        &&& leftover_taken(batch, writers.entries(), new_writers)
                    } else {
                        &&& k >= 1
                        &&& after == (FecFileView { pending: Some(lines.skip(k)), ..s.file })
                        &&& batch.rows().len() >= max_batch_size
                        &&& batch_taken(
                            batch,
                            writers.entries(),
                            new_writers,
                            first_index(new_writers.codes(), lines[k - 1]->Ok_0[0]) as int,
                        )
                    }
                },
                Err(e) => {
                    &&& k < lines.len()
                    &&& after == (FecFileView { pending: Some(lines.skip(k + 1)), ..s.file })
                    &&& new_cached == cached_through(mappings, s.cached, version, lines, k + 1)
                    &&& none_taken(writers.entries(), new_writers)
                    &&& match lines[k] {
                        Err(message) => e@ == ErrorView::RecordParseError(message),
                        Ok(line) => match coerced_record(mappings, version, line) {
                            Err(x) => e@ == x,
                            Ok(record) => refused(new_writers.written(), new_writers, record, e@),
                        },
                    }
                },
            }
        },
    }
}

/// Whether a batch was taken from the first writer that had rows left.
pub open spec fn leftover_taken(
    batch: RecordBatch,
    before: Seq<(RecordSchema, RecordBatchWriter)>,
    after: MultiRecordWriter<RecordBatchWriterFactory>,
) -> bool {
    exists|i: int| #[trigger] batch_taken(batch, before, after, i) && all_handed(after, i)
}

/// What asking for the next batch does: some number of lines were written
/// as records, and then a batch was handed out, or the filing ended, or an
/// error ended the writing.
pub open spec fn batched(
    before: FecFileView,
    after: FecFileView,
    mappings: Mappings,
    cached: Seq<CacheEntryView>,
    new_cached: Seq<CacheEntryView>,
    writers: MultiRecordWriter<RecordBatchWriterFactory>,
    new_writers: MultiRecordWriter<RecordBatchWriterFactory>,
    max_batch_size: usize,
    r: Result<Option<RecordBatch>, Error>,
) -> bool {
    exists|k: int|
        batched_through(
            before,
            after,
            mappings,
            cached,
            new_cached,
            writers,
            new_writers,
            max_batch_size,
            k,
            r,
        )
}

/// Reads the records of a filing into batches of typed columns, one kind
/// of record in each batch.
pub struct RecordBatchProcessor {
    multi_writer: MultiRecordWriter<RecordBatchWriterFactory>,
    max_batch_size: usize,
}

impl RecordBatchProcessor {
    /// The dispatcher that holds the writers.
    pub closed spec fn writers(&self) -> MultiRecordWriter<RecordBatchWriterFactory> {
        self.multi_writer
    }

    /// The number of rows at which a batch is handed out.
    pub closed spec fn max_batch_size(&self) -> usize {
        self.max_batch_size
    }

    /// A processor that hands out a batch when it holds `max_batch_size` rows.
    pub fn new(max_batch_size: usize) -> (p: Self)
        ensures
            p.writers().wf(),
            p.writers().entries().len() == 0,
            p.writers().written() == Seq::<RecordView>::empty(),
            p.max_batch_size() == max_batch_size,
    {
        let factory = RecordBatchWriterFactory::new(max_batch_size);
        Self { multi_writer: MultiRecordWriter::new(factory), max_batch_size }
    }

    /// Build the batch of the writer at a position.
    fn build_at(&mut self, i: usize) -> (batch: RecordBatch)
        requires
            old(self).writers().wf(),
            i < old(self).writers().entries().len(),
            old(self).writers().entries()[i as int].1.rows().len() >= 1,
        ensures
            final(self).writers().wf(),
            final(self).max_batch_size() == old(self).max_batch_size(),
            final(self).writers().codes() == old(self).writers().codes(),
            final(self).writers().logs() == old(self).writers().logs(),
            final(self).writers().written() == old(self).writers().written(),
            batch_taken(batch, old(self).writers().entries(), final(self).writers(), i as int),
            batch.rows() == old(self).writers().entries()[i as int].1.rows(),
    {
        let ghost before = self.multi_writer.entries();
        proof {
            before[i as int].1.lemma_rows();
            assert(self.multi_writer.logs()[i as int] == before[i as int].1.written());
        }
        let writer = self.multi_writer.writer_mut(i);
        let batch = writer.build_batch();
        proof {
            let after = self.multi_writer.entries();
            assert(self.multi_writer.codes() =~= old(self).multi_writer.codes());
            assert(self.multi_writer.logs() =~= old(self).multi_writer.logs());
            assert forall|k: int| 0 <= k < after.len() implies (#[trigger] after[k]).1.writer_inv() by {
                if k != i {
                    assert(after[k] == before[k]);
                }
            }
            assert forall|j: int| 0 <= j < after.len() && j != i implies (#[trigger] after[j]).1.handed()
                == handed_before(before, j) by {
                assert(after[j] == before[j]);
            }
        }
        batch
    }

    /// The batch of the first writer that has gathered any rows.
    pub fn get_leftover_batch(&mut self) -> (r: Option<RecordBatch>)
        requires
            old(self).writers().wf(),
        ensures
            final(self).writers().wf(),
            final(self).max_batch_size() == old(self).max_batch_size(),
            final(self).writers().codes() == old(self).writers().codes(),
            final(self).writers().logs() == old(self).writers().logs(),
            final(self).writers().written() == old(self).writers().written(),
            match r {
                Some(batch) => leftover_taken(
                    batch,
                    old(self).writers().entries(),
                    final(self).writers(),
                ),
                None => none_taken(old(self).writers().entries(), final(self).writers())
                    && all_handed(
                    final(self).writers(),
                    final(self).writers().entries().len() as int,
                ),
            },
    {
        let mut i: usize = 0;
        while i < self.multi_writer.len()
            invariant
                *self == *old(self),
                self.writers().wf(),
                i <= self.writers().entries().len(),
                all_handed(self.writers(), i as int),
            decreases self.writers().entries().len() - i,
        {
            proof {
                self.multi_writer.entries()[i as int].1.lemma_rows();
                assert(self.multi_writer.logs()[i as int]
                    == self.multi_writer.entries()[i as int].1.written());
            }
            if self.multi_writer.writer(i).len() > 0 {
                let batch = self.build_at(i);
                proof {
                    assert forall|j: int| 0 <= j < i && j < self.writers().entries().len() implies (
                    #[trigger] self.writers().entries()[j]).1.handed()
                        == self.writers().logs()[j].len() by {
                        assert(old(self).writers().entries()[j].1.handed() == old(
                            self,
                        ).writers().logs()[j].len());
                    }
                    assert(all_handed(self.writers(), i as int));
                    assert(batch_taken(
                        batch,
                        old(self).writers().entries(),
                        self.writers(),
                        i as int,
                    ));
                    assert(leftover_taken(batch, old(self).writers().entries(), self.writers()));
                }
                return Some(batch);
            }
            i += 1;
        }
        None
    }

    /// The next batch of a filing: read and write records until a writer
    /// has gathered the number of rows at which batches are handed out,
    /// and hand out its batch; at the end of the filing, hand out what is
    /// left over, one batch at a call, and then nothing.
    #[verifier::rlimit(80)]
    pub fn next_batch(&mut self, fec: &mut FecFile, registry: &mut SchemaRegistry) -> (r: Result<
        Option<RecordBatch>,
        Error,
    >)
        requires
            old(self).writers().wf(),
            old(fec).wf(),
        ensures
            final(self).writers().wf(),
            final(self).max_batch_size() == old(self).max_batch_size(),
            final(fec).wf(),
            final(registry).mappings() == old(registry).mappings(),
            batched(
                old(fec)@,
                final(fec)@,
                old(registry).mappings(),
                old(registry).cached(),
                final(registry).cached(),
                old(self).writers(),
                final(self).writers(),
                old(self).max_batch_size(),
                r,
            ),
    {
        let ghost m = registry.mappings();
        let ghost s = fec@.with_cover(m, registry.cached());
        let ghost start = self.multi_writer;
        let ghost written = self.multi_writer.written();
        match fec.get_cover(registry) {
            Err(e) => {
                let r = Err(e);
                assert(none_taken(start.entries(), self.writers()));
                assert(batched_through(
                    old(fec)@,
                    fec@,
                    m,
                    old(registry).cached(),
                    registry.cached(),
                    start,
                    self.writers(),
                    self.max_batch_size,
                    0,
                    r,
                ));
                return r;
            },
            Ok(_) => {},
        }
        proof {
            fec.lemma_view_wf();
            assert(fec@.header is Some);
            assert(fec@ == s.file);
        }
        let fec_version = match fec.get_header(registry) {
            Ok(header) => header.fec_version.clone(),
            Err(e) => {
                assert(false);
                return Err(e);
            },
        };
        let ghost lines = s.file.pending->0;
        let ghost version = s.file.header->0.header.fec_version;
        let ghost k: int = 0;
        let mut parser = CoercingLineParser;
        proof {
            assert(lines.skip(0) =~= lines);
            assert(written + records_of(m, version, lines, 0) =~= written);
        }
        loop
            invariant_except_break
                fec@ == (FecFileView { pending: Some(lines.skip(k)), ..s.file }),
            invariant
                self.writers().wf(),
                s.file.done ==> lines.len() == 0,
                self.max_batch_size() == old(self).max_batch_size(),
                fec.wf(),
                m == old(registry).mappings(),
                registry.mappings() == m,
                s == old(fec)@.with_cover(m, old(registry).cached()),
                start == old(self).writers(),
                written == start.written(),
                s.result is Ok,
                s.file.cover is Some,
                s.file.header is Some,
                s.file.pending == Some(lines),
                version == s.file.header->0.header.fec_version,
                fec_version@ == version,
                0 <= k <= lines.len(),
                forall|j: int|
                    0 <= j < k ==> (#[trigger] lines[j]) is Ok && coerced_record(
                        m,
                        version,
                        lines[j]->Ok_0,
                    ) is Ok,
                self.writers().written() == written + records_of(m, version, lines, k),
                registry.cached() == cached_through(m, s.cached, version, lines, k),
                none_taken(start.entries(), self.writers()),
                self.writers().entries().len() >= start.entries().len(),
            ensures
                k == lines.len(),
                fec@ == (FecFileView {
                    pending: Some(Seq::<RawLine>::empty()),
                    done: true,
                    ..s.file
                }),
            decreases lines.len() - k,
        {
            let ghost left = lines.skip(k);
            let line = match fec.next_line(registry) {
                None => {
                    assert(left =~= Seq::<RawLine>::empty());
                    break;
                },
                Some(Err(e)) => {
                    let r = Err(e);
                    proof {
                        assert(left[0] == lines[k]);
                        assert(left.drop_first() == lines.skip(k + 1));
                        assert(batched_through(
                            old(fec)@,
                            fec@,
                            m,
                            old(registry).cached(),
                            registry.cached(),
                            start,
                            self.writers(),
                            self.max_batch_size,
                            k,
                            r,
                        ));
                    }
                    return r;
                },
                Some(Ok(line)) => line,
            };
            proof {
                assert(left[0] == lines[k]);
                assert(left.drop_first() == lines.skip(k + 1));
            }
            let record = match parser.parse_line(registry, fec_version.as_str(), &line) {
                Ok(record) => record,
                Err(e) => {
                    let r = Err(e);
                    assert(batched_through(
                        old(fec)@,
                        fec@,
                        m,
                        old(registry).cached(),
                        registry.cached(),
                        start,
                        self.writers(),
                        self.max_batch_size,
                        k,
                        r,
                    ));
                    return r;
                },
            };
            let ghost mid = self.multi_writer;
            let wrote = self.multi_writer.write_record(&record);
            proof {
                lemma_dispatch_keeps_handed(
                    start.entries(),
                    mid,
                    self.multi_writer,
                    record@,
                    unit_result(wrote),
                );
                if wrote is Err {
                    assert(mid.wrote(
                        &self.multi_writer,
                        record@,
                        Err::<(), ErrorView>(wrote->Err_0@),
                    ));
                    assert(refused(
                        self.multi_writer.written(),
                        self.multi_writer,
                        record@,
                        wrote->Err_0@,
                    ));
                }
            }
            match wrote {
                Ok(_) => {
                    proof {
                        assert(records_of(m, version, lines, k).push(record@) =~= records_of(
                            m,
                            version,
                            lines,
                            k + 1,
                        ));
                        assert((written + records_of(m, version, lines, k)).push(record@)
                            =~= written + records_of(m, version, lines, k + 1));
                        k = k + 1;
                    }
                },
                Err(e) => {
                    let r = Err(e);
                    assert(batched_through(
                        old(fec)@,
                        fec@,
                        m,
                        old(registry).cached(),
                        registry.cached(),
                        start,
                        self.writers(),
                        self.max_batch_size,
                        k,
                        r,
                    ));
                    return r;
                },
            }
            match self.multi_writer.find_writer(record.schema.code.as_str()) {
                Some(i) => {
                    let n = self.multi_writer.writer(i).len();
                    if n >= self.max_batch_size && n >= 1 {
                        let ghost filled = self.multi_writer;
                        let batch = self.build_at(i);
                        let r = Ok(Some(batch));
                        proof {
                            assert(record@.schema.code == lines[k - 1]->Ok_0[0]);
                            assert(batch.rows().len() >= self.max_batch_size);
                            assert(!fec@.done);
                            assert forall|j: int|
                                0 <= j < self.writers().entries().len() && j != i implies (
                            #[trigger] self.writers().entries()[j]).1.handed() == handed_before(
                                start.entries(),
                                j,
                            ) by {
                                assert(self.writers().entries()[j].1.handed() == handed_before(
                                    filled.entries(),
                                    j,
                                ));
                                assert(filled.entries()[j].1.handed() == handed_before(
                                    start.entries(),
                                    j,
                                ));
                            }
                            assert(handed_before(filled.entries(), i as int) == handed_before(
                                start.entries(),
                                i as int,
                            )) by {
                                assert(filled.entries()[i as int].1.handed() == handed_before(
                                    start.entries(),
                                    i as int,
                                ));
                            }
                            assert(batch_taken(batch, start.entries(), self.writers(), i as int));
                            assert(batched_through(
                                old(fec)@,
                                fec@,
                                m,
                                old(registry).cached(),
                                registry.cached(),
                                start,
                                self.writers(),
                                self.max_batch_size,
                                k,
                                r,
                            ));
                        }
                        return r;
                    }
                },
                None => {},
            }
        }
        let ghost ended = self.multi_writer;
        let r = Ok(self.get_leftover_batch());
        proof {
            match r->Ok_0 {
                Some(batch) => {
                    let i = choose|i: int|
                        #[trigger] batch_taken(batch, ended.entries(), self.writers(), i)
                            && all_handed(self.writers(), i);
                    assert(batch_taken(batch, ended.entries(), self.writers(), i) && all_handed(
                        self.writers(),
                        i,
                    ));
                    assert forall|j: int|
                        0 <= j < self.writers().entries().len() && j != i implies (
                    #[trigger] self.writers().entries()[j]).1.handed() == handed_before(
                        start.entries(),
                        j,
                    ) by {
                        assert(self.writers().entries()[j].1.handed() == handed_before(
                            ended.entries(),
                            j,
                        ));
                        assert(ended.entries()[j].1.handed() == handed_before(start.entries(), j));
                    }
                    assert(handed_before(ended.entries(), i) == handed_before(start.entries(), i)) by {
                        assert(ended.entries()[i].1.handed() == handed_before(start.entries(), i));
                    }
                    assert(batch_taken(batch, start.entries(), self.writers(), i));
                    assert(leftover_taken(batch, start.entries(), self.writers()));
                },
                None => {
                    assert forall|j: int| 0 <= j < self.writers().entries().len() implies (
                    #[trigger] self.writers().entries()[j]).1.handed() == handed_before(
                        start.entries(),
                        j,
                    ) by {
                        assert(self.writers().entries()[j].1.handed() == handed_before(
                            ended.entries(),
                            j,
                        ));
                        assert(ended.entries()[j].1.handed() == handed_before(start.entries(), j));
                    }
                },
            }
            assert(batched_through(
                old(fec)@,
                fec@,
                m,
                old(registry).cached(),
                registry.cached(),
                start,
                self.writers(),
                self.max_batch_size,
                k,
                r,
            ));
        }
        r
    }
}

/// Writing a record through the dispatcher hands nothing out: every
/// writer has handed out what it had, and a writer that was made has
/// handed out nothing.
pub proof fn lemma_dispatch_keeps_handed(
    start: Seq<(RecordSchema, RecordBatchWriter)>,
    before: MultiRecordWriter<RecordBatchWriterFactory>,
    after: MultiRecordWriter<RecordBatchWriterFactory>,
    record: RecordView,
    r: Result<(), ErrorView>,
)
    requires
        before.wrote(&after, record, r),
        none_taken(start, before),
        before.entries().len() >= start.len(),
    ensures
        none_taken(start, after),
        after.entries().len() >= before.entries().len(),
{
    let n = before.entries().len() as int;
    let i = first_index(before.codes(), record.schema.code) as int;
    assert forall|j: int| 0 <= j < after.entries().len() implies (
    #[trigger] after.entries()[j]).1.handed() == handed_before(start, j) by {
        if i < n {
            if j != i {
                assert(after.entries()[j] == before.entries()[j]);
            }
            assert(before.entries()[j].1.handed() == handed_before(start, j));
        } else if after.entries().len() == n {
            assert(before.entries()[j].1.handed() == handed_before(start, j));
        } else {
            if j < n {
                assert(after.entries()[j] == after.entries().take(n)[j]);
                assert(before.entries()[j].1.handed() == handed_before(start, j));
            } else {
                let made = choose|made: RecordBatchWriter|
                    {
                        &&& before.factory().fresh(&made, record.schema)
                        &&& before.factory().made(&after.factory(), record.schema, Ok(made))
                        &&& made.written() == Seq::<RecordView>::empty()
                        &&& #[trigger] made.wrote(&after.entries()[n].1, record, r)
                    };
                assert(made.handed() == 0);
            }
        }
    }
}

} // verus!
