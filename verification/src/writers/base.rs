//! Writing the records of a filing, one writer for each kind of record.

use crate::csv::RawLine;
use crate::error::{Error, ErrorView};
use crate::fec::{unit_result, FecFile, FecFileView};
use crate::record::{
    FieldSchemaView, Record, RecordSchema, RecordSchemaView, RecordView, ValueView,
};
use crate::schemas::lookup::{CacheEntryView, Mappings, SchemaRegistry};
use crate::schemas::parse::{
    coercing_values, line_cached, line_outcome, CoercingLineParser, LineParser,
};
use crate::text::{chars_of, first_index, lemma_first_index, str_eq, string_of};
use vstd::prelude::*;
use vstd::string::StringExecFns;

verus! {

/// Writes single records.
pub trait RecordWriter {
    /// What must hold of a writer between calls.
    spec fn writer_inv(&self) -> bool;

    /// The records that the writer has accepted, in order.
    spec fn written(&self) -> Seq<RecordView>;

    /// Whether the writer holds nothing back: all that it has accepted
    /// has been handed on.
    spec fn finished(&self) -> bool;

    /// What writing a record comes to, apart from the records written:
    /// `after` is the writer after it was given the record, and `r` is
    /// what it returned, that it accepted the record or why it refused.
    spec fn wrote(&self, after: &Self, record: RecordView, r: Result<(), ErrorView>) -> bool;

    /// What finishing comes to: `after` is the writer after it was
    /// finished, and `r` is what it returned.
    spec fn closes(&self, after: &Self, r: Result<(), ErrorView>) -> bool;

    /// Write a record. A record that is accepted joins the records written;
    /// one that is refused leaves them as they were.
    fn write_record(&mut self, record: &Record) -> (r: Result<(), Error>)
        requires
            old(self).writer_inv(),
        ensures
            final(self).writer_inv(),
            final(self).written() == if r is Ok {
                old(self).written().push(record@)
            } else {
                old(self).written()
            },
            old(self).wrote(final(self), record@, unit_result(r)),
    ;

    /// Finish writing: what was held back is handed on.
    fn finish(&mut self) -> (r: Result<(), Error>)
        requires
            old(self).writer_inv(),
        ensures
            final(self).writer_inv(),
            final(self).written() == old(self).written(),
            r is Ok ==> final(self).finished(),
            old(self).closes(final(self), unit_result(r)),
    ;
}

/// Creates [`RecordWriter`]s given a schema.
pub trait RecordWriterFactory {
    type Writer: RecordWriter;

    /// What must hold of a factory between calls.
    spec fn factory_inv(&self) -> bool;

    /// Whether a writer is as the factory makes it for a schema.
    spec fn fresh(&self, writer: &Self::Writer, schema: RecordSchemaView) -> bool;

    /// What asking the factory for a writer for a schema comes to: `after`
    /// is the factory after it was asked, and `made` is what it returned,
    /// the writer or the error.
    spec fn made(
        &self,
        after: &Self,
        schema: RecordSchemaView,
        made: Result<Self::Writer, ErrorView>,
    ) -> bool;

    /// Create a new [`RecordWriter`] for a schema. It has written nothing.
    fn make_writer(&mut self, schema: &RecordSchema) -> (r: Result<Self::Writer, Error>)
        requires
            old(self).factory_inv(),
        ensures
            final(self).factory_inv(),
            r matches Ok(w) ==> w.writer_inv() && w.written() == Seq::<RecordView>::empty()
                && old(self).fresh(&w, schema@),
            old(self).made(final(self), schema@, made_view(r)),
    ;
}

/// The view of what a factory returned: the writer, or the view of the
/// error.
pub open spec fn made_view<W>(r: Result<W, Error>) -> Result<W, ErrorView> {
    match r {
        Ok(w) => Ok(w),
        Err(e) => Err(e@),
    }
}

/// The name of a form with every slash replaced by a hyphen, so that it
/// can be the name of a file.
pub open spec fn normed(name: Seq<char>) -> Seq<char> {
    name.map_values(
        |c: char|
            if c == '/' {
                '-'
            } else {
                c
            },
    )
}

/// The path of a file in a directory: the name alone where the directory
/// is not named; otherwise the directory, a slash unless it ends in one,
/// and the name.
pub open spec fn joined(base: Seq<char>, name: Seq<char>) -> Seq<char> {
    if base.len() == 0 {
        name
    } else if base.last() == '/' {
        base + name
    } else {
        base + seq!['/'] + name
    }
}

/// Some forms have a slash in their name, which is not allowed in file
/// names: replace it by a hyphen.
pub fn norm_form_name(name: &str) -> (r: String)
    ensures
        r@ == normed(name@),
{
    let chars = chars_of(name);
    let mut out: Vec<char> = Vec::new();
    let mut i: usize = 0;
    while i < chars.len()
        invariant
            i <= chars.len(),
            chars@ == name@,
            out.len() == i,
            forall|k: int| 0 <= k < i ==> #[trigger] out@[k] == normed(name@)[k],
        decreases chars.len() - i,
    {
        let c = chars[i];
        if c == '/' {
            out.push('-');
        } else {
            out.push(c);
        }
        i += 1;
    }
    assert(out@ =~= normed(name@));
    let r = string_of(&out, 0, out.len());
    assert(r@ == out@);
    r
}

/// The path of the file `name` in the directory `base`.
pub fn join_path(base: &str, name: &str) -> (r: String)
    ensures
        r@ == joined(base@, name@),
{
    let chars = chars_of(base);
    let mut r = String::from_str(base);
    if chars.len() == 0 {
        assert(base@ + name@ =~= name@);
    } else if chars[chars.len() - 1] != '/' {
        r.append("/");
        proof {
            reveal_strlit("/");
            assert("/"@ =~= seq!['/']);
        }
    }
    r.append(name);
    r
}

/// Creates [`RecordWriter`]s that write to a file.
pub trait FileRecordWriterFactory {
    type Writer: RecordWriter;

    /// What must hold of a factory between calls.
    spec fn file_factory_inv(&self) -> bool;

    /// The extension of the files that the writers write, without a dot.
    spec fn extension(&self) -> Seq<char>;

    /// Whether a writer is as the factory makes it for a path and a schema.
    spec fn fresh_file(
        &self,
        writer: &Self::Writer,
        path: Seq<char>,
        schema: RecordSchemaView,
    ) -> bool;

    /// What asking the factory for a writer for a path and a schema comes
    /// to: `after` is the factory after it was asked, and `made` is what it
    /// returned, the writer or the error.
    spec fn made_file(
        &self,
        after: &Self,
        path: Seq<char>,
        schema: RecordSchemaView,
        made: Result<Self::Writer, ErrorView>,
    ) -> bool;

    /// The name of the file for a form: the name of the form, a dot and
    /// the extension.
    fn file_name(&self, form_name: String) -> (r: String)
        ensures
            r@ == form_name@ + seq!['.'] + self.extension(),
    ;

    /// Make a new [`RecordWriter`] for a schema that writes to the given path.
    fn make(&mut self, path: &str, schema: &RecordSchema) -> (r: Result<Self::Writer, Error>)
        requires
            old(self).file_factory_inv(),
        ensures
            final(self).file_factory_inv(),
            final(self).extension() == old(self).extension(),
            r matches Ok(w) ==> w.writer_inv() && w.written() == Seq::<RecordView>::empty()
                && old(self).fresh_file(&w, path@, schema@),
            old(self).made_file(final(self), path@, schema@, made_view(r)),
    ;
}

/// The codes of the schemas of writers, by position.
pub open spec fn codes_of<W>(writers: Seq<(RecordSchema, W)>) -> Seq<Seq<char>> {
    writers.map_values(|e: (RecordSchema, W)| e.0.code@)
}

/// The records that writers have written, by position.
pub open spec fn logs_of<W: RecordWriter>(writers: Seq<(RecordSchema, W)>) -> Seq<Seq<RecordView>> {
    writers.map_values(|e: (RecordSchema, W)| e.1.written())
}

/// The records with a code, of a sequence of records, in their order.
pub open spec fn with_code(records: Seq<RecordView>, code: Seq<char>) -> Seq<RecordView>
    decreases records.len(),
{
    if records.len() == 0 {
        Seq::empty()
    } else if records.last().schema.code == code {
        with_code(records.drop_last(), code).push(records.last())
    } else {
        with_code(records.drop_last(), code)
    }
}

/// Whether records went where they belong: the writer for a code has
/// written the records of its code, of those accepted, in their order; and
/// there is a writer for the code of every record that was accepted.
pub open spec fn routed(
    codes: Seq<Seq<char>>,
    logs: Seq<Seq<RecordView>>,
    accepted: Seq<RecordView>,
) -> bool {
    &&& logs.len() == codes.len()
    &&& forall|k: int| 0 <= k < codes.len() ==> #[trigger] logs[k] == with_code(accepted, codes[k])
    &&& forall|j: int|
        0 <= j < accepted.len() ==> first_index(codes, (#[trigger] accepted[j]).schema.code)
            < codes.len()
}

/// Whether no two entries of a sequence are equal.
pub open spec fn distinct(codes: Seq<Seq<char>>) -> bool {
    forall|i: int, j: int| 0 <= i < j < codes.len() ==> codes[i] != codes[j]
}

/// What writing a record does to the writers of a dispatcher, given their
/// codes and what they had written before and after, and whether the
/// record was accepted.
///
/// The writer for the code of the record's schema gets the record. Where
/// there is none yet, one is made and joins the writers at the end; the
/// writers that were there stay in place. A record that is refused is
/// written nowhere; the writer that was made for it may have joined.
pub open spec fn dispatched(
    codes: Seq<Seq<char>>,
    logs: Seq<Seq<RecordView>>,
    new_codes: Seq<Seq<char>>,
    new_logs: Seq<Seq<RecordView>>,
    record: RecordView,
    accepted: bool,
) -> bool {
    let i = first_index(codes, record.schema.code) as int;
    if i < codes.len() {
        &&& new_codes == codes
        &&& new_logs == if accepted {
            logs.update(i, logs[i].push(record))
        } else {
            logs
        }
    } else if accepted {
        &&& new_codes == codes.push(record.schema.code)
        &&& new_logs == logs.push(seq![record])
    } else {
        ||| (new_codes == codes && new_logs == logs)
        ||| (new_codes == codes.push(record.schema.code) && new_logs == logs.push(
            Seq::<RecordView>::empty(),
        ))
    }
}

/// A [`RecordWriter`] that hands each record to the writer for its schema,
/// which it makes when the first record of the schema comes.
pub struct MultiRecordWriter<F: RecordWriterFactory> {
    factory: F,
    /// The writers with their schemas, in the order in which they were made.
    writers: Vec<(RecordSchema, F::Writer)>,
    log: Ghost<Seq<RecordView>>,
}

impl<F: RecordWriterFactory> MultiRecordWriter<F> {
    /// The writers with their schemas, in the order in which they were made.
    pub closed spec fn entries(&self) -> Seq<(RecordSchema, F::Writer)> {
        self.writers@
    }

    /// The codes of the schemas for which there is a writer, in the order
    /// in which the writers were made.
    pub open spec fn codes(&self) -> Seq<Seq<char>> {
        codes_of(self.entries())
    }

    /// The records that each writer has written.
    pub open spec fn logs(&self) -> Seq<Seq<RecordView>> {
        logs_of(self.entries())
    }

    /// The factory that makes the writers.
    pub closed spec fn factory(&self) -> F {
        self.factory
    }

    /// There is one writer for a code, and the factory and the writers are
    /// in order. Each writer has written the records of its code, of those
    /// that the dispatcher accepted, in their order; and there is a writer
    /// for the code of every record that was accepted.
    pub open spec fn wf(&self) -> bool {
        &&& self.factory().factory_inv()
        &&& distinct(self.codes())
        &&& forall|k: int|
            0 <= k < self.entries().len() ==> (#[trigger] self.entries()[k]).1.writer_inv()
        &&& routed(self.codes(), self.logs(), self.written())
    }

    /// A dispatcher without any writer yet.
    pub fn new(factory: F) -> (w: Self)
        requires
            factory.factory_inv(),
        ensures
            w.wf(),
            w.factory() == factory,
            w.entries().len() == 0,
            w.written() == Seq::<RecordView>::empty(),
    {
        Self { factory, writers: Vec::new(), log: Ghost(Seq::empty()) }
    }

    /// The number of writers.
    pub fn len(&self) -> (n: usize)
        ensures
            n == self.entries().len(),
    {
        self.writers.len()
    }

    /// The schema of the writer at a position.
    pub fn schema(&self, i: usize) -> (schema: &RecordSchema)
        requires
            i < self.entries().len(),
        ensures
            *schema == self.entries()[i as int].0,
    {
        &self.writers[i].0
    }

    /// The writer at a position.
    pub fn writer(&self, i: usize) -> (writer: &F::Writer)
        requires
            i < self.entries().len(),
        ensures
            *writer == self.entries()[i as int].1,
    {
        &self.writers[i].1
    }

    /// The writer at a position, to work with. The dispatcher holds
    /// afterwards what the writer has become.
    pub fn writer_mut(&mut self, i: usize) -> (writer: &mut F::Writer)
        requires
            i < old(self).entries().len(),
        ensures
            *writer == old(self).entries()[i as int].1,
            final(self).entries() == old(self).entries().update(
                i as int,
                (old(self).entries()[i as int].0, *final(writer)),
            ),
            final(self).factory() == old(self).factory(),
            final(self).written() == old(self).written(),
    {
        &mut self.writers[i].1
    }

    /// The position of the writer for a code, if there is one.
    pub fn find_writer(&self, code: &str) -> (r: Option<usize>)
        ensures
            match r {
                Some(i) => i < self.entries().len() && i == first_index(self.codes(), code@),
                None => first_index(self.codes(), code@) >= self.entries().len(),
            },
    {
        let ghost codes = self.codes();
        let mut i: usize = 0;
        while i < self.writers.len()
            invariant
                i <= self.writers.len(),
                codes == self.codes(),
                forall|k: int| 0 <= k < i ==> #[trigger] codes[k] != code@,
            decreases self.writers.len() - i,
        {
            assert(codes[i as int] == self.writers@[i as int].0.code@);
            if str_eq(self.writers[i].0.code.as_str(), code) {
                proof {
                    lemma_first_index(codes, code@, i as int);
                }
                return Some(i);
            }
            i += 1;
        }
        proof {
            lemma_first_index(codes, code@, i as int);
        }
        None
    }

    /// The position of the writer for a schema; where there is none yet,
    /// one is made and joins the writers at the end.
    pub fn get_writer(&mut self, schema: &RecordSchema) -> (r: Result<usize, Error>)
        requires
            old(self).wf(),
        ensures
            final(self).wf(),
            final(self).written() == old(self).written(),
            match r {
                Ok(i) => {
                    &&& i == first_index(final(self).codes(), schema.code@)
                    &&& i < final(self).entries().len()
                    &&& if first_index(old(self).codes(), schema.code@) < old(self).entries().len() {
                        final(self).entries() == old(self).entries() && final(self).factory()
                            == old(self).factory()
                    } else {
                        &&& i == old(self).entries().len()
                        &&& final(self).codes() == old(self).codes().push(schema.code@)
                        &&& final(self).logs() == old(self).logs().push(Seq::<RecordView>::empty())
                        &&& final(self).entries().take(i as int) == old(self).entries()
                        &&& old(self).factory().fresh(&final(self).entries()[i as int].1, schema@)
                        &&& old(self).factory().made(
                            &final(self).factory(),
                            schema@,
                            Ok(final(self).entries()[i as int].1),
                        )
                        &&& final(self).entries()[i as int].0@ == schema@
                    }
                },
                Err(e) => {
                    &&& final(self).entries() == old(self).entries()
                    &&& first_index(old(self).codes(), schema.code@) >= old(self).entries().len()
                    &&& old(self).factory().made(&final(self).factory(), schema@, Err(e@))
                },
            },
    {
        match self.find_writer(schema.code.as_str()) {
            Some(i) => Ok(i),
            None => {
                let writer = self.factory.make_writer(schema)?;
                let ghost before = self.writers@;
                self.writers.push((schema.clone(), writer));
                proof {
                    let i = before.len() as int;
                    assert(self.writers@.take(i) =~= before);
                    assert(self.codes() =~= codes_of(before).push(schema.code@));
                    assert(self.logs() =~= logs_of(before).push(Seq::<RecordView>::empty()));
                    lemma_not_found(codes_of(before), schema.code@);
                    assert forall|k: int| 0 <= k < i implies #[trigger] self.codes()[k]
                        != schema.code@ by {
                        assert(self.codes()[k] == codes_of(before)[k]);
                    }
                    lemma_first_index(self.codes(), schema.code@, i);
                    lemma_routed_new(codes_of(before), logs_of(before), self.log@, schema.code@);
                }
                Ok(self.writers.len() - 1)
            },
        }
    }
}

/// A value whose first position is the length does not occur.
pub proof fn lemma_not_found(s: Seq<Seq<char>>, c: Seq<char>)
    requires
        first_index(s, c) >= s.len(),
    ensures
        forall|k: int| 0 <= k < s.len() ==> #[trigger] s[k] != c,
    decreases s.len(),
{
    if s.len() > 0 {
        let t = s.drop_first();
        lemma_not_found(t, c);
        assert forall|k: int| 0 <= k < s.len() implies #[trigger] s[k] != c by {
            if k > 0 {
                assert(s[k] == t[k - 1]);
            }
        }
    }
}

/// A value that occurs in a sequence stands at its first position, and
/// stays there when the sequence grows.
pub proof fn lemma_first_index_found(s: Seq<Seq<char>>, c: Seq<char>, x: Seq<char>)
    requires
        first_index(s, c) < s.len(),
    ensures
        s[first_index(s, c) as int] == c,
        first_index(s.push(x), c) == first_index(s, c),
    decreases s.len(),
{
    if s[0] != c {
        assert(s.push(x).drop_first() =~= s.drop_first().push(x));
        lemma_first_index_found(s.drop_first(), c, x);
    }
}

/// No record has a code for which there is no writer.
pub proof fn lemma_with_code_absent(
    codes: Seq<Seq<char>>,
    accepted: Seq<RecordView>,
    code: Seq<char>,
)
    requires
        first_index(codes, code) >= codes.len(),
        forall|j: int|
            0 <= j < accepted.len() ==> first_index(codes, (#[trigger] accepted[j]).schema.code)
                < codes.len(),
    ensures
        with_code(accepted, code) == Seq::<RecordView>::empty(),
    decreases accepted.len(),
{
    if accepted.len() > 0 {
        let rest = accepted.drop_last();
        assert forall|j: int| 0 <= j < rest.len() implies first_index(
            codes,
            (#[trigger] rest[j]).schema.code,
        ) < codes.len() by {
            assert(rest[j] == accepted[j]);
        }
        lemma_with_code_absent(codes, rest, code);
        assert(first_index(codes, accepted[accepted.len() - 1].schema.code) < codes.len());
    }
}

/// A new writer leaves the records where they belong.
pub proof fn lemma_routed_new(
    codes: Seq<Seq<char>>,
    logs: Seq<Seq<RecordView>>,
    accepted: Seq<RecordView>,
    code: Seq<char>,
)
    requires
        routed(codes, logs, accepted),
        first_index(codes, code) >= codes.len(),
    ensures
        routed(codes.push(code), logs.push(Seq::<RecordView>::empty()), accepted),
{
    lemma_with_code_absent(codes, accepted, code);
    assert forall|j: int| 0 <= j < accepted.len() implies first_index(
        codes.push(code),
        (#[trigger] accepted[j]).schema.code,
    ) < codes.push(code).len() by {
        lemma_first_index_found(codes, accepted[j].schema.code, code);
    }
}

/// A record written by the writer for its code is where it belongs.
pub proof fn lemma_routed_write(
    codes: Seq<Seq<char>>,
    logs: Seq<Seq<RecordView>>,
    accepted: Seq<RecordView>,
    record: RecordView,
)
    requires
        routed(codes, logs, accepted),
        distinct(codes),
        first_index(codes, record.schema.code) < codes.len(),
    ensures
        routed(
            codes,
            logs.update(
                first_index(codes, record.schema.code) as int,
                logs[first_index(codes, record.schema.code) as int].push(record),
            ),
            accepted.push(record),
        ),
{
    let i = first_index(codes, record.schema.code) as int;
    let after = accepted.push(record);
    lemma_first_index_found(codes, record.schema.code, record.schema.code);
    assert(after.drop_last() =~= accepted);
    assert forall|j: int| 0 <= j < after.len() implies first_index(
        codes,
        (#[trigger] after[j]).schema.code,
    ) < codes.len() by {
        if j < accepted.len() {
            assert(after[j] == accepted[j]);
        }
    }
}

impl<F: RecordWriterFactory> RecordWriter for MultiRecordWriter<F> {
    open spec fn writer_inv(&self) -> bool {
        self.wf()
    }

    closed spec fn written(&self) -> Seq<RecordView> {
        self.log@
    }

    open spec fn finished(&self) -> bool {
        forall|k: int| 0 <= k < self.entries().len() ==> (#[trigger] self.entries()[k]).1.finished()
    }

    /// The writer for the code of the record's schema was given the
    /// record, and what it returned is returned; no other writer was
    /// touched. Where there was no writer for the code, the factory was
    /// asked for one: its error is returned, or its writer joined the
    /// writers at the end and was given the record.
    open spec fn wrote(&self, after: &Self, record: RecordView, r: Result<(), ErrorView>) -> bool {
        let n = self.entries().len() as int;
        let i = first_index(self.codes(), record.schema.code) as int;
        if i < n {
            &&& after.entries().len() == n
            &&& after.factory() == self.factory()
            &&& forall|j: int|
                0 <= j < n && j != i ==> #[trigger] after.entries()[j] == self.entries()[j]
            &&& after.entries()[i].0 == self.entries()[i].0
            &&& self.entries()[i].1.wrote(&after.entries()[i].1, record, r)
        } else if after.entries().len() == n {
            &&& r is Err
            &&& after.entries() == self.entries()
            &&& self.factory().made(
                &after.factory(),
                record.schema,
                Err::<F::Writer, ErrorView>(r->Err_0),
            )
        } else {
            &&& after.entries().len() == n + 1
            &&& after.entries().take(n) == self.entries()
            &&& after.entries()[n].0@ == record.schema
            &&& exists|made: F::Writer|
                {
                    &&& self.factory().fresh(&made, record.schema)
                    &&& self.factory().made(&after.factory(), record.schema, Ok(made))
                    &&& made.written() == Seq::<RecordView>::empty()
                    &&& #[trigger] made.wrote(&after.entries()[n].1, record, r)
                }
        }
    }

    /// The writers were finished in their order, up to the first that
    /// failed, whose error is returned; the writers after it are as they
    /// were.
    open spec fn closes(&self, after: &Self, r: Result<(), ErrorView>) -> bool {
        let n = self.entries().len() as int;
        &&& after.entries().len() == n
        &&& after.factory() == self.factory()
        &&& forall|j: int| 0 <= j < n ==> (#[trigger] after.entries()[j]).0 == self.entries()[j].0
        &&& r is Ok ==> forall|j: int|
            0 <= j < n ==> self.entries()[j].1.closes(
                &(#[trigger] after.entries()[j]).1,
                Ok::<(), ErrorView>(()),
            )
        &&& r is Err ==> exists|k: int|
            {
                &&& 0 <= k < n
                &&& #[trigger] self.entries()[k].1.closes(&after.entries()[k].1, r)
                &&& forall|j: int|
                    0 <= j < k ==> self.entries()[j].1.closes(
                        &(#[trigger] after.entries()[j]).1,
                        Ok::<(), ErrorView>(()),
                    )
                &&& forall|j: int| k < j < n ==> (#[trigger] after.entries()[j]) == self.entries()[j]
            }
    }

    fn write_record(&mut self, record: &Record) -> (r: Result<(), Error>)
        ensures
            dispatched(
                old(self).codes(),
                old(self).logs(),
                final(self).codes(),
                final(self).logs(),
                record@,
                r is Ok,
            ),
    {
        let ghost codes = self.codes();
        let ghost logs = self.logs();
        let i = self.get_writer(&record.schema)?;
        let ghost mid = self.writers@;
        let r = self.writers[i].1.write_record(record);
        proof {
            assert(codes_of(self.writers@) =~= codes_of(mid));
            assert forall|k: int| 0 <= k < self.writers@.len() implies (
            #[trigger] self.writers@[k]).1.writer_inv() by {
                if k != i {
                    assert(self.writers@[k] == mid[k]);
                }
            }
            if r is Ok {
                assert(logs_of(self.writers@) =~= logs_of(mid).update(
                    i as int,
                    logs_of(mid)[i as int].push(record@),
                ));
            } else {
                assert(logs_of(self.writers@) =~= logs_of(mid));
            }
            if first_index(codes, record@.schema.code) >= codes.len() {
                assert(logs_of(mid) == logs.push(Seq::<RecordView>::empty()));
                assert(logs.push(Seq::<RecordView>::empty()).update(
                    i as int,
                    Seq::<RecordView>::empty().push(record@),
                ) =~= logs.push(seq![record@]));
                assert(Seq::<RecordView>::empty().push(record@) =~= seq![record@]);
            }
        }
        proof {
            let n = old(self).writers@.len() as int;
            assert(self.writers@[i as int].0 == mid[i as int].0);
            assert(mid[i as int].1.wrote(&self.writers@[i as int].1, record@, unit_result(r)));
            if first_index(codes, record@.schema.code) < n {
                assert(mid == old(self).writers@);
                assert forall|j: int| 0 <= j < n && j != i implies #[trigger] self.writers@[j]
                    == old(self).writers@[j] by {
                    assert(self.writers@[j] == mid[j]);
                }
            } else {
                assert(i == n);
                assert(self.writers@.take(n) =~= old(self).writers@) by {
                    assert(mid.take(n) == old(self).writers@);
                    assert forall|j: int| 0 <= j < n implies self.writers@.take(n)[j] == mid.take(
                        n,
                    )[j] by {
                        assert(self.writers@[j] == mid[j]);
                    }
                }
                assert(old(self).factory.fresh(&mid[n].1, record@.schema));
                assert(old(self).factory.made(&self.factory, record@.schema, Ok(mid[n].1)));
                assert(mid[n].1.written() == Seq::<RecordView>::empty()) by {
                    assert(logs_of(mid)[n] == mid[n].1.written());
                }
                assert(mid[n].1.wrote(&self.writers@[n].1, record@, unit_result(r)));
            }
        }
        if r.is_ok() {
            proof {
                lemma_routed_write(codes_of(mid), logs_of(mid), self.log@, record@);
            }
            self.log = Ghost(self.log@.push(record@));
        }
        r
    }

    fn finish(&mut self) -> (r: Result<(), Error>)
        ensures
            final(self).codes() == old(self).codes(),
            final(self).logs() == old(self).logs(),
    {
        let mut i: usize = 0;
        while i < self.writers.len()
            invariant
                i <= self.writers.len(),
                self.wf(),
                self.log == old(self).log,
                self.factory == old(self).factory,
                self.codes() == old(self).codes(),
                self.logs() == old(self).logs(),
                self.writers@.len() == old(self).writers@.len(),
                forall|k: int|
                    0 <= k < self.writers@.len() ==> (#[trigger] self.writers@[k]).0 == old(
                        self,
                    ).writers@[k].0,
                forall|k: int| 0 <= k < i ==> (#[trigger] self.writers@[k]).1.finished(),
                forall|k: int|
                    0 <= k < i ==> old(self).writers@[k].1.closes(
                        &(#[trigger] self.writers@[k]).1,
                        Ok::<(), ErrorView>(()),
                    ),
                forall|k: int|
                    i <= k < self.writers@.len() ==> (#[trigger] self.writers@[k]) == old(
                        self,
                    ).writers@[k],
            decreases self.writers.len() - i,
        {
            let ghost mid = self.writers@;
            let r = self.writers[i].1.finish();
            proof {
                assert(codes_of(self.writers@) =~= codes_of(mid));
                assert(logs_of(self.writers@) =~= logs_of(mid));
                assert forall|k: int| 0 <= k < self.writers@.len() implies (
                #[trigger] self.writers@[k]).1.writer_inv() by {
                    if k != i {
                        assert(self.writers@[k] == mid[k]);
                    }
                }
                assert forall|k: int| 0 <= k < self.writers@.len() implies (
                #[trigger] self.writers@[k]).0 == old(self).writers@[k].0 by {
                    assert(self.writers@[k].0 == mid[k].0);
                }
                assert forall|k: int| 0 <= k < i implies old(self).writers@[k].1.closes(
                    &(#[trigger] self.writers@[k]).1,
                    Ok::<(), ErrorView>(()),
                ) by {
                    assert(self.writers@[k] == mid[k]);
                }
                assert forall|k: int| i < k < self.writers@.len() implies (
                #[trigger] self.writers@[k]) == old(self).writers@[k] by {
                    assert(self.writers@[k] == mid[k]);
                }
                assert(old(self).writers@[i as int].1.closes(
                    &self.writers@[i as int].1,
                    unit_result(r),
                ));
            }
            if r.is_err() {
                return r;
            }
            proof {
                assert forall|k: int| 0 <= k < i + 1 implies (#[trigger] self.writers@[k]).1.finished() by {
                    if k != i {
                        assert(self.writers@[k] == mid[k]);
                    }
                }
            }
            i += 1;
        }
        Ok(())
    }
}

/// A [`RecordWriterFactory`] that makes a writer to a file of its own for
/// each schema: in a directory, under the name of the schema's code.
pub struct MultiFileRecordWriterFactory<F: FileRecordWriterFactory> {
    base_path: String,
    factory: F,
}

impl<F: FileRecordWriterFactory> MultiFileRecordWriterFactory<F> {
    /// The directory of the files.
    pub closed spec fn base_path(&self) -> Seq<char> {
        self.base_path@
    }

    /// The factory of the writers.
    pub closed spec fn inner(&self) -> F {
        self.factory
    }

    /// The path of the file for a schema: in the directory, the code of
    /// the schema with hyphens for slashes, a dot and the extension.
    pub open spec fn path_of(&self, code: Seq<char>) -> Seq<char> {
        joined(self.base_path(), normed(code) + seq!['.'] + self.inner().extension())
    }

    /// A factory of writers to files in the directory `base_path`.
    pub fn new(base_path: String, factory: F) -> (r: Self)
        requires
            factory.file_factory_inv(),
        ensures
            r.factory_inv(),
            r.base_path() == base_path@,
            r.inner() == factory,
    {
        Self { base_path, factory }
    }

    /// The path of the file for a schema.
    pub fn path_for(&self, schema: &RecordSchema) -> (path: String)
        ensures
            path@ == self.path_of(schema.code@),
    {
        let form_name = norm_form_name(schema.code.as_str());
        let file_name = self.factory.file_name(form_name);
        join_path(self.base_path.as_str(), file_name.as_str())
    }
}

impl<F: FileRecordWriterFactory> RecordWriterFactory for MultiFileRecordWriterFactory<F> {
    type Writer = F::Writer;

    open spec fn factory_inv(&self) -> bool {
        self.inner().file_factory_inv()
    }

    open spec fn fresh(&self, writer: &F::Writer, schema: RecordSchemaView) -> bool {
        self.inner().fresh_file(writer, self.path_of(schema.code), schema)
    }

    /// The factory of the writers was asked for a writer for the path of
    /// the file of the schema, and what it returned is returned. The
    /// directory stays.
    open spec fn made(
        &self,
        after: &Self,
        schema: RecordSchemaView,
        made: Result<F::Writer, ErrorView>,
    ) -> bool {
        &&& after.base_path() == self.base_path()
        &&& self.inner().made_file(&after.inner(), self.path_of(schema.code), schema, made)
    }

    /// The writer that the factory of the writers makes for the file of
    /// the schema: the factory is asked once, for the path of the file in
    /// the directory, and what it returns is returned. The directory stays.
    fn make_writer(&mut self, schema: &RecordSchema) -> (r: Result<F::Writer, Error>)
        ensures
            final(self).base_path() == old(self).base_path(),
            final(self).inner().extension() == old(self).inner().extension(),
            old(self).inner().made_file(
                &final(self).inner(),
                old(self).path_of(schema.code@),
                schema@,
                made_view(r),
            ),
    {
        let path = self.path_for(schema);
        self.factory.make(path.as_str(), schema)
    }
}

/// The record that the coercing policy makes of the fields of a line.
pub open spec fn coerced_record(mappings: Mappings, version: Seq<char>, line: Seq<Seq<char>>) -> Result<
    RecordView,
    ErrorView,
> {
    line_outcome(
        |fields: Seq<FieldSchemaView>, line: Seq<Seq<char>>|
            Ok::<Seq<ValueView>, Seq<char>>(coercing_values(fields, line)),
        mappings,
        version,
        line,
    )
}

/// The records of the first `k` lines, in their order.
pub open spec fn records_of(mappings: Mappings, version: Seq<char>, lines: Seq<RawLine>, k: int) -> Seq<
    RecordView,
> {
    Seq::new(k as nat, |j: int| coerced_record(mappings, version, lines[j]->Ok_0)->Ok_0)
}

/// The schemas remembered after the first `k` lines were made into records.
pub open spec fn cached_through(
    mappings: Mappings,
    cached: Seq<CacheEntryView>,
    version: Seq<char>,
    lines: Seq<RawLine>,
    k: int,
) -> Seq<CacheEntryView>
    decreases k,
{
    if k <= 0 {
        cached
    } else {
        let before = cached_through(mappings, cached, version, lines, k - 1);
        match lines[k - 1] {
            Ok(line) => line_cached(mappings, before, version, line),
            Err(_) => before,
        }
    }
}

/// The first line, at or after `from`, that cannot be read or cannot be
/// made into a record; the number of lines where there is none.
pub open spec fn first_bad(
    mappings: Mappings,
    version: Seq<char>,
    lines: Seq<RawLine>,
    from: int,
) -> int
    decreases lines.len() - from,
{
    if from < 0 || from >= lines.len() {
        lines.len() as int
    } else if lines[from] is Err || coerced_record(mappings, version, lines[from]->Ok_0) is Err {
        from
    } else {
        first_bad(mappings, version, lines, from + 1)
    }
}

/// The first bad line is the line before which every line can be read and
/// be made into a record, and which itself cannot.
pub proof fn lemma_first_bad(
    mappings: Mappings,
    version: Seq<char>,
    lines: Seq<RawLine>,
    from: int,
    k: int,
)
    requires
        0 <= from <= k <= lines.len(),
        forall|j: int|
            from <= j < k ==> (#[trigger] lines[j]) is Ok && coerced_record(
                mappings,
                version,
                lines[j]->Ok_0,
            ) is Ok,
        k == lines.len() || lines[k] is Err || coerced_record(mappings, version, lines[k]->Ok_0)
            is Err,
    ensures
        first_bad(mappings, version, lines, from) == k,
    decreases k - from,
{
    if from < k {
        assert(lines[from] is Ok);
        lemma_first_bad(mappings, version, lines, from + 1, k);
    }
}

/// Whether a writer with the given records written refused a record with
/// the given error, and became `after`.
pub open spec fn refused<W: RecordWriter>(
    written: Seq<RecordView>,
    after: W,
    record: RecordView,
    e: ErrorView,
) -> bool {
    exists|mid: W|
        mid.writer_inv() && mid.written() == written && #[trigger] mid.wrote(
            &after,
            record,
            Err::<(), ErrorView>(e),
        )
}

/// Whether a writer with the given records written was finished, with the
/// given result, and became `after`.
pub open spec fn closed<W: RecordWriter>(
    written: Seq<RecordView>,
    after: W,
    r: Result<(), ErrorView>,
) -> bool {
    exists|mid: W| mid.writer_inv() && mid.written() == written && #[trigger] mid.closes(&after, r)
}

/// What writing the records of a filing does, where `k` lines were
/// written as records.
///
/// The header and the cover are decoded first; their error is returned
/// with nothing written. Then the pending lines are read in order: each
/// becomes a record under the coercing policy and is written. The first
/// `k` records were written, in the order of their lines. Either all lines
/// were written, the filing is exhausted and the writer was finished, and
/// what finishing returned is returned; or line `k` ended the writing: it
/// could not be read, or not be made into a record, and that error is
/// returned; or the writer refused its record, and its error is returned.
pub open spec fn written_through<W: RecordWriter>(
    before: FecFileView,
    after: FecFileView,
    mappings: Mappings,
    cached: Seq<CacheEntryView>,
    new_cached: Seq<CacheEntryView>,
    writer: W,
    new_writer: W,
    k: int,
    r: Result<(), Error>,
) -> bool {
    let s = before.with_cover(mappings, cached);
    match s.result {
        Err(e) => {
            &&& k == 0
            &&& r is Err
            &&& r->Err_0@ == e
            &&& after == s.file
            &&& new_cached == s.cached
            &&& new_writer == writer
        },
        Ok(_) => {
            let lines = s.file.pending->0;
            let version = s.file.header->0.header.fec_version;
            &&& 0 <= k <= lines.len()
            &&& forall|j: int|
                0 <= j < k ==> (#[trigger] lines[j]) is Ok && coerced_record(
                    mappings,
                    version,
                    lines[j]->Ok_0,
                ) is Ok
            &&& new_writer.written() == writer.written() + records_of(
                mappings,
                version,
                lines,
                k,
            )
            &&& if k == lines.len() {
                &&& after == (FecFileView {
                    pending: Some(Seq::<RawLine>::empty()),
                    done: true,
                    ..s.file
                })
                &&& new_cached == cached_through(mappings, s.cached, version, lines, k)
                &&& closed(new_writer.written(), new_writer, unit_result(r))
            } else {
                &&& r is Err
                &&& after == (FecFileView { pending: Some(lines.skip(k + 1)), ..s.file })
                &&& new_cached == cached_through(mappings, s.cached, version, lines, k + 1)
                &&& match lines[k] {
                    Err(message) => r->Err_0@ == ErrorView::RecordParseError(message),
                    Ok(line) => match coerced_record(mappings, version, line) {
                        Err(e) => r->Err_0@ == e,
                        Ok(record) => refused(new_writer.written(), new_writer, record, r->Err_0@),
                    },
                }
            }
        },
    }
}

/// What writing the records of a filing does: some number of lines were
/// written as records, and then the filing ended, or an error ended the
/// writing.
pub open spec fn written_some<W: RecordWriter>(
    before: FecFileView,
    after: FecFileView,
    mappings: Mappings,
    cached: Seq<CacheEntryView>,
    new_cached: Seq<CacheEntryView>,
    writer: W,
    new_writer: W,
    r: Result<(), Error>,
) -> bool {
    exists|k: int|
        written_through(before, after, mappings, cached, new_cached, writer, new_writer, k, r)
}

/// Write every record of a filing to a writer: decode the header and the
/// cover, then read line after line, make a record of each under the
/// coercing policy, and write it; finish the writer after the last line.
/// Returns at the first error, without finishing the writer.
pub fn write_all<W: RecordWriter>(
    writer: &mut W,
    fec: &mut FecFile,
    registry: &mut SchemaRegistry,
) -> (r: Result<(), Error>)
    requires
        old(writer).writer_inv(),
        old(fec).wf(),
    ensures
        final(writer).writer_inv(),
        final(fec).wf(),
        final(registry).mappings() == old(registry).mappings(),
        r is Ok ==> final(writer).finished(),
        written_some(
            old(fec)@,
            final(fec)@,
            old(registry).mappings(),
            old(registry).cached(),
            final(registry).cached(),
            *old(writer),
            *final(writer),
            r,
        ),
{
    let ghost m = registry.mappings();
    let ghost s = fec@.with_cover(m, registry.cached());
    let ghost written = writer.written();
    match fec.get_cover(registry) {
        Err(e) => {
            let r = Err(e);
            assert(written_through(
                old(fec)@,
                fec@,
                m,
                old(registry).cached(),
                registry.cached(),
                *old(writer),
                *writer,
                0,
                r,
            ));
            return r;
        },
        Ok(_) => {},
    }
    proof {
        fec.lemma_view_wf();
    }
    let fec_version = match fec.get_header(registry) {
        Ok(header) => header.fec_version.clone(),
        Err(e) => {
            return Err(e);
        },
    };
    let ghost lines = s.file.pending->0;
    let ghost version = s.file.header->0.header.fec_version;
    let ghost k: int = 0;
    let mut parser = CoercingLineParser;
    proof {
        assert(lines.skip(0) =~= lines);
        assert(written + records_of(m, version, lines, 0) =~= written);
    }
    loop
        invariant_except_break
            fec@ == (FecFileView { pending: Some(lines.skip(k)), ..s.file }),
        invariant
            writer.writer_inv(),
            fec.wf(),
            m == old(registry).mappings(),
            registry.mappings() == m,
            s == old(fec)@.with_cover(m, old(registry).cached()),
            written == old(writer).written(),
            s.result is Ok,
            s.file.cover is Some,
            s.file.header is Some,
            s.file.pending == Some(lines),
            version == s.file.header->0.header.fec_version,
            fec_version@ == version,
            0 <= k <= lines.len(),
            forall|j: int|
                0 <= j < k ==> (#[trigger] lines[j]) is Ok && coerced_record(m, version, lines[j]->Ok_0)
                    is Ok,
            writer.written() == written + records_of(m, version, lines, k),
            registry.cached() == cached_through(m, s.cached, version, lines, k),
        ensures
            k == lines.len(),
            fec@ == (FecFileView { pending: Some(Seq::<RawLine>::empty()), done: true, ..s.file }),
        decreases lines.len() - k,
    {
        let ghost left = lines.skip(k);
        match fec.next_line(registry) {
            None => {
                assert(left =~= Seq::<RawLine>::empty());
                break;
            },
            Some(Err(e)) => {
                let r = Err(e);
                proof {
                    assert(left[0] == lines[k]);
                    assert(left.drop_first() == lines.skip(k + 1));
                    assert(written_through(
                        old(fec)@,
                        fec@,
                        m,
                        old(registry).cached(),
                        registry.cached(),
                        *old(writer),
                        *writer,
                        k,
                        r,
                    ));
                }
                return r;
            },
            Some(Ok(line)) => {
                proof {
                    assert(left[0] == lines[k]);
                    assert(left.drop_first() == lines.skip(k + 1));
                }
                let record = match parser.parse_line(registry, fec_version.as_str(), &line) {
                    Ok(record) => record,
                    Err(e) => {
                        let r = Err(e);
                        assert(written_through(
                            old(fec)@,
                            fec@,
                            m,
                            old(registry).cached(),
                            registry.cached(),
                            *old(writer),
                            *writer,
                            k,
                            r,
                        ));
                        return r;
                    },
                };
                let ghost mid = *writer;
                let wrote = writer.write_record(&record);
                proof {
                    if wrote is Err {
                        assert(mid.wrote(&*writer, record@, Err::<(), ErrorView>(wrote->Err_0@)));
                        assert(refused(writer.written(), *writer, record@, wrote->Err_0@));
                    }
                }
                match wrote {
                    Ok(_) => {
                        proof {
                            assert(records_of(m, version, lines, k).push(record@) =~= records_of(
                                m,
                                version,
                                lines,
                                k + 1,
                            ));
                            assert((written + records_of(m, version, lines, k)).push(record@)
                                =~= written + records_of(m, version, lines, k + 1));
                            k = k + 1;
                        }
                    },
                    Err(e) => {
                        let r = Err(e);
                        assert(written_through(
                            old(fec)@,
                            fec@,
                            m,
                            old(registry).cached(),
                            registry.cached(),
                            *old(writer),
                            *writer,
                            k,
                            r,
                        ));
                        return r;
                    },
                }
            },
        }
    }
    let ghost mid = *writer;
    let r = writer.finish();
    proof {
        assert(mid.closes(&*writer, unit_result(r)));
        assert(closed(writer.written(), *writer, unit_result(r)));
    }
    assert(written_through(
        old(fec)@,
        fec@,
        m,
        old(registry).cached(),
        registry.cached(),
        *old(writer),
        *writer,
        k,
        r,
    ));
    r
}

} // verus!
