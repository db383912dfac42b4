//! The line parsers: from the raw fields of a line to a typed record, under
//! one of two policies.

use crate::error::{Error, ErrorView};
use crate::record::{
    absent, parse_error_text, parse_value, value_views, FieldSchemaView, Record, RecordSchema,
     RecordView, Value, ValueType, ValueView,
};
use crate::schemas::lookup::{remember, CacheEntryView, Mappings, SchemaRegistry};
use crate::text::{trimmed, views};
use vstd::prelude::*;
use vstd::string::StringExecFns;

verus! {

/// The message of the error for a line without any field.
pub open spec fn no_form_name() -> Seq<char> {
    "No form name"@
}

/// The message of the error for a line with more fields than its schema.
pub open spec fn too_many_values() -> Seq<char> {
    "too many values"@
}

/// The smaller of two numbers.
pub open spec fn min(a: int, b: int) -> int {
    if a <= b {
        a
    } else {
        b
    }
}

/// The first position from `from` up to `to` whose field is not in the
/// syntax of the type that the schema gives it, or `to` if there is none.
pub open spec fn first_failure(
    fields: Seq<FieldSchemaView>,
    line: Seq<Seq<char>>,
    from: int,
    to: int,
) -> int
    decreases to - from,
{
    if from >= to {
        to
    } else if parse_value(fields[from].typ, Some(line[from])) is None {
        from
    } else {
        first_failure(fields, line, from + 1, to)
    }
}

/// The value at a position of a line under the literal policy: the field
/// at the position, read as the type that the schema gives it.
pub open spec fn literal_value(fields: Seq<FieldSchemaView>, line: Seq<Seq<char>>, i: int) -> ValueView {
    parse_value(fields[i].typ, Some(line[i]))->0
}

/// What the literal policy makes of a line: one value for each field of
/// the line, the line code among them, each read as the type of the field
/// of the schema at its position. It fails on the first field that is not
/// in the syntax of its type, and on a line with more fields than the
/// schema.
pub open spec fn literal_outcome(fields: Seq<FieldSchemaView>, line: Seq<Seq<char>>) -> Result<
    Seq<ValueView>,
    Seq<char>,
> {
    let n = min(line.len() as int, fields.len() as int);
    let k = first_failure(fields, line, 0, n);
    if 0 <= k < n {
        Err(parse_error_text(fields[k].typ, trimmed(line[k])))
    } else if line.len() > fields.len() {
        Err(too_many_values())
    } else {
        Ok(Seq::new(line.len(), |i: int| literal_value(fields, line, i)))
    }
}

/// A field read as a type, with the absent value where it is not in the
/// syntax of the type.
pub open spec fn coerced(typ: ValueType, raw: Seq<char>) -> ValueView {
    match parse_value(typ, Some(raw)) {
        Some(v) => v,
        None => absent(typ),
    }
}

/// The value at a position under the coercing policy: a field that the
/// schema knows, the line code among them, coerced to the type that the
/// schema gives it; a field beyond the schema, as text as it stands; and
/// the absent value of its type for a field of the schema beyond the line.
pub open spec fn coercing_value(fields: Seq<FieldSchemaView>, line: Seq<Seq<char>>, i: int) -> ValueView {
    if i < line.len() {
        if i >= fields.len() {
            ValueView::String(Some(line[i]))
        } else {
            coerced(fields[i].typ, line[i])
        }
    } else {
        absent(fields[i].typ)
    }
}

/// The larger of two numbers.
pub open spec fn max(a: int, b: int) -> int {
    if a >= b {
        a
    } else {
        b
    }
}

/// What the coercing policy makes of a line: a value for every field of
/// the line and of the schema. It never fails.
pub open spec fn coercing_values(fields: Seq<FieldSchemaView>, line: Seq<Seq<char>>) -> Seq<ValueView> {
    Seq::new(
        max(line.len() as int, fields.len() as int) as nat,
        |i: int| coercing_value(fields, line, i),
    )
}

/// The view of what parsing a line returns.
pub open spec fn record_result(r: Result<Record, Error>) -> Result<RecordView, ErrorView> {
    match r {
        Ok(record) => Ok(record@),
        Err(e) => Err(e@),
    }
}

/// What parsing a line under a policy gives, the policy being what it
/// makes of the fields of a line under a schema: a line without any field is
/// refused; the first field is the line code, whose schema the table must
/// resolve for the version; the record has that schema, the line code, and
/// the values that the policy makes of the fields.
pub open spec fn line_outcome(
    policy: spec_fn(Seq<FieldSchemaView>, Seq<Seq<char>>) -> Result<Seq<ValueView>, Seq<char>>,
    mappings: Mappings,
    version: Seq<char>,
    line: Seq<Seq<char>>,
) -> Result<RecordView, ErrorView> {
    if line.len() == 0 {
        Err(ErrorView::RecordParseError(no_form_name()))
    } else {
        match mappings.resolve(version, line[0]) {
            None => Err(ErrorView::SchemaError(version, line[0])),
            Some(schema) => match policy(schema.fields, line) {
                Ok(values) => Ok(RecordView { schema, line_code: line[0], values }),
                Err(message) => Err(ErrorView::RecordParseError(message)),
            },
        }
    }
}

/// The schemas remembered after parsing a line: the schema of its line
/// code is looked up; a line without any field has nothing looked up.
pub open spec fn line_cached(
    mappings: Mappings,
    cached: Seq<CacheEntryView>,
    version: Seq<char>,
    line: Seq<Seq<char>>,
) -> Seq<CacheEntryView> {
    if line.len() == 0 {
        cached
    } else {
        remember(mappings, cached, version, line[0])
    }
}

/// What parsing a line does to the registry.
pub open spec fn line_lookup(
    before: SchemaRegistry,
    after: SchemaRegistry,
    version: Seq<char>,
    line: Seq<Seq<char>>,
) -> bool {
    &&& after.mappings() == before.mappings()
    &&& after.cached() == line_cached(before.mappings(), before.cached(), version, line)
}

/// A policy for turning the raw fields of a line into typed values.
pub trait LineParser {
    /// What the policy makes of the fields of a line under the fields of a
    /// schema: the values, or the message of the error.
    spec fn outcome(fields: Seq<FieldSchemaView>, line: Seq<Seq<char>>) -> Result<
        Seq<ValueView>,
        Seq<char>,
    >;

    /// Parse the fields of a line, the line code among them, under a schema.
    fn parse_values(&mut self, schema: &RecordSchema, line: &Vec<String>) -> (r: Result<
        Vec<Value>,
        Error,
    >)
        ensures
            match r {
                Ok(values) => Self::outcome(schema@.fields, views(line@)) == Ok::<
                    Seq<ValueView>,
                    Seq<char>,
                >(value_views(values@)),
                Err(e) => e matches Error::RecordParseError(m) && Self::outcome(
                    schema@.fields,
                    views(line@),
                ) == Err::<Seq<ValueView>, Seq<char>>(m@),
            },
    ;

    /// Parse a complete line of a filing.
    ///
    /// The first field is the line code. The schema for the line code and
    /// the version is looked up in the registry, and the fields are parsed
    /// under it. A line without any field is refused.
    fn parse_line(&mut self, registry: &mut SchemaRegistry, fec_version: &str, line: &Vec<String>) -> (r:
        Result<Record, Error>)
        ensures
            record_result(r) == line_outcome(
                |fields: Seq<FieldSchemaView>, line: Seq<Seq<char>>| Self::outcome(fields, line),
                old(registry).mappings(),
                fec_version@,
                views(line@),
            ),
            line_lookup(*old(registry), *final(registry), fec_version@, views(line@)),
    {
        let record_type = get_record_type_code(line)?;
        let schema = registry.lookup(fec_version, record_type.as_str())?;
        let values = self.parse_values(&schema, line)?;
        Ok(Record { schema, line_code: record_type.clone(), values })
    }
}

/// The first field of a line: the code of its record type.
pub fn get_record_type_code(line: &Vec<String>) -> (r: Result<&String, Error>)
    ensures
        match r {
            Ok(code) => line@.len() > 0 && *code == line@[0],
            Err(e) => {
                &&& line@.len() == 0
                &&& e matches Error::RecordParseError(m)
                &&& m@ == no_form_name()
            },
        },
{
    if line.len() == 0 {
        Err(Error::RecordParseError(String::from_str("No form name")))
    } else {
        Ok(&line[0])
    }
}

/// The first failure is the first position whose field is not in the syntax
/// of its type.
pub proof fn lemma_first_failure(
    fields: Seq<FieldSchemaView>,
    line: Seq<Seq<char>>,
    from: int,
    to: int,
    k: int,
)
    requires
        from <= k <= to,
        forall|j: int| from <= j < k ==> parse_value(fields[j].typ, Some(#[trigger] line[j])) is Some,
        k == to || parse_value(fields[k].typ, Some(line[k])) is None,
    ensures
        first_failure(fields, line, from, to) == k,
    decreases k - from,
{
    if from < k {
        lemma_first_failure(fields, line, from + 1, to, k);
    }
}

/// The policy that takes a line at its word: every field must be in the
/// syntax of its type, and the line may not have more fields than the
/// schema. A line with fewer fields gives fewer values.
pub struct LiteralLineParser;

impl LineParser for LiteralLineParser {
    open spec fn outcome(fields: Seq<FieldSchemaView>, line: Seq<Seq<char>>) -> Result<
        Seq<ValueView>,
        Seq<char>,
    > {
        literal_outcome(fields, line)
    }

    fn parse_values(&mut self, schema: &RecordSchema, line: &Vec<String>) -> (r: Result<
        Vec<Value>,
        Error,
    >) {
        let ghost fields = schema@.fields;
        let ghost raw = views(line@);
        let mut values: Vec<Value> = Vec::new();
        let mut i: usize = 0;
        while i < line.len()
            invariant
                i <= line.len(),
                i <= schema.fields.len(),
                fields == schema@.fields,
                raw == views(line@),
                values.len() == i,
                forall|k: int| 0 <= k < i ==> (#[trigger] values@[k])@ == literal_value(fields, raw, k),
                forall|k: int|
                    0 <= k < i ==> parse_value(fields[k].typ, Some(#[trigger] raw[k])) is Some,
            decreases line.len() - i,
        {
            if i >= schema.fields.len() {
                proof {
                    lemma_first_failure(fields, raw, 0, i as int, i as int);
                }
                return Err(Error::RecordParseError(String::from_str("too many values")));
            }
            assert(fields[i as int] == schema.fields@[i as int]@);
            assert(raw[i as int] == line@[i as int]@);
            match schema.fields[i].typ.parse_to_value(Some(&line[i])) {
                Ok(v) => {
                    values.push(v);
                },
                Err(e) => {
                    proof {
                        lemma_first_failure(
                            fields,
                            raw,
                            0,
                            min(raw.len() as int, fields.len() as int),
                            i as int,
                        );
                    }
                    return Err(e);
                },
            }
            i += 1;
        }
        proof {
            let n = min(raw.len() as int, fields.len() as int);
            lemma_first_failure(fields, raw, 0, n, n);
            assert(value_views(values@) =~= Seq::new(
                raw.len(),
                |k: int| literal_value(fields, raw, k),
            ));
        }
        Ok(values)
    }
}

/// The policy that makes the best of a line: a field that is not in the
/// syntax of its type becomes the absent value, fields beyond the schema
/// are kept as text, and a short line is filled up with absent values.
pub struct CoercingLineParser;

impl LineParser for CoercingLineParser {
    open spec fn outcome(fields: Seq<FieldSchemaView>, line: Seq<Seq<char>>) -> Result<
        Seq<ValueView>,
        Seq<char>,
    > {
        Ok(coercing_values(fields, line))
    }

    fn parse_values(&mut self, schema: &RecordSchema, line: &Vec<String>) -> (r: Result<
        Vec<Value>,
        Error,
    >) {
        let ghost fields = schema@.fields;
        let ghost raw = views(line@);
        let mut values: Vec<Value> = Vec::new();
        let mut i: usize = 0;
        while i < line.len()
            invariant
                i <= line.len(),
                fields == schema@.fields,
                raw == views(line@),
                values.len() == i,
                forall|k: int| 0 <= k < i ==> (#[trigger] values@[k])@ == coercing_value(fields, raw, k),
            decreases line.len() - i,
        {
            assert(raw[i as int] == line@[i as int]@);
            if i >= schema.fields.len() {
                values.push(Value::String(Some(line[i].clone())));
            } else {
                assert(fields[i as int] == schema.fields@[i as int]@);
                let field_type = schema.fields[i].typ;
                let value = match field_type.parse_to_value(Some(&line[i])) {
                    Ok(value) => value,
                    Err(_) => field_type.absent_value(),
                };
                values.push(value);
            }
            i += 1;
        }
        while i < schema.fields.len()
            invariant
                line.len() <= i,
                i <= schema.fields.len() || i == line.len(),
                fields == schema@.fields,
                raw == views(line@),
                values.len() == i,
                forall|k: int| 0 <= k < i ==> (#[trigger] values@[k])@ == coercing_value(fields, raw, k),
            decreases schema.fields.len() - i,
        {
            assert(fields[i as int] == schema.fields@[i as int]@);
            values.push(schema.fields[i].typ.absent_value());
            i += 1;
        }
        assert(value_views(values@) =~= coercing_values(fields, raw));
        Ok(values)
    }
}

/// Under the coercing policy a line with no more fields than its schema
/// gives exactly one value for each field of the schema; in general there
/// is one value for each field of the line or of the schema, whichever are
/// more. Every value at a position of the schema has the type of the field
/// at that position.
pub proof fn lemma_coercing_length(fields: Seq<FieldSchemaView>, line: Seq<Seq<char>>)
    ensures
        coercing_values(fields, line).len() == max(line.len() as int, fields.len() as int),
        line.len() <= fields.len() ==> coercing_values(fields, line).len() == fields.len(),
        forall|i: int|
            0 <= i < fields.len() ==> (#[trigger] coercing_values(fields, line)[i]).typ()
                == fields[i].typ,
{
    assert forall|i: int| 0 <= i < fields.len() implies (#[trigger] coercing_values(
        fields,
        line,
    )[i]).typ() == fields[i].typ by {
        lemma_parse_value_type(fields[i].typ, line[i]);
    }
}

/// A field read as a type has that type.
pub proof fn lemma_parse_value_type(typ: ValueType, raw: Seq<char>)
    ensures
        parse_value(typ, Some(raw)) matches Some(v) ==> v.typ() == typ,
        coerced(typ, raw).typ() == typ,
        absent(typ).typ() == typ,
{
}

/// A record has the code of its line: the schema of a record that a line
/// was parsed to has the first field of the line as its code, letter for
/// letter, and so has the record itself.
pub proof fn lemma_record_code(
    policy: spec_fn(Seq<FieldSchemaView>, Seq<Seq<char>>) -> Result<Seq<ValueView>, Seq<char>>,
    mappings: Mappings,
    version: Seq<char>,
    line: Seq<Seq<char>>,
)
    ensures
        line_outcome(policy, mappings, version, line) matches Ok(record) ==> line.len() > 0
            && record.schema.code == line[0] && record.line_code == line[0] && Some(record.schema)
            == mappings.resolve(version, line[0]),
{
}

/// Under the coercing policy a record has a value for each field of its
/// line and of its schema, whichever are more: for a line with no more
/// fields than the schema, exactly one value for each field of the
/// schema. Every value at a position of the schema has the type of the
/// field at that position.
pub proof fn lemma_coercing_record(mappings: Mappings, version: Seq<char>, line: Seq<Seq<char>>)
    ensures
        line_outcome(
            |fields: Seq<FieldSchemaView>, line: Seq<Seq<char>>|
                Ok::<Seq<ValueView>, Seq<char>>(coercing_values(fields, line)),
            mappings,
            version,
            line,
        ) matches Ok(record) ==> {
            &&& record.values.len() == max(line.len() as int, record.schema.fields.len() as int)
            &&& line.len() <= record.schema.fields.len() ==> record.values.len()
                == record.schema.fields.len()
            &&& forall|i: int|
                0 <= i < record.schema.fields.len() ==> (#[trigger] record.values[i]).typ()
                    == record.schema.fields[i].typ
        },
{
    match mappings.resolve(version, line[0]) {
        Some(schema) => {
            lemma_coercing_length(schema.fields, line);
        },
        None => {},
    }
}

/// Under the literal policy a line with no more fields than its schema,
/// each of them blank or in the syntax of its type, gives exactly one
/// value for each field of the line: of the type of the field of the
/// schema at its position, and absent exactly where the field is blank.
pub proof fn lemma_literal_values(fields: Seq<FieldSchemaView>, line: Seq<Seq<char>>)
    requires
        line.len() <= fields.len(),
        forall|i: int|
            0 <= i < line.len() ==> parse_value(fields[i].typ, Some(#[trigger] line[i])) is Some,
    ensures
        literal_outcome(fields, line) is Ok,
        literal_outcome(fields, line)->Ok_0.len() == line.len(),
        forall|i: int|
            0 <= i < line.len() ==> {
                &&& (#[trigger] literal_outcome(fields, line)->Ok_0[i]).typ() == fields[i].typ
                &&& literal_outcome(fields, line)->Ok_0[i].is_absent() <==> trimmed(line[i]).len()
                    == 0
            },
{
    lemma_first_failure(fields, line, 0, line.len() as int, line.len() as int);
    assert forall|i: int| 0 <= i < line.len() implies {
        &&& (#[trigger] literal_outcome(fields, line)->Ok_0[i]).typ() == fields[i].typ
        &&& literal_outcome(fields, line)->Ok_0[i].is_absent() <==> trimmed(line[i]).len() == 0
    } by {
        assert(parse_value(fields[i].typ, Some(line[i])) is Some);
    }
}

} // verus!
