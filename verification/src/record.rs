//! The typed value model: values, their types, schemas and records.

use crate::date::{date_of_text, lemma_date_parts, Date};
use crate::error::Error;
use crate::number::{
    check_float_text, digits_value, int_of_text, int_text, is_float_text, lemma_float_text_ends,
    lemma_int_text_round_trip, parse_i64, render_i64,
};
use crate::text::{
    chars_of, first_index, lemma_first_index, lemma_trimmed_fixed, str_eq, string_of, trim_bounds,
    trimmed,
};
use vstd::prelude::*;
use vstd::std_specs::cmp::PartialEqSpecImpl;
use vstd::string::StringExecFns;

verus! {

/// The type of a value, without the value.
#[derive(Debug, Clone, Copy, PartialEq, Eq, Hash, Structural)]
pub enum ValueType {
    String,
    Integer,
    Float,
    Date,
    Boolean,
}

/// One typed field of a record. The payload is absent where the field of
/// the line was empty, or could not be read and the policy forgave it.
///
/// A floating-point value is held as its literal, in the syntax of
/// [`is_float_text`]; the library never computes with it.
#[derive(Debug)]
pub enum Value {
    String(Option<String>),
    Integer(Option<i64>),
    Float(Option<String>),
    Date(Option<Date>),
    Boolean(Option<bool>),
}

/// What a [`Value`] holds, as mathematical data.
pub enum ValueView {
    String(Option<Seq<char>>),
    Integer(Option<i64>),
    Float(Option<Seq<char>>),
    Date(Option<Date>),
    Boolean(Option<bool>),
}

impl View for Value {
    type V = ValueView;

    open spec fn view(&self) -> ValueView {
        match *self {
            Value::String(Some(s)) => ValueView::String(Some(s@)),
            Value::String(None) => ValueView::String(None),
            Value::Integer(i) => ValueView::Integer(i),
            Value::Float(Some(s)) => ValueView::Float(Some(s@)),
            Value::Float(None) => ValueView::Float(None),
            Value::Date(d) => ValueView::Date(d),
            Value::Boolean(b) => ValueView::Boolean(b),
        }
    }
}

/// The text `true`.
pub open spec fn true_text() -> Seq<char> {
    seq!['t', 'r', 'u', 'e']
}

/// The text `false`.
pub open spec fn false_text() -> Seq<char> {
    seq!['f', 'a', 'l', 's', 'e']
}

impl ValueView {
    /// The type of the value.
    pub open spec fn typ(self) -> ValueType {
        match self {
            ValueView::String(_) => ValueType::String,
            ValueView::Integer(_) => ValueType::Integer,
            ValueView::Float(_) => ValueType::Float,
            ValueView::Date(_) => ValueType::Date,
            ValueView::Boolean(_) => ValueType::Boolean,
        }
    }

    /// Whether the payload is absent.
    pub open spec fn is_absent(self) -> bool {
        self == absent(self.typ())
    }

    /// Whether the value is one that reading can produce: a date is a day
    /// of the calendar, and a floating-point payload is a literal.
    pub open spec fn wf(self) -> bool {
        match self {
            ValueView::Float(Some(t)) => is_float_text(t),
            ValueView::Date(Some(d)) => d.wf(),
            _ => true,
        }
    }

    /// The text of the value: its lexical form where the payload is
    /// present, a date as `YYYY-MM-DD`, and nothing where it is absent.
    pub open spec fn text(self) -> Seq<char> {
        match self {
            ValueView::String(Some(s)) => s,
            ValueView::Integer(Some(i)) => int_text(i as int),
            ValueView::Float(Some(t)) => t,
            ValueView::Date(Some(d)) => d.text(),
            ValueView::Boolean(Some(b)) => if b {
                true_text()
            } else {
                false_text()
            },
            _ => Seq::empty(),
        }
    }
}

/// The value of a type whose payload is absent.
pub open spec fn absent(typ: ValueType) -> ValueView {
    match typ {
        ValueType::String => ValueView::String(None),
        ValueType::Integer => ValueView::Integer(None),
        ValueType::Float => ValueView::Float(None),
        ValueType::Date => ValueView::Date(None),
        ValueType::Boolean => ValueView::Boolean(None),
    }
}

/// The value that a trimmed, non-empty text denotes under a type, or
/// `None` where the text is not in the syntax of the type.
pub open spec fn parse_text(typ: ValueType, t: Seq<char>) -> Option<ValueView> {
    match typ {
        ValueType::String => Some(ValueView::String(Some(t))),
        ValueType::Integer => match int_of_text(t) {
            Some(i) => Some(ValueView::Integer(Some(i as i64))),
            None => None,
        },
        ValueType::Float => if is_float_text(t) {
            Some(ValueView::Float(Some(t)))
        } else {
            None
        },
        ValueType::Date => match date_of_text(t) {
            Some(d) => Some(ValueView::Date(Some(d))),
            None => None,
        },
        ValueType::Boolean => if t == true_text() {
            Some(ValueView::Boolean(Some(true)))
        } else if t == false_text() {
            Some(ValueView::Boolean(Some(false)))
        } else {
            None
        },
    }
}

/// The value that a raw field denotes under a type: the absent value for a
/// missing or blank field, otherwise what the trimmed field denotes.
/// `None` where the trimmed field is not in the syntax of the type.
pub open spec fn parse_value(typ: ValueType, raw: Option<Seq<char>>) -> Option<ValueView> {
    match raw {
        None => Some(absent(typ)),
        Some(r) => if trimmed(r).len() == 0 {
            Some(absent(typ))
        } else {
            parse_text(typ, trimmed(r))
        },
    }
}

/// The name of a type in messages.
pub open spec fn kind_name(typ: ValueType) -> Seq<char> {
    match typ {
        ValueType::String => "string"@,
        ValueType::Integer => "integer"@,
        ValueType::Float => "float"@,
        ValueType::Date => "date"@,
        ValueType::Boolean => "boolean"@,
    }
}

/// The message of the error for a field that is not in the syntax of its
/// type: the name of the type and the trimmed field.
pub open spec fn parse_error_text(typ: ValueType, t: Seq<char>) -> Seq<char> {
    "invalid "@ + kind_name(typ) + ": "@ + t
}

impl ValueType {
    /// The name of the type in messages.
    pub fn name(&self) -> (s: &'static str)
        ensures
            s@ == kind_name(*self),
    {
        match self {
            ValueType::String => "string",
            ValueType::Integer => "integer",
            ValueType::Float => "float",
            ValueType::Date => "date",
            ValueType::Boolean => "boolean",
        }
    }

    /// The value of this type whose payload is absent.
    pub fn absent_value(&self) -> (v: Value)
        ensures
            v@ == absent(*self),
    {
        match self {
            ValueType::String => Value::String(None),
            ValueType::Integer => Value::Integer(None),
            ValueType::Float => Value::Float(None),
            ValueType::Date => Value::Date(None),
            ValueType::Boolean => Value::Boolean(None),
        }
    }

    /// Read a raw field as a value of this type. A missing or blank field
    /// gives the absent value. Any other field is trimmed and read in the
    /// syntax of the type; where it is not in that syntax, the error names
    /// the type and carries the trimmed field.
    pub fn parse_to_value(&self, raw: Option<&String>) -> (r: Result<Value, Error>)
        ensures
            match r {
                Ok(v) => parse_value(*self, opt_view(raw)) == Some(v@) && v@.wf(),
                Err(e) => {
                    &&& parse_value(*self, opt_view(raw)) is None
                    &&& e matches Error::RecordParseError(m)
                    &&& m@ == parse_error_text(*self, trimmed(raw.unwrap()@))
                },
            },
    {
        let raw = match raw {
            None => {
                return Ok(self.absent_value());
            },
            Some(r) => r,
        };
        let chars = chars_of(raw.as_str());
        let (from, to) = trim_bounds(&chars);
        if from == to {
            return Ok(self.absent_value());
        }
        let text = string_of(&chars, from, to);
        let t = chars_of(text.as_str());
        assert(t@ == trimmed(raw@));
        let parsed: Option<Value> = match self {
            ValueType::String => Some(Value::String(Some(text))),
            ValueType::Integer => match parse_i64(&t) {
                Some(i) => Some(Value::Integer(Some(i))),
                None => None,
            },
            ValueType::Float => if check_float_text(&t) {
                Some(Value::Float(Some(text)))
            } else {
                None
            },
            ValueType::Date => match Date::parse(&t) {
                Some(d) => {
                    proof {
                        use_type_invariant(d);
                    }
                    Some(Value::Date(Some(d)))
                },
                None => None,
            },
            ValueType::Boolean => if t.len() == 4 && t[0] == 't' && t[1] == 'r' && t[2] == 'u'
                && t[3] == 'e' {
                assert(t@ =~= true_text());
                Some(Value::Boolean(Some(true)))
            } else if t.len() == 5 && t[0] == 'f' && t[1] == 'a' && t[2] == 'l' && t[3] == 's'
                && t[4] == 'e' {
                assert(t@ =~= false_text());
                Some(Value::Boolean(Some(false)))
            } else {
                assert(t@ != true_text()) by {
                    if t@ == true_text() {
                        assert(t@[0] == 't' && t@[1] == 'r' && t@[2] == 'u' && t@[3] == 'e');
                    }
                }
                assert(t@ != false_text()) by {
                    if t@ == false_text() {
                        assert(t@[0] == 'f' && t@[1] == 'a' && t@[2] == 'l' && t@[3] == 's'
                            && t@[4] == 'e');
                    }
                }
                None
            },
        };
        match parsed {
            Some(v) => Ok(v),
            None => {
                let shown = string_of(&t, 0, t.len());
                assert(shown@ == t@);
                let mut m = String::from_str("invalid ");
                m.append(self.name());
                m.append(": ");
                m.append(shown.as_str());
                Err(Error::RecordParseError(m))
            },
        }
    }
}

/// The view of an optional string.
pub open spec fn opt_view(s: Option<&String>) -> Option<Seq<char>> {
    match s {
        Some(s) => Some(s@),
        None => None,
    }
}

impl Value {
    /// The type of the value.
    pub fn typ(&self) -> (t: ValueType)
        ensures
            t == self@.typ(),
    {
        match self {
            Value::String(_) => ValueType::String,
            Value::Integer(_) => ValueType::Integer,
            Value::Float(_) => ValueType::Float,
            Value::Date(_) => ValueType::Date,
            Value::Boolean(_) => ValueType::Boolean,
        }
    }

    /// Whether the payload is absent.
    pub fn is_absent(&self) -> (b: bool)
        ensures
            b == self@.is_absent(),
    {
        match self {
            Value::String(s) => s.is_none(),
            Value::Integer(i) => i.is_none(),
            Value::Float(f) => f.is_none(),
            Value::Date(d) => d.is_none(),
            Value::Boolean(b) => b.is_none(),
        }
    }

    /// The text of the value, as text encoders write it: the lexical form
    /// of a present payload, a date as `YYYY-MM-DD`, and the empty string
    /// for an absent payload.
    pub fn to_text(&self) -> (s: String)
        ensures
            s@ == self@.text(),
    {
        match self {
            Value::String(Some(s)) => s.clone(),
            Value::Integer(Some(i)) => {
                let digits = render_i64(*i);
                let s = string_of(&digits, 0, digits.len());
                assert(s@ == digits@);
                s
            },
            Value::Float(Some(t)) => t.clone(),
            Value::Date(Some(d)) => d.to_text(),
            Value::Boolean(Some(b)) => {
                let mut s = String::new();
                if *b {
                    s.push('t');
                    s.push('r');
                    s.push('u');
                    s.push('e');
                    assert(s@ =~= true_text());
                } else {
                    s.push('f');
                    s.push('a');
                    s.push('l');
                    s.push('s');
                    s.push('e');
                    assert(s@ =~= false_text());
                }
                s
            },
            _ => String::new(),
        }
    }
}

/// Whether two optional strings hold the same text, or both none.
fn opt_string_eq(a: &Option<String>, b: &Option<String>) -> (r: bool)
    ensures
        r == (opt_string_view(*a) == opt_string_view(*b)),
{
    match (a, b) {
        (Some(x), Some(y)) => str_eq(x.as_str(), y.as_str()),
        (None, None) => true,
        _ => false,
    }
}

/// The view of an optional string.
pub open spec fn opt_string_view(s: Option<String>) -> Option<Seq<char>> {
    match s {
        Some(s) => Some(s@),
        None => None,
    }
}

impl PartialEq for Value {
    /// Values are equal where they have one type and hold the same.
    fn eq(&self, other: &Self) -> (r: bool) {
        match (self, other) {
            (Value::String(a), Value::String(b)) => opt_string_eq(a, b),
            (Value::Integer(a), Value::Integer(b)) => match (a, b) {
                (Some(x), Some(y)) => *x == *y,
                (None, None) => true,
                _ => false,
            },
            (Value::Float(a), Value::Float(b)) => opt_string_eq(a, b),
            (Value::Date(a), Value::Date(b)) => match (a, b) {
                (Some(x), Some(y)) => *x == *y,
                (None, None) => true,
                _ => false,
            },
            (Value::Boolean(a), Value::Boolean(b)) => match (a, b) {
                (Some(x), Some(y)) => *x == *y,
                (None, None) => true,
                _ => false,
            },
            _ => false,
        }
    }
}

impl PartialEqSpecImpl for Value {
    open spec fn obeys_eq_spec() -> bool {
        true
    }

    open spec fn eq_spec(&self, other: &Self) -> bool {
        self@ == other@
    }
}

impl Clone for Value {
    fn clone(&self) -> (r: Self)
        ensures
            r@ == self@,
    {
        match self {
            Value::String(Some(s)) => Value::String(Some(s.clone())),
            Value::String(None) => Value::String(None),
            Value::Integer(i) => Value::Integer(*i),
            Value::Float(Some(s)) => Value::Float(Some(s.clone())),
            Value::Float(None) => Value::Float(None),
            Value::Date(d) => Value::Date(*d),
            Value::Boolean(b) => Value::Boolean(*b),
        }
    }
}

/// The name and the type of one field of a line.
#[derive(Debug)]
pub struct FieldSchema {
    pub name: String,
    pub typ: ValueType,
}

/// What a [`FieldSchema`] holds, as mathematical data.
pub struct FieldSchemaView {
    pub name: Seq<char>,
    pub typ: ValueType,
}

impl View for FieldSchema {
    type V = FieldSchemaView;

    open spec fn view(&self) -> FieldSchemaView {
        FieldSchemaView { name: self.name@, typ: self.typ }
    }
}

impl Clone for FieldSchema {
    fn clone(&self) -> (r: Self)
        ensures
            r@ == self@,
    {
        FieldSchema { name: self.name.clone(), typ: self.typ }
    }
}

/// The shape of the lines with one line code: the code, and the fields of
/// such a line in order. The first field is the line code itself.
#[derive(Debug)]
pub struct RecordSchema {
    /// Record code, such as `F3` or `SA11`.
    pub code: String,
    /// The fields, by position.
    pub fields: Vec<FieldSchema>,
}

/// What a [`RecordSchema`] holds, as mathematical data.
pub struct RecordSchemaView {
    pub code: Seq<char>,
    pub fields: Seq<FieldSchemaView>,
}

/// The views of the fields of a schema.
pub open spec fn field_views(fields: Seq<FieldSchema>) -> Seq<FieldSchemaView> {
    fields.map_values(|f: FieldSchema| f@)
}

/// The views of values.
pub open spec fn value_views(values: Seq<Value>) -> Seq<ValueView> {
    values.map_values(|v: Value| v@)
}

impl View for RecordSchema {
    type V = RecordSchemaView;

    open spec fn view(&self) -> RecordSchemaView {
        RecordSchemaView { code: self.code@, fields: field_views(self.fields@) }
    }
}

impl RecordSchemaView {
    /// The names of the fields, by position.
    pub open spec fn names(self) -> Seq<Seq<char>> {
        self.fields.map_values(|f: FieldSchemaView| f.name)
    }
}

impl Clone for RecordSchema {
    fn clone(&self) -> (r: Self)
        ensures
            r@ == self@,
    {
        let mut fields: Vec<FieldSchema> = Vec::new();
        let mut i: usize = 0;
        while i < self.fields.len()
            invariant
                i <= self.fields.len(),
                fields.len() == i,
                forall|k: int| 0 <= k < i ==> (#[trigger] fields@[k])@ == self.fields@[k]@,
            decreases self.fields.len() - i,
        {
            fields.push(self.fields[i].clone());
            i += 1;
        }
        assert(field_views(fields@) =~= field_views(self.fields@));
        RecordSchema { code: self.code.clone(), fields }
    }
}

impl PartialEq for RecordSchema {
    /// A schema is known by its code alone: two schemas are equal where
    /// their codes are.
    fn eq(&self, other: &Self) -> (r: bool) {
        self.code == other.code
    }
}

impl PartialEqSpecImpl for RecordSchema {
    open spec fn obeys_eq_spec() -> bool {
        true
    }

    open spec fn eq_spec(&self, other: &Self) -> bool {
        self.code@ == other.code@
    }
}

impl RecordSchema {
    /// Whether two schemas have the same code. A schema is known by its
    /// code alone.
    pub fn same_code(&self, other: &RecordSchema) -> (b: bool)
        ensures
            b == (self.code@ == other.code@),
    {
        self.code == other.code
    }
}

/// A decoded line of a filing.
#[derive(Debug)]
pub struct Record {
    /// The schema that the line was read under.
    pub schema: RecordSchema,
    /// The first field of the line, as it stood there.
    pub line_code: String,
    /// The values, by position, the line code first: each field of the
    /// line read under the field of the schema at its position. There may
    /// be fewer or more values than the schema has fields.
    pub values: Vec<Value>,
}

impl Clone for Record {
    fn clone(&self) -> (r: Self)
        ensures
            r@ == self@,
    {
        let mut values: Vec<Value> = Vec::new();
        let mut i: usize = 0;
        while i < self.values.len()
            invariant
                i <= self.values.len(),
                values.len() == i,
                forall|k: int| 0 <= k < i ==> (#[trigger] values@[k])@ == self.values@[k]@,
            decreases self.values.len() - i,
        {
            values.push(self.values[i].clone());
            i += 1;
        }
        assert(value_views(values@) =~= value_views(self.values@));
        Record { schema: self.schema.clone(), line_code: self.line_code.clone(), values }
    }
}

/// What a [`Record`] holds, as mathematical data.
pub struct RecordView {
    pub schema: RecordSchemaView,
    pub line_code: Seq<char>,
    pub values: Seq<ValueView>,
}

impl View for Record {
    type V = RecordView;

    open spec fn view(&self) -> RecordView {
        RecordView {
            schema: self.schema@,
            line_code: self.line_code@,
            values: value_views(self.values@),
        }
    }
}

impl RecordView {
    /// The value of the first field with the given name, where the schema
    /// has such a field and the record a value at its position.
    pub open spec fn value_of(self, name: Seq<char>) -> Option<ValueView> {
        let i = first_index(self.schema.names(), name) as int;
        if i < self.schema.fields.len() && i < self.values.len() {
            Some(self.values[i])
        } else {
            None
        }
    }
}

impl Record {
    /// The value of the field with the given name. Where several fields
    /// have the name, the first counts.
    pub fn get_value(&self, field_name: &str) -> (r: Option<&Value>)
        ensures
            match r {
                Some(v) => self@.value_of(field_name@) == Some(v@),
                None => self@.value_of(field_name@) is None,
            },
    {
        let fields = &self.schema.fields;
        let ghost names = self@.schema.names();
        let mut i: usize = 0;
        while i < fields.len()
            invariant
                i <= fields.len(),
                fields == &self.schema.fields,
                names == self@.schema.names(),
                forall|j: int| 0 <= j < i ==> #[trigger] names[j] != field_name@,
            decreases fields.len() - i,
        {
            if str_eq(fields[i].name.as_str(), field_name) {
                proof {
                    assert(names[i as int] == field_name@);
                    lemma_first_index(names, field_name@, i as int);
                }
                if i < self.values.len() {
                    return Some(&self.values[i]);
                } else {
                    return None;
                }
            }
            assert(names[i as int] == fields@[i as int].name@);
            i += 1;
        }
        proof {
            lemma_first_index(names, field_name@, i as int);
        }
        None
    }
}

/// Reading the text of a value under the type of the value gives the
/// value back: an absent value is written as nothing and read as absent,
/// and a present value is read from its own text.
///
/// This holds of integers, floating-point literals and truth values, and
/// of text that is not empty and neither begins nor ends with whitespace.
/// It does not hold of present dates, which are written with hyphens and
/// read without.
pub proof fn lemma_parse_round_trip(x: ValueView)
    requires
        x.wf(),
        !(x matches ValueView::Date(Some(_))),
        x matches ValueView::String(Some(s)) ==> s.len() > 0 && trimmed(s) == s,
    ensures
        parse_value(x.typ(), Some(x.text())) == Some(x),
{
    let t = x.text();
    match x {
        ValueView::String(Some(s)) => {},
        ValueView::Integer(Some(i)) => {
            lemma_int_text_round_trip(i as int);
            lemma_trimmed_fixed(t);
        },
        ValueView::Float(Some(f)) => {
            lemma_float_text_ends(f);
            lemma_trimmed_fixed(t);
        },
        ValueView::Boolean(Some(b)) => {
            lemma_trimmed_fixed(t);
            if !b {
                assert(false_text()[0] != true_text()[0]);
            }
        },
        _ => {
            assert(t =~= Seq::<char>::empty());
            lemma_trimmed_fixed(t);
        },
    }
}

/// A value read from a field has the type that it was read under, and is
/// one that reading can produce.
pub proof fn lemma_parse_value_wf(typ: ValueType, raw: Option<Seq<char>>)
    ensures
        parse_value(typ, raw) matches Some(v) ==> v.typ() == typ && v.wf(),
        absent(typ).typ() == typ,
        absent(typ).wf(),
{
    if let Some(r) = raw {
        let t = trimmed(r);
        if typ == ValueType::Date && date_of_text(t) is Some {
            let year = digits_value(t.subrange(0, 4));
            let month = digits_value(t.subrange(4, 6));
            let day = digits_value(t.subrange(6, 8));
            lemma_date_parts(year, month, day);
        }
    }
}

} // verus!
