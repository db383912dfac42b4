//! The schema registry: a table of patterns for line codes and versions,
//! resolved in order, with the resolved schemas remembered.

use crate::error::{Error, ErrorView};
use crate::record::{FieldSchema, FieldSchemaView, RecordSchema, RecordSchemaView, ValueType};
use crate::schemas::json::{json_document, parse_json, Json};
use crate::text::{str_eq, views};
use vstd::prelude::*;
use vstd::string::StringExecFns;

verus! {

/// `regex::Regex`, a compiled regular expression, as an opaque value.
#[verifier::external_type_specification]
#[verifier::external_body]
pub struct ExRegex(regex::Regex);

/// Whether `regex::Regex::is_match` finds the expression anywhere in a text.
pub uninterp spec fn regex_matches(re: regex::Regex, text: Seq<char>) -> bool;

/// The expression that `regex::RegexBuilder::build`, set to ignore case,
/// makes of a pattern, or `None` where it refuses the pattern.
pub uninterp spec fn compiled(pattern: Seq<char>) -> Option<regex::Regex>;

/// `regex::Regex::is_match` depends on the expression and the text alone.
pub assume_specification[ regex::Regex::is_match ](re: &regex::Regex, haystack: &str) -> (b: bool)
    ensures
        b == regex_matches(*re, haystack@),
;

/// `regex::RegexBuilder::build` for a pattern, set to ignore case. What it
/// makes of the pattern depends on the pattern alone; why it refused one
/// is dropped.
#[verifier::external_body]
fn make_regex(s: &str) -> (r: Option<regex::Regex>)
    ensures
        r == compiled(s@),
{
    regex::RegexBuilder::new(s).case_insensitive(true).build().ok()
}

/// The fields of the lines of the versions that a pattern matches.
#[derive(Debug)]
pub struct VersionEntry {
    /// The pattern for the file-format version, as written.
    pub pattern: String,
    /// The pattern, compiled to ignore case.
    pub regex: regex::Regex,
    /// The names of the fields, by position.
    pub fields: Vec<String>,
}

/// The versions of the lines whose code a pattern matches.
#[derive(Debug)]
pub struct LineCodeEntry {
    /// The pattern for the line code, as written.
    pub pattern: String,
    /// The pattern, compiled to ignore case.
    pub regex: regex::Regex,
    /// The versions, in the order of the table.
    pub versions: Vec<VersionEntry>,
}

/// The table that schemas are resolved from. Its order decides: of the
/// entries that match, the earliest wins.
#[derive(Debug)]
pub struct Mappings {
    pub entries: Vec<LineCodeEntry>,
}

/// A table of patterns and field names as plain text: for each pattern of
/// a line code, for each pattern of a version, the names of the fields.
pub type Table = Vec<(String, Vec<(String, Vec<String>)>)>;

/// What a [`Table`] holds, as mathematical data.
pub type TableView = Seq<(Seq<char>, Seq<(Seq<char>, Seq<Seq<char>>)>)>;

/// Why a table of mappings could not be loaded.
#[derive(Debug)]
pub enum MappingsError {
    /// The text is not a JSON document.
    Syntax,
    /// The document is not an object of objects of arrays of strings.
    Shape,
    /// The pattern is not a regular expression.
    Pattern(String),
}

/// The view of the versions of one line-code pattern of a table.
pub open spec fn versions_view(versions: Seq<(String, Vec<String>)>) -> Seq<
    (Seq<char>, Seq<Seq<char>>),
> {
    versions.map_values(|v: (String, Vec<String>)| (v.0@, views(v.1@)))
}

/// The view of a table.
pub open spec fn table_view(table: Seq<(String, Vec<(String, Vec<String>)>)>) -> TableView {
    table.map_values(|e: (String, Vec<(String, Vec<String>)>)| (e.0@, versions_view(e.1@)))
}

/// The position of the first version at or after `from` whose pattern
/// matches the version.
pub open spec fn find_version(versions: Seq<VersionEntry>, version: Seq<char>, from: int) -> Option<
    int,
>
    decreases versions.len() - from,
{
    if from < 0 || from >= versions.len() {
        None
    } else if regex_matches(versions[from].regex, version) {
        Some(from)
    } else {
        find_version(versions, version, from + 1)
    }
}

/// The positions of the first pair of patterns at or after entry `from`
/// that match the line code and the version: the earliest entry whose
/// pattern matches the line code and that has a version that matches, and
/// in it the earliest such version.
pub open spec fn find_entry(
    entries: Seq<LineCodeEntry>,
    version: Seq<char>,
    line_code: Seq<char>,
    from: int,
) -> Option<(int, int)>
    decreases entries.len() - from,
{
    if from < 0 || from >= entries.len() {
        None
    } else if regex_matches(entries[from].regex, line_code) && find_version(
        entries[from].versions@,
        version,
        0,
    ) is Some {
        Some((from, find_version(entries[from].versions@, version, 0)->0))
    } else {
        find_entry(entries, version, line_code, from + 1)
    }
}

/// The type of the field of a line. Every field is text.
pub open spec fn field_type(line_code: Seq<char>, name: Seq<char>) -> ValueType {
    ValueType::String
}

/// The fields of a schema for the lines of a code, from their names.
pub open spec fn schema_fields(line_code: Seq<char>, names: Seq<String>) -> Seq<FieldSchemaView> {
    names.map_values(|n: String| FieldSchemaView { name: n@, typ: field_type(line_code, n@) })
}

impl VersionEntry {
    /// The entry as the plain text of a table.
    pub open spec fn view_entry(self) -> (Seq<char>, Seq<Seq<char>>) {
        (self.pattern@, views(self.fields@))
    }
}

impl LineCodeEntry {
    /// The entry as the plain text of a table.
    pub open spec fn view_entry(self) -> (Seq<char>, Seq<(Seq<char>, Seq<Seq<char>>)>) {
        (self.pattern@, self.versions@.map_values(|v: VersionEntry| v.view_entry()))
    }
}

impl View for Mappings {
    type V = TableView;

    /// The table as plain text: the patterns as written and the field
    /// names, in their order. The compiled expressions are left out: in a
    /// table that is well formed each is what its pattern compiles to, so
    /// the text decides what the table resolves to.
    open spec fn view(&self) -> TableView {
        self.entries@.map_values(|e: LineCodeEntry| e.view_entry())
    }
}

/// The position of the first version of a table entry, at or after
/// `from`, whose pattern matches the version.
pub open spec fn table_version(
    versions: Seq<(Seq<char>, Seq<Seq<char>>)>,
    version: Seq<char>,
    from: int,
) -> Option<int>
    decreases versions.len() - from,
{
    if from < 0 || from >= versions.len() {
        None
    } else if regex_matches(compiled(versions[from].0)->0, version) {
        Some(from)
    } else {
        table_version(versions, version, from + 1)
    }
}

/// What a table of patterns, each of them a regular expression, resolves
/// a version and a line code to: the field names under the first entry, at
/// or after `from`, whose pattern matches the line code and that has a
/// version whose pattern matches the version, and in it under the first
/// such version.
pub open spec fn table_names(
    table: TableView,
    version: Seq<char>,
    line_code: Seq<char>,
    from: int,
) -> Option<Seq<Seq<char>>>
    decreases table.len() - from,
{
    if from < 0 || from >= table.len() {
        None
    } else if regex_matches(compiled(table[from].0)->0, line_code) && table_version(
        table[from].1,
        version,
        0,
    ) is Some {
        Some(table[from].1[table_version(table[from].1, version, 0)->0].1)
    } else {
        table_names(table, version, line_code, from + 1)
    }
}

/// The schema that a table of patterns resolves a version and a line code
/// to: the code, and each field name as a field of text.
pub open spec fn table_schema(table: TableView, version: Seq<char>, line_code: Seq<char>) -> Option<
    RecordSchemaView,
> {
    match table_names(table, version, line_code, 0) {
        Some(names) => Some(
            RecordSchemaView {
                code: line_code,
                fields: names.map_values(
                    |n: Seq<char>| FieldSchemaView { name: n, typ: field_type(line_code, n) },
                ),
            },
        ),
        None => None,
    }
}

/// Whether every expression of the versions of an entry is what its
/// pattern compiles to.
pub open spec fn versions_wf(versions: Seq<VersionEntry>) -> bool {
    forall|j: int|
        0 <= j < versions.len() ==> compiled((#[trigger] versions[j]).pattern@) == Some(
            versions[j].regex,
        )
}

/// Whether every expression of the entries of a table is what its pattern
/// compiles to.
pub open spec fn entries_wf(entries: Seq<LineCodeEntry>) -> bool {
    forall|i: int|
        0 <= i < entries.len() ==> compiled((#[trigger] entries[i]).pattern@) == Some(
            entries[i].regex,
        ) && versions_wf(entries[i].versions@)
}

impl Mappings {
    /// Every expression of the table is what its pattern compiles to.
    pub open spec fn wf(&self) -> bool {
        entries_wf(self.entries@)
    }

    /// The schema of the lines with a code in a version of the format:
    /// the code, and the field names of the first pair of patterns that
    /// match, each as a field of text.
    pub open spec fn resolve(&self, version: Seq<char>, line_code: Seq<char>) -> Option<
        RecordSchemaView,
    > {
        match find_entry(self.entries@, version, line_code, 0) {
            Some((i, j)) => Some(
                RecordSchemaView {
                    code: line_code,
                    fields: schema_fields(line_code, self.entries@[i].versions@[j].fields@),
                },
            ),
            None => None,
        }
    }
}

/// The versions of an entry resolve as the patterns of the entry say.
pub proof fn lemma_table_version(versions: Seq<VersionEntry>, version: Seq<char>, from: int)
    requires
        versions_wf(versions),
    ensures
        find_version(versions, version, from) == table_version(
            versions.map_values(|v: VersionEntry| v.view_entry()),
            version,
            from,
        ),
    decreases versions.len() - from,
{
    if 0 <= from < versions.len() {
        lemma_table_version(versions, version, from + 1);
    }
}

/// A table of mappings resolves as its patterns say.
pub proof fn lemma_table_names(
    mappings: Mappings,
    version: Seq<char>,
    line_code: Seq<char>,
    from: int,
)
    requires
        mappings.wf(),
    ensures
        match find_entry(mappings.entries@, version, line_code, from) {
            Some((i, j)) => table_names(mappings@, version, line_code, from) == Some(
                views(mappings.entries@[i].versions@[j].fields@),
            ),
            None => table_names(mappings@, version, line_code, from) is None,
        },
    decreases mappings.entries@.len() - from,
{
    if 0 <= from < mappings.entries@.len() {
        let entry = mappings.entries@[from];
        lemma_table_version(entry.versions@, version, 0);
        lemma_find_version_bounds(entry.versions@, version, 0);
        lemma_table_names(mappings, version, line_code, from + 1);
    }
}

/// A version that is found is one of the versions.
pub proof fn lemma_find_version_bounds(versions: Seq<VersionEntry>, version: Seq<char>, from: int)
    ensures
        find_version(versions, version, from) matches Some(j) ==> 0 <= j < versions.len(),
    decreases versions.len() - from,
{
    if 0 <= from < versions.len() {
        lemma_find_version_bounds(versions, version, from + 1);
    }
}

/// The schemas that a table of mappings resolves to depend on the text of
/// the table alone: on its patterns and field names, in their order.
pub proof fn lemma_resolve_by_table(mappings: Mappings, version: Seq<char>, line_code: Seq<char>)
    requires
        mappings.wf(),
    ensures
        mappings.resolve(version, line_code) == table_schema(mappings@, version, line_code),
{
    lemma_table_names(mappings, version, line_code, 0);
    match find_entry(mappings.entries@, version, line_code, 0) {
        Some((i, j)) => {
            let names = mappings.entries@[i].versions@[j].fields@;
            assert(schema_fields(line_code, names) =~= views(names).map_values(
                |n: Seq<char>| FieldSchemaView { name: n, typ: field_type(line_code, n) },
            ));
        },
        None => {},
    }
}

/// The type of the field of a line. Every field is text; a table of types
/// would be consulted here.
pub fn type_of_field(line_code: &str, name: &str) -> (typ: ValueType)
    ensures
        typ == field_type(line_code@, name@),
{
    ValueType::String
}

/// The schema for the lines of a code with the given field names.
fn make_schema(line_code: &str, names: &Vec<String>) -> (schema: RecordSchema)
    ensures
        schema@ == (RecordSchemaView {
            code: line_code@,
            fields: schema_fields(line_code@, names@),
        }),
{
    let mut fields: Vec<FieldSchema> = Vec::new();
    let mut k: usize = 0;
    while k < names.len()
        invariant
            k <= names.len(),
            fields.len() == k,
            forall|n: int|
                0 <= n < k ==> (#[trigger] fields@[n])@ == (FieldSchemaView {
                    name: names@[n]@,
                    typ: field_type(line_code@, names@[n]@),
                }),
        decreases names.len() - k,
    {
        let typ = type_of_field(line_code, names[k].as_str());
        fields.push(FieldSchema { name: names[k].clone(), typ });
        k += 1;
    }
    let schema = RecordSchema { code: String::from_str(line_code), fields };
    assert(schema@.fields =~= schema_fields(line_code@, names@));
    schema
}

/// The error for a line code that no pattern of the table matches in the
/// version of the filing.
pub open spec fn is_schema_error(e: Error, version: Seq<char>, line_code: Seq<char>) -> bool {
    e@ == ErrorView::SchemaError(version, line_code)
}

/// Resolve the schema of the lines with a code in a version of the format:
/// walk the table in order, and take the first entry whose pattern matches
/// the line code and that has a version whose pattern matches the version.
pub fn do_lookup(mappings: &Mappings, version: &str, line_code: &str) -> (r: Result<
    RecordSchema,
    Error,
>)
    ensures
        match r {
            Ok(schema) => mappings.resolve(version@, line_code@) == Some(schema@),
            Err(e) => mappings.resolve(version@, line_code@) is None && is_schema_error(
                e,
                version@,
                line_code@,
            ),
        },
{
    let entries = &mappings.entries;
    let mut i: usize = 0;
    while i < entries.len()
        invariant
            i <= entries.len(),
            entries == &mappings.entries,
            find_entry(entries@, version@, line_code@, 0) == find_entry(
                entries@,
                version@,
                line_code@,
                i as int,
            ),
        decreases entries.len() - i,
    {
        let entry = &entries[i];
        if entry.regex.is_match(line_code) {
            let versions = &entry.versions;
            let mut j: usize = 0;
            while j < versions.len()
                invariant
                    j <= versions.len(),
                    i < entries.len(),
                    entries == &mappings.entries,
                    entry == &entries@[i as int],
                    versions == &entry.versions,
                    regex_matches(entry.regex, line_code@),
                    find_version(versions@, version@, 0) == find_version(
                        versions@,
                        version@,
                        j as int,
                    ),
                    find_entry(entries@, version@, line_code@, 0) == find_entry(
                        entries@,
                        version@,
                        line_code@,
                        i as int,
                    ),
                decreases versions.len() - j,
            {
                if versions[j].regex.is_match(version) {
                    return Ok(make_schema(line_code, &versions[j].fields));
                }
                j += 1;
            }
        }
        i += 1;
    }
    Err(Error::SchemaError(String::from_str(version), String::from_str(line_code)))
}

/// A schema that was resolved, with the version and the line code that it
/// was resolved for.
#[derive(Debug)]
pub struct CacheEntry {
    pub version: String,
    pub line_code: String,
    pub schema: RecordSchema,
}

/// What a [`CacheEntry`] holds, as mathematical data.
pub struct CacheEntryView {
    pub version: Seq<char>,
    pub line_code: Seq<char>,
    pub schema: RecordSchemaView,
}

impl View for CacheEntry {
    type V = CacheEntryView;

    open spec fn view(&self) -> CacheEntryView {
        CacheEntryView { version: self.version@, line_code: self.line_code@, schema: self.schema@ }
    }
}

/// Whether a schema is remembered for a version and a line code.
pub open spec fn is_cached(cache: Seq<CacheEntryView>, version: Seq<char>, line_code: Seq<char>) -> bool {
    exists|k: int|
        0 <= k < cache.len() && (#[trigger] cache[k]).version == version && cache[k].line_code
            == line_code
}

/// The schemas remembered after a lookup: the schema that the table
/// resolves to joins them at the end, unless one is remembered already for
/// the version and the line code, or the table resolves to none.
pub open spec fn remember(
    mappings: Mappings,
    cached: Seq<CacheEntryView>,
    version: Seq<char>,
    line_code: Seq<char>,
) -> Seq<CacheEntryView> {
    match mappings.resolve(version, line_code) {
        Some(schema) => if is_cached(cached, version, line_code) {
            cached
        } else {
            cached.push(CacheEntryView { version, line_code, schema })
        },
        None => cached,
    }
}

/// The table of mappings together with the schemas resolved so far. A
/// schema is resolved once for each version and line code; later lookups
/// hand out the schema that was remembered, which never changes.
pub struct SchemaRegistry {
    mappings: Mappings,
    cache: Vec<CacheEntry>,
}

impl SchemaRegistry {
    /// The table that schemas are resolved from.
    pub closed spec fn mappings(&self) -> Mappings {
        self.mappings
    }

    /// The schemas remembered, in the order in which they were resolved.
    pub closed spec fn cached(&self) -> Seq<CacheEntryView> {
        self.cache@.map_values(|e: CacheEntry| e@)
    }

    /// Every schema remembered is the one that the table resolves to, and
    /// none is remembered twice.
    #[verifier::type_invariant]
    pub closed spec fn wf(&self) -> bool {
        &&& forall|k: int|
            0 <= k < self.cache@.len() ==> self.mappings.resolve(
                (#[trigger] self.cache@[k]).version@,
                self.cache@[k].line_code@,
            ) == Some(self.cache@[k].schema@)
        &&& forall|k: int, l: int|
            0 <= k < l < self.cache@.len() ==> !((#[trigger] self.cache@[k]).version@
                == (#[trigger] self.cache@[l]).version@ && self.cache@[k].line_code@
                == self.cache@[l].line_code@)
    }

    /// A registry over a table, with nothing resolved yet.
    pub fn new(mappings: Mappings) -> (registry: SchemaRegistry)
        ensures
            registry.mappings() == mappings,
            registry.cached() == Seq::<CacheEntryView>::empty(),
    {
        let registry = SchemaRegistry { mappings, cache: Vec::new() };
        assert(registry.cached() =~= Seq::<CacheEntryView>::empty());
        registry
    }

    /// The table that schemas are resolved from.
    pub fn table(&self) -> (m: &Mappings)
        ensures
            *m == self.mappings(),
    {
        &self.mappings
    }

    /// The number of schemas remembered.
    pub fn cached_len(&self) -> (n: usize)
        ensures
            n == self.cached().len(),
    {
        self.cache.len()
    }

    /// The position of the schema remembered for a version and line code.
    fn find_cached(&self, version: &str, line_code: &str) -> (r: Option<usize>)
        ensures
            match r {
                Some(k) => k < self.cache@.len() && self.cache@[k as int].version@ == version@
                    && self.cache@[k as int].line_code@ == line_code@,
                None => !is_cached(self.cached(), version@, line_code@),
            },
    {
        let mut k: usize = 0;
        while k < self.cache.len()
            invariant
                k <= self.cache.len(),
                forall|l: int|
                    0 <= l < k ==> !((#[trigger] self.cache@[l]).version@ == version@
                        && self.cache@[l].line_code@ == line_code@),
            decreases self.cache.len() - k,
        {
            if str_eq(self.cache[k].version.as_str(), version) && str_eq(
                self.cache[k].line_code.as_str(),
                line_code,
            ) {
                return Some(k);
            }
            k += 1;
        }
        assert forall|l: int| 0 <= l < self.cached().len() implies !((
        #[trigger] self.cached()[l]).version == version@ && self.cached()[l].line_code
            == line_code@) by {
            assert(self.cached()[l] == self.cache@[l]@);
        }
        None
    }

    /// What a lookup does to the registry: the table never changes, and
    /// the schema that it resolves to, if any, is remembered from then on.
    /// What was remembered before stays as it was.
    pub open spec fn remembers(
        before: SchemaRegistry,
        after: SchemaRegistry,
        version: Seq<char>,
        line_code: Seq<char>,
    ) -> bool {
        &&& after.mappings() == before.mappings()
        &&& after.cached() == remember(before.mappings(), before.cached(), version, line_code)
    }

    /// What a lookup does to the registry and returns: the schema that the
    /// table resolves to, remembered from then on; or the error that the
    /// table has no schema for the version and the line code.
    pub open spec fn lookup_post(
        before: SchemaRegistry,
        after: SchemaRegistry,
        version: Seq<char>,
        line_code: Seq<char>,
        r: Result<RecordSchema, Error>,
    ) -> bool {
        &&& Self::remembers(before, after, version, line_code)
        &&& match r {
            Ok(schema) => before.mappings().resolve(version, line_code) == Some(schema@),
            Err(e) => before.mappings().resolve(version, line_code) is None && is_schema_error(
                e,
                version,
                line_code,
            ),
        }
    }

    /// Look up the schema of the lines with a code in a version of the
    /// format. The first lookup for a version and a line code resolves the
    /// schema from the table and remembers it; every later one returns the
    /// schema that was remembered.
    pub fn lookup(&mut self, version: &str, line_code: &str) -> (r: Result<RecordSchema, Error>)
        ensures
            Self::lookup_post(*old(self), *final(self), version@, line_code@, r),
    {
        proof {
            use_type_invariant(&*self);
        }
        match self.find_cached(version, line_code) {
            Some(k) => {
                let schema = self.cache[k].schema.clone();
                assert(self.cached()[k as int] == self.cache@[k as int]@);
                Ok(schema)
            },
            None => {
                let schema = do_lookup(&self.mappings, version, line_code)?;
                let ghost before = self.cache@;
                let entry = CacheEntry {
                    version: String::from_str(version),
                    line_code: String::from_str(line_code),
                    schema: schema.clone(),
                };
                proof {
                    assert forall|l: int| 0 <= l < before.len() implies !((
                    #[trigger] before[l]).version@ == version@ && before[l].line_code@
                        == line_code@) by {
                        assert(old(self).cached()[l] == before[l]@);
                    }
                }
                let mut cache: Vec<CacheEntry> = Vec::new();
                std::mem::swap(&mut cache, &mut self.cache);
                cache.push(entry);
                proof {
                    assert forall|k: int| 0 <= k < cache@.len() implies self.mappings.resolve(
                        (#[trigger] cache@[k]).version@,
                        cache@[k].line_code@,
                    ) == Some(cache@[k].schema@) by {
                        if k < before.len() {
                            assert(cache@[k] == before[k]);
                        }
                    }
                    assert forall|k: int, l: int| 0 <= k < l < cache@.len() implies !((
                    #[trigger] cache@[k]).version@ == (#[trigger] cache@[l]).version@
                        && cache@[k].line_code@ == cache@[l].line_code@) by {
                        assert(cache@[k] == before[k]);
                        if l < before.len() {
                            assert(cache@[l] == before[l]);
                        }
                    }
                }
                std::mem::swap(&mut cache, &mut self.cache);
                proof {
                    assert(self.cached() =~= old(self).cached().push(
                        CacheEntryView { version: version@, line_code: line_code@, schema: schema@ },
                    ));
                    assert(self.cached()[before.len() as int].version == version@);
                }
                Ok(schema)
            },
        }
    }
}

/// Look up the schema of the lines with a code in a version of the format.
///
/// The version is the one in the header of the filing, like `8.3`; the line
/// code is the first field of a line, like `F3` or `SA11`.
pub fn lookup_schema(registry: &mut SchemaRegistry, version: &str, line_code: &str) -> (r: Result<
    RecordSchema,
    Error,
>)
    ensures
        SchemaRegistry::lookup_post(*old(registry), *final(registry), version@, line_code@, r),
{
    registry.lookup(version, line_code)
}

/// A schema, once resolved, is stable: whatever was looked up in between,
/// a later lookup of the same version and line code over the same table
/// returns the schema that the first lookup returned, and a lookup that
/// follows at once remembers nothing new.
pub proof fn lemma_lookup_stable(
    before: SchemaRegistry,
    between: SchemaRegistry,
    later: SchemaRegistry,
    after: SchemaRegistry,
    version: Seq<char>,
    line_code: Seq<char>,
    first: Result<RecordSchema, Error>,
    second: Result<RecordSchema, Error>,
)
    requires
        SchemaRegistry::lookup_post(before, between, version, line_code, first),
        SchemaRegistry::lookup_post(later, after, version, line_code, second),
        later.mappings() == between.mappings(),
        first is Ok,
    ensures
        second is Ok,
        second->Ok_0@ == first->Ok_0@,
        is_cached(between.cached(), version, line_code),
        later == between ==> after.cached() == between.cached(),
{
    let entry = CacheEntryView { version, line_code, schema: first->Ok_0@ };
    if !is_cached(before.cached(), version, line_code) {
        assert(between.cached()[before.cached().len() as int] == entry);
    } else {
        assert(between.cached() == before.cached());
    }
}

/// Whether every member of a JSON array is a string.
pub open spec fn all_text(items: Seq<Json>) -> bool {
    forall|k: int| 0 <= k < items.len() ==> (#[trigger] items[k]) is Text
}

/// The strings of a JSON array of strings.
pub open spec fn texts_of(items: Seq<Json>) -> Seq<Seq<char>> {
    items.map_values(|j: Json| j->Text_0@)
}

/// Whether every member of a JSON object is an array of strings.
pub open spec fn all_name_lists(members: Seq<(String, Json)>) -> bool {
    forall|k: int|
        0 <= k < members.len() ==> (#[trigger] members[k]).1 is Array && all_text(
            members[k].1->Array_0@,
        )
}

/// The versions of one line-code pattern, from the members of its object.
pub open spec fn versions_of(members: Seq<(String, Json)>) -> Seq<(Seq<char>, Seq<Seq<char>>)> {
    members.map_values(|m: (String, Json)| (m.0@, texts_of(m.1->Array_0@)))
}

/// Whether every member of a JSON object is an object of arrays of strings.
pub open spec fn all_version_maps(members: Seq<(String, Json)>) -> bool {
    forall|k: int|
        0 <= k < members.len() ==> (#[trigger] members[k]).1 is Object && all_name_lists(
            members[k].1->Object_0@,
        )
}

/// The table that a JSON document holds: the document is an object whose
/// members are objects whose members are arrays of strings, and the table
/// has their keys and strings in the order of the document. `None` where
/// the document has another shape.
pub open spec fn table_of(json: Json) -> Option<TableView> {
    if json is Object && all_version_maps(json->Object_0@) {
        Some(
            json->Object_0@.map_values(
                |m: (String, Json)| (m.0@, versions_of(m.1->Object_0@)),
            ),
        )
    } else {
        None
    }
}

/// The field names in a JSON array of strings.
fn names_from_json(items: &Vec<Json>) -> (r: Option<Vec<String>>)
    ensures
        match r {
            Some(names) => all_text(items@) && views(names@) == texts_of(items@),
            None => !all_text(items@),
        },
{
    let mut names: Vec<String> = Vec::new();
    let mut k: usize = 0;
    while k < items.len()
        invariant
            k <= items.len(),
            names.len() == k,
            forall|n: int| 0 <= n < k ==> (#[trigger] items@[n]) is Text,
            forall|n: int| 0 <= n < k ==> (#[trigger] names@[n])@ == items@[n]->Text_0@,
        decreases items.len() - k,
    {
        match &items[k] {
            Json::Text(s) => {
                names.push(s.clone());
            },
            _ => {
                return None;
            },
        }
        k += 1;
    }
    assert(views(names@) =~= texts_of(items@));
    Some(names)
}

/// The versions in a JSON object of arrays of strings.
fn versions_from_json(members: &Vec<(String, Json)>) -> (r: Option<Vec<(String, Vec<String>)>>)
    ensures
        match r {
            Some(versions) => all_name_lists(members@) && versions_view(versions@) == versions_of(
                members@,
            ),
            None => !all_name_lists(members@),
        },
{
    let mut versions: Vec<(String, Vec<String>)> = Vec::new();
    let mut k: usize = 0;
    while k < members.len()
        invariant
            k <= members.len(),
            versions.len() == k,
            forall|n: int|
                0 <= n < k ==> (#[trigger] members@[n]).1 is Array && all_text(
                    members@[n].1->Array_0@,
                ),
            forall|n: int|
                0 <= n < k ==> (#[trigger] versions@[n]).0@ == members@[n].0@ && views(
                    versions@[n].1@,
                ) == texts_of(members@[n].1->Array_0@),
        decreases members.len() - k,
    {
        match &members[k].1 {
            Json::Array(items) => {
                match names_from_json(items) {
                    Some(names) => {
                        versions.push((members[k].0.clone(), names));
                    },
                    None => {
                        return None;
                    },
                }
            },
            _ => {
                return None;
            },
        }
        k += 1;
    }
    assert(versions_view(versions@) =~= versions_of(members@));
    Some(versions)
}

/// The table that a JSON document holds, where it has the shape of one.
pub fn table_from_json(json: &Json) -> (r: Option<Table>)
    ensures
        match r {
            Some(table) => table_of(*json) == Some(table_view(table@)),
            None => table_of(*json) is None,
        },
{
    let members = match json {
        Json::Object(members) => members,
        _ => {
            return None;
        },
    };
    let mut table: Table = Vec::new();
    let mut k: usize = 0;
    while k < members.len()
        invariant
            k <= members.len(),
            table.len() == k,
            *json is Object,
            json->Object_0@ == members@,
            forall|n: int|
                0 <= n < k ==> (#[trigger] members@[n]).1 is Object && all_name_lists(
                    members@[n].1->Object_0@,
                ),
            forall|n: int|
                0 <= n < k ==> (#[trigger] table@[n]).0@ == members@[n].0@ && versions_view(
                    table@[n].1@,
                ) == versions_of(members@[n].1->Object_0@),
        decreases members.len() - k,
    {
        match &members[k].1 {
            Json::Object(inner) => {
                match versions_from_json(inner) {
                    Some(versions) => {
                        table.push((members[k].0.clone(), versions));
                    },
                    None => {
                        return None;
                    },
                }
            },
            _ => {
                return None;
            },
        }
        k += 1;
    }
    assert(table_view(table@) =~= json->Object_0@.map_values(
        |m: (String, Json)| (m.0@, versions_of(m.1->Object_0@)),
    ));
    Some(table)
}

/// The first pattern of the versions of one entry, at or after `from`,
/// that is no regular expression.
pub open spec fn refused_version(versions: Seq<(Seq<char>, Seq<Seq<char>>)>, from: int) -> Option<
    Seq<char>,
>
    decreases versions.len() - from,
{
    if from < 0 || from >= versions.len() {
        None
    } else if compiled(versions[from].0) is None {
        Some(versions[from].0)
    } else {
        refused_version(versions, from + 1)
    }
}

/// The first pattern of a table, at or after entry `from`, that is no
/// regular expression. The patterns stand in the order of the table: the
/// pattern of a line code, the patterns of its versions, the pattern of
/// the next line code, and so on.
pub open spec fn refused_pattern(table: TableView, from: int) -> Option<Seq<char>>
    decreases table.len() - from,
{
    if from < 0 || from >= table.len() {
        None
    } else if compiled(table[from].0) is None {
        Some(table[from].0)
    } else if refused_version(table[from].1, 0) is Some {
        refused_version(table[from].1, 0)
    } else {
        refused_pattern(table, from + 1)
    }
}

/// Compile the versions of one entry of a table.
fn compile_versions(versions: &Vec<(String, Vec<String>)>) -> (r: Result<
    Vec<VersionEntry>,
    MappingsError,
>)
    ensures
        match r {
            Ok(entries) => {
                &&& refused_version(versions_view(versions@), 0) is None
                &&& entries@.map_values(|v: VersionEntry| v.view_entry()) == versions_view(
                    versions@,
                )
                &&& versions_wf(entries@)
            },
            Err(e) => e matches MappingsError::Pattern(p) && refused_version(
                versions_view(versions@),
                0,
            ) == Some(p@),
        },
{
    let ghost vv = versions_view(versions@);
    let mut entries: Vec<VersionEntry> = Vec::new();
    let mut k: usize = 0;
    while k < versions.len()
        invariant
            k <= versions.len(),
            entries.len() == k,
            vv == versions_view(versions@),
            refused_version(vv, 0) == refused_version(vv, k as int),
            forall|n: int|
                0 <= n < k ==> (#[trigger] entries@[n]).view_entry() == (
                    versions@[n].0@,
                    views(versions@[n].1@),
                ),
            forall|n: int|
                0 <= n < k ==> compiled((#[trigger] entries@[n]).pattern@) == Some(entries@[n].regex),
        decreases versions.len() - k,
    {
        assert(vv[k as int].0 == versions@[k as int].0@);
        let pattern = versions[k].0.clone();
        match make_regex(pattern.as_str()) {
            Some(regex) => {
                let fields = clone_names(&versions[k].1);
                entries.push(VersionEntry { pattern, regex, fields });
            },
            None => {
                return Err(MappingsError::Pattern(pattern));
            },
        }
        k += 1;
    }
    assert(entries@.map_values(|v: VersionEntry| v.view_entry()) =~= vv);
    Ok(entries)
}

/// A copy of a list of names.
fn clone_names(names: &Vec<String>) -> (r: Vec<String>)
    ensures
        views(r@) == views(names@),
{
    let mut r: Vec<String> = Vec::new();
    let mut k: usize = 0;
    while k < names.len()
        invariant
            k <= names.len(),
            r.len() == k,
            forall|n: int| 0 <= n < k ==> (#[trigger] r@[n])@ == names@[n]@,
        decreases names.len() - k,
    {
        r.push(names[k].clone());
        k += 1;
    }
    assert(views(r@) =~= views(names@));
    r
}

impl Mappings {
    /// Compile the patterns of a table. Where every pattern is a regular
    /// expression, the table is kept as it is, in its order; otherwise the
    /// error holds the first pattern of the table that is none.
    pub fn from_table(table: &Table) -> (r: Result<Mappings, MappingsError>)
        ensures
            match refused_pattern(table_view(table@), 0) {
                None => r matches Ok(mappings) && mappings@ == table_view(table@) && mappings.wf(),
                Some(p) => r matches Err(MappingsError::Pattern(q)) && q@ == p,
            },
    {
        let ghost tv = table_view(table@);
        let mut entries: Vec<LineCodeEntry> = Vec::new();
        let mut k: usize = 0;
        while k < table.len()
            invariant
                k <= table.len(),
                entries.len() == k,
                tv == table_view(table@),
                refused_pattern(tv, 0) == refused_pattern(tv, k as int),
                forall|n: int| 0 <= n < k ==> (#[trigger] entries@[n]).view_entry() == tv[n],
                entries_wf(entries@),
            decreases table.len() - k,
        {
            assert(tv[k as int] == (table@[k as int].0@, versions_view(table@[k as int].1@)));
            let pattern = table[k].0.clone();
            let regex = match make_regex(pattern.as_str()) {
                Some(regex) => regex,
                None => {
                    return Err(MappingsError::Pattern(pattern));
                },
            };
            let versions = compile_versions(&table[k].1)?;
            let ghost before = entries@;
            entries.push(LineCodeEntry { pattern, regex, versions });
            proof {
                assert forall|i: int| 0 <= i < entries@.len() implies compiled(
                    (#[trigger] entries@[i]).pattern@,
                ) == Some(entries@[i].regex) && versions_wf(entries@[i].versions@) by {
                    if i < k {
                        assert(entries@[i] == before[i]);
                    }
                }
            }
            k += 1;
        }
        let mappings = Mappings { entries };
        assert(mappings@ =~= tv);
        Ok(mappings)
    }
}

/// What loading a table of mappings from a text gives: the text must be a
/// JSON document, the document must have the shape of a table, and every
/// pattern of the table must be a regular expression.
pub open spec fn load_outcome(text: Seq<char>) -> Result<TableView, MappingsErrorView> {
    match json_document(text) {
        None => Err(MappingsErrorView::Syntax),
        Some(json) => match table_of(json) {
            None => Err(MappingsErrorView::Shape),
            Some(table) => match refused_pattern(table, 0) {
                Some(p) => Err(MappingsErrorView::Pattern(p)),
                None => Ok(table),
            },
        },
    }
}

/// What a [`MappingsError`] holds, as mathematical data.
pub enum MappingsErrorView {
    Syntax,
    Shape,
    Pattern(Seq<char>),
}

impl View for MappingsError {
    type V = MappingsErrorView;

    open spec fn view(&self) -> MappingsErrorView {
        match *self {
            MappingsError::Syntax => MappingsErrorView::Syntax,
            MappingsError::Shape => MappingsErrorView::Shape,
            MappingsError::Pattern(p) => MappingsErrorView::Pattern(p@),
        }
    }
}

/// The view of what loading a table of mappings returns.
pub open spec fn load_result(r: Result<Mappings, MappingsError>) -> Result<
    TableView,
    MappingsErrorView,
> {
    match r {
        Ok(mappings) => Ok(mappings@),
        Err(e) => Err(e@),
    }
}

/// Load the table of mappings from a JSON document of the shape
/// `{ line_code_pattern: { version_pattern: [field_name, ...], ... }, ... }`,
/// keeping the order of the document.
pub fn load_mappings(text: &str) -> (r: Result<Mappings, MappingsError>)
    ensures
        load_result(r) == load_outcome(text@),
        r matches Ok(mappings) ==> mappings.wf(),
{
    let json = match parse_json(text) {
        Some(json) => json,
        None => {
            return Err(MappingsError::Syntax);
        },
    };
    let table = match table_from_json(&json) {
        Some(table) => table,
        None => {
            return Err(MappingsError::Shape);
        },
    };
    Mappings::from_table(&table)
}

} // verus!
