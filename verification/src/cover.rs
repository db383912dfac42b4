//! The cover line, the second section of a filing: one line, after the
//! header and before the itemizations, with what the filing is as a whole.

use crate::error::{Error, ErrorView};
use crate::record::{FieldSchemaView, Record};
use crate::schemas::lookup::{Mappings, SchemaRegistry};
use crate::schemas::parse::{line_lookup, line_outcome, literal_outcome, LineParser, LiteralLineParser};
use crate::text::views;
use vstd::prelude::*;
use vstd::string::StringExecFns;

verus! {

/// Summary information about the filing.
#[derive(Debug)]
pub struct Cover {
    /// What form the filing is, such as `F3X`.
    pub form_type: String,
    /// Who filed it, such as `C00101766`.
    pub filer_committee_id: String,
}

/// What a [`Cover`] holds, as mathematical data.
pub struct CoverView {
    pub form_type: Seq<char>,
    pub filer_committee_id: Seq<char>,
}

impl View for Cover {
    type V = CoverView;

    open spec fn view(&self) -> CoverView {
        CoverView { form_type: self.form_type@, filer_committee_id: self.filer_committee_id@ }
    }
}

impl Clone for Cover {
    fn clone(&self) -> (r: Self)
        ensures
            r@ == self@,
    {
        Cover {
            form_type: self.form_type.clone(),
            filer_committee_id: self.filer_committee_id.clone(),
        }
    }
}

impl Default for Cover {
    /// The cover that names nothing.
    fn default() -> (r: Self)
        ensures
            r@ == (CoverView { form_type: Seq::empty(), filer_committee_id: Seq::empty() }),
    {
        Cover { form_type: String::new(), filer_committee_id: String::new() }
    }
}

/// The message of the error for a cover line without a field.
pub open spec fn msg_no_field(name: Seq<char>) -> Seq<char> {
    "no '"@ + name + "' in cover line"@
}

/// What a cover line decodes to: the line is read under the literal
/// policy; the form type is its line code, and the filer is its field
/// named `filer_committee_id_number`, which must be there.
pub open spec fn cover_outcome(mappings: Mappings, version: Seq<char>, line: Seq<Seq<char>>) -> Result<
    CoverView,
    ErrorView,
> {
    match line_outcome(
        |fields: Seq<FieldSchemaView>, line: Seq<Seq<char>>| literal_outcome(fields, line),
        mappings,
        version,
        line,
    ) {
        Err(e) => Err(e),
        Ok(record) => match record.value_of("filer_committee_id_number"@) {
            None => Err(ErrorView::CoverParseError(msg_no_field("filer_committee_id_number"@))),
            Some(v) => Ok(
                CoverView { form_type: record.line_code, filer_committee_id: v.text() },
            ),
        },
    }
}

/// The view of what decoding a cover line returns.
pub open spec fn cover_result(r: Result<Cover, Error>) -> Result<CoverView, ErrorView> {
    match r {
        Ok(cover) => Ok(cover@),
        Err(e) => Err(e@),
    }
}

/// Decode the cover line of a filing from its raw fields.
pub fn parse_cover_line(registry: &mut SchemaRegistry, fec_version: &str, line: &Vec<String>) -> (r:
    Result<Cover, Error>)
    ensures
        cover_result(r) == cover_outcome(old(registry).mappings(), fec_version@, views(line@)),
        line_lookup(*old(registry), *final(registry), fec_version@, views(line@)),
{
    let mut parser = LiteralLineParser;
    let record = parser.parse_line(registry, fec_version, line)?;
    let filer_committee_id = get(&record, "filer_committee_id_number")?;
    Ok(Cover { form_type: record.line_code.clone(), filer_committee_id })
}

/// The text of a field of the cover line.
fn get(record: &Record, field_name: &str) -> (r: Result<String, Error>)
    ensures
        match r {
            Ok(text) => record@.value_of(field_name@) matches Some(v) && text@ == v.text(),
            Err(e) => record@.value_of(field_name@) is None && e@ == ErrorView::CoverParseError(
                msg_no_field(field_name@),
            ),
        },
{
    match record.get_value(field_name) {
        Some(v) => Ok(v.to_text()),
        None => {
            let mut m = String::from_str("no '");
            m.append(field_name);
            m.append("' in cover line");
            Err(Error::CoverParseError(m))
        },
    }
}

} // verus!
