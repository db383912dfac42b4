//! The lines of a filing after its header: the field separator, and the
//! reader that splits the bytes into lines of fields.

use vstd::prelude::*;

verus! {

/// `std::io::Cursor`, a reader over bytes in memory, as an opaque value.
#[verifier::external_type_specification]
#[verifier::external_body]
#[verifier::reject_recursive_types(T)]
pub struct ExCursor<T>(std::io::Cursor<T>);

/// `csv::StringRecordsIntoIter`, the iterator over the records that a
/// `csv::Reader` reads, as an opaque value.
#[verifier::external_type_specification]
#[verifier::external_body]
#[verifier::reject_recursive_types(R)]
pub struct ExStringRecordsIntoIter<R>(::csv::StringRecordsIntoIter<R>);

/// A line as the reader hands it out: its fields, or the message of the
/// error that reading it ended in.
pub type RawLine = Result<Seq<Seq<char>>, Seq<char>>;

/// The lines that a `csv::Reader` reads from bytes, one after the other,
/// when it is built with the delimiter, without a header row, and flexible
/// in the number of fields.
pub uninterp spec fn csv_lines(data: Seq<u8>, delimiter: u8) -> Seq<RawLine>;

/// The lines that an iterator over the records of a `csv::Reader` has yet
/// to hand out.
pub uninterp spec fn pending_lines(
    records: ::csv::StringRecordsIntoIter<std::io::Cursor<Vec<u8>>>,
) -> Seq<RawLine>;

/// The view of a line that the reader handed out.
pub open spec fn raw_line_view(line: Result<Vec<String>, String>) -> RawLine {
    match line {
        Ok(fields) => Ok(fields@.map_values(|f: String| f@)),
        Err(message) => Err(message@),
    }
}

/// `csv::ReaderBuilder::from_reader` over bytes in memory, with the
/// delimiter set, no header row, and any number of fields in a line; and
/// `csv::Reader::into_records` of the reader. Nothing has been read yet.
#[verifier::external_body]
fn open_records(src: Vec<u8>, delimiter: u8) -> (records: ::csv::StringRecordsIntoIter<
    std::io::Cursor<Vec<u8>>,
>)
    ensures
        pending_lines(records) == csv_lines(src@, delimiter),
{
    ::csv::ReaderBuilder::new().delimiter(delimiter).has_headers(false).flexible(true).from_reader(
        std::io::Cursor::new(src),
    ).into_records()
}

/// `Iterator::next` of `csv::StringRecordsIntoIter`: the next line leaves
/// the lines that are pending, as its fields or as the message of its
/// error; when none is pending, nothing is returned and nothing changes.
#[verifier::external_body]
fn next_record(records: &mut ::csv::StringRecordsIntoIter<std::io::Cursor<Vec<u8>>>) -> (r: Option<
    Result<Vec<String>, String>,
>)
    ensures
        match r {
            Some(line) => pending_lines(*old(records)).len() > 0 && raw_line_view(line)
                == pending_lines(*old(records))[0] && pending_lines(*final(records))
                == pending_lines(*old(records)).drop_first(),
            None => pending_lines(*old(records)).len() == 0 && pending_lines(*final(records))
                == pending_lines(*old(records)),
        },
{
    match records.next()? {
        Ok(record) => Some(Ok(record.iter().map(|s| s.to_string()).collect())),
        Err(e) => Some(Err(e.to_string())),
    }
}

/// The single byte that separates the fields of every line of one filing.
#[derive(Debug, Clone, Copy, PartialEq, Eq, Structural)]
pub enum Sep {
    /// An ASCII comma.
    Comma,
    /// The ASCII unit separator, byte 28.
    Ascii28,
}

/// The byte that a separator stands for.
pub open spec fn sep_byte(sep: Sep) -> u8 {
    match sep {
        Sep::Comma => 44u8,
        Sep::Ascii28 => 28u8,
    }
}

/// The separator that a header line announces: the unit separator where the
/// line holds byte 28 anywhere, the comma otherwise.
pub open spec fn detected_sep(line: Seq<u8>) -> Sep {
    if line.contains(28u8) {
        Sep::Ascii28
    } else {
        Sep::Comma
    }
}

impl Sep {
    /// Return the byte value of the separator.
    pub fn to_byte(&self) -> (b: u8)
        ensures
            b == sep_byte(*self),
    {
        match self {
            Sep::Comma => 44u8,
            Sep::Ascii28 => 28u8,
        }
    }

    /// Detect the separator from the raw bytes of a line.
    pub fn detect(s: &[u8]) -> (sep: Sep)
        ensures
            sep == detected_sep(s@),
    {
        let mut i: usize = 0;
        while i < s.len()
            invariant
                i <= s.len(),
                forall|j: int| 0 <= j < i ==> s@[j] != 28u8,
            decreases s.len() - i,
        {
            if s[i] == 28u8 {
                return Sep::Ascii28;
            }
            i += 1;
        }
        Sep::Comma
    }
}

/// A reader of the lines of a filing: it splits bytes into lines, and
/// lines into fields at the separator. Lines may differ in their number of
/// fields, and there is no header row.
pub struct CsvReader {
    records: ::csv::StringRecordsIntoIter<std::io::Cursor<Vec<u8>>>,
}

impl CsvReader {
    /// The lines that have yet to be read, in order.
    pub closed spec fn pending(&self) -> Seq<RawLine> {
        pending_lines(self.records)
    }

    /// A reader over the bytes `src`, with fields separated by `sep`.
    pub fn new(src: Vec<u8>, sep: &Sep) -> (reader: CsvReader)
        ensures
            reader.pending() == csv_lines(src@, sep_byte(*sep)),
    {
        CsvReader { records: open_records(src, sep.to_byte()) }
    }

    /// Get the next raw line of the filing.
    ///
    /// Returns `None` when there are no more lines, `Some(Err)` when the
    /// line could not be read, and `Some(Ok)` with the fields of the line
    /// otherwise. An error does not end the lines: the next call goes on
    /// with the line after.
    pub fn next_line(&mut self) -> (r: Option<Result<Vec<String>, String>>)
        ensures
            match r {
                Some(line) => old(self).pending().len() > 0 && raw_line_view(line) == old(
                    self,
                ).pending()[0] && final(self).pending() == old(self).pending().drop_first(),
                None => old(self).pending().len() == 0 && final(self).pending() == old(
                    self,
                ).pending(),
            },
    {
        next_record(&mut self.records)
    }
}

} // verus!
