//! Field extraction: one delimited input line is split into fields with
//! CSV-style quoting, the position list picks fields in list order, and the
//! selection is re-joined under the same delimiter and quoting convention.

use crate::positions::{lemma_selected_push, range_slice, selected, IndexRange};
use vstd::prelude::*;
use vstd::string::StringExecFns;
use vstd::string::StringSliceAdditionalSpecFns;

verus! {

/// What the reader yields for one delimited input line: the record's fields
/// in order, with quoting resolved; `None` for a line without a record.
pub uninterp spec fn parsed_record(line: Seq<char>, delimiter: u8) -> Option<Seq<Seq<char>>>;

/// What the writer yields for one record: the fields joined by the
/// delimiter, re-quoted where needed, with the line terminator appended —
/// or nothing, on the rare inner fault (a joined byte sequence that is not
/// valid UTF-8).  Writing goes to an in-memory buffer, so the outcome is a
/// function of the fields and delimiter alone.
pub uninterp spec fn joined_record(fields: Seq<Seq<char>>, delimiter: u8) -> Option<Seq<char>>;

/// The conditions under which the emitted line is promised to re-parse to
/// exactly the fields it was written from: the record is non-empty, its
/// first field does not begin with the byte-order mark (which the reader
/// strips at the start of its input), and the delimiter collides with
/// neither the quote character nor the terminator bytes.
pub open spec fn round_trip_guard(fields: Seq<Seq<char>>, delimiter: u8) -> bool {
    &&& fields.len() > 0
    &&& (fields[0].len() == 0 || fields[0][0] as u32 != 0xFEFF)
    &&& delimiter != 34
    &&& delimiter != 10
    &&& delimiter != 13
}

/// Relies on `csv::ReaderBuilder` / `Reader::records` with headers off and
/// the given single-byte delimiter: the first record of the line, a function
/// of the line and delimiter alone; an empty line yields no record.
#[verifier::external_body]
fn read_record(line: &str, delimiter: u8) -> (r: Option<Vec<String>>)
    ensures
        r.deep_view() == parsed_record(line@, delimiter),
        line@.len() == 0 ==> r is None,
{
    let mut rdr = csv::ReaderBuilder::new()
        .has_headers(false)
        .delimiter(delimiter)
        .from_reader(line.as_bytes());
    match rdr.records().next() {
        Some(Ok(rec)) => Some(rec.iter().map(String::from).collect()),
        _ => None,
    }
}

/// Relies on `csv::WriterBuilder` / `Writer::write_record` with the given
/// single-byte delimiter, writing one record to an in-memory buffer: the
/// outcome is determined by the fields and delimiter; and where the guard
/// holds, quoting covers every embedded delimiter, quote and newline, so
/// reading the emitted line back under the same convention yields exactly
/// the fields that were written.
#[verifier::external_body]
fn write_record(fields: &Vec<String>, delimiter: u8) -> (r: Option<String>)
    ensures
        r.deep_view() == joined_record(fields.deep_view(), delimiter),
        r matches Some(line) ==> (round_trip_guard(fields.deep_view(), delimiter)
            ==> parsed_record(line@, delimiter) == Some(fields.deep_view())),
{
    let mut wtr = csv::WriterBuilder::new().delimiter(delimiter).from_writer(Vec::new());
    wtr.write_record(fields).ok()?;
    let out = wtr.into_inner().ok()?;
    String::from_utf8(out).ok()
}

/// Selects the fields of one record named by the position list, in list
/// order, skipping indices past the last field and preserving duplicates.
pub fn extract_fields(record: &Vec<String>, position_list: &Vec<IndexRange>) -> (r: Vec<String>)
    ensures
        r.deep_view() == selected(record.deep_view(), position_list@),
{
    let ghost rd = record.deep_view();
    let len = record.len();
    let mut sel: Vec<String> = Vec::new();
    let mut ri: usize = 0;
    while ri < position_list.len()
        invariant
            ri <= position_list@.len(),
            len == rd.len(),
            len == record@.len(),
            rd == record.deep_view(),
            sel.deep_view() == selected(rd, position_list@.subrange(0, ri as int)),
        decreases position_list@.len() - ri,
    {
        let rng = position_list[ri];
        let ghost prefix = position_list@.subrange(0, ri as int);
        let mut i: usize = rng.start;
        while i < rng.end && i < len
            invariant
                len == rd.len(),
                len == record@.len(),
                rd == record.deep_view(),
                rng.start <= i,
                i <= rng.end || i == rng.start,
                rng.start < len ==> i <= len,
                rng.start >= len ==> i == rng.start,
                sel.deep_view() == selected(rd, prefix) + (if rng.start < i {
                    rd.subrange(rng.start as int, i as int)
                } else {
                    Seq::<Seq<char>>::empty()
                }),
            decreases rng.end - i,
        {
            let ghost old_sel = sel.deep_view();
            let value = record[i].clone();
            sel.push(value);
            proof {
                assert(sel.deep_view() =~= old_sel.push(rd[i as int]));
                if rng.start < i {
                    assert(rd.subrange(rng.start as int, i as int + 1) =~= rd.subrange(
                        rng.start as int,
                        i as int,
                    ).push(rd[i as int]));
                } else {
                    assert(rd.subrange(rng.start as int, i as int + 1) =~= Seq::<
                        Seq<char>,
                    >::empty().push(rd[i as int]));
                }
                assert(sel.deep_view() =~= selected(rd, prefix) + rd.subrange(
                    rng.start as int,
                    i as int + 1,
                ));
            }
            i = i + 1;
        }
        proof {
            lemma_selected_push(rd, prefix, rng);
            assert(position_list@.subrange(0, ri as int + 1) =~= prefix.push(rng));
            assert((if rng.start < i {
                rd.subrange(rng.start as int, i as int)
            } else {
                Seq::<Seq<char>>::empty()
            }) =~= range_slice(rd, rng));
        }
        ri = ri + 1;
    }
    proof {
        assert(position_list@.subrange(0, position_list@.len() as int) =~= position_list@);
    }
    sel
}

/// Processes one delimited line in field mode: split into fields, select by
/// the position list, re-join under the same delimiter and quoting rules.
/// A line without a record (an empty line) produces no output line; a line
/// with one produces exactly the selected fields re-joined, and (under the
/// writer's round-trip guard) the emitted line re-parses to those fields.
pub fn process_field_line(line: &str, delimiter: u8, position_list: &Vec<IndexRange>) -> (r:
    Option<String>)
    ensures
        r.deep_view() == (match parsed_record(line@, delimiter) {
            None => None::<Seq<char>>,
            Some(fields) => joined_record(selected(fields, position_list@), delimiter),
        }),
        r matches Some(out) ==> (parsed_record(line@, delimiter) matches Some(fields) && (
        round_trip_guard(selected(fields, position_list@), delimiter)
            ==> parsed_record(out@, delimiter) == Some(selected(fields, position_list@)))),
{
    match read_record(line, delimiter) {
        None => None,
        Some(record) => {
            let sel = extract_fields(&record, position_list);
            write_record(&sel, delimiter)
        },
    }
}

/// The configuration diagnostic for a delimiter that is not one byte.
pub open spec fn bad_delimiter_msg(d: Seq<char>) -> Seq<char> {
    "--delim \""@ + d + "\" must be a single byte"@
}

/// Checks the configured field delimiter, which must be exactly one byte.
pub fn parse_delimiter(delim: &str) -> (r: Result<u8, String>)
    ensures
        match r {
            Ok(b) => delim.spec_bytes().len() == 1 && b == delim.spec_bytes()[0],
            Err(m) => delim.spec_bytes().len() != 1 && m@ == bad_delimiter_msg(delim@),
        },
{
    let bytes = delim.as_bytes();
    if bytes.len() == 1 {
        Ok(*vstd::slice::slice_index_get(bytes, 0))
    } else {
        let mut m = String::from_str("--delim \"");
        m.append(delim);
        m.append("\" must be a single byte");
        Err(m)
    }
}

} // verus!
