//! Stats reporter: the live sessions as a table, a header row and then one
//! row for each session.

use crate::frame::append_bytes;
use crate::registry::stats_views;
use crate::session::{Stats, StatsView};
use crate::text::{copy_string, decimal, decimal_string, string_views};
use vstd::prelude::*;
use vstd::string::StringExecFns;

verus! {

/// Name under which the report is sent.
pub const STATS_FILENAME: &'static str = "stats.csv";

/// The bytes that the `csv` crate writes for one record with these fields,
/// under its default settings: comma-separated, quoted where needed, ended by
/// a line feed.
pub uninterp spec fn csv_record(fields: Seq<Seq<char>>) -> Seq<u8>;

/// The fields of the header row.
pub open spec fn header_fields() -> Seq<Seq<char>> {
    seq!["ip"@, "num_messages"@, "total_data"@]
}

/// The fields of the row of one session: its address, its message count and
/// its byte count, the counts in decimal.
pub open spec fn row_fields(row: StatsView) -> Seq<Seq<char>> {
    seq![row.ip, decimal(row.num_messages as nat), decimal(row.total_data as nat)]
}

/// The records of the report: the header, then the rows in order.
pub open spec fn report_records(rows: Seq<StatsView>) -> Seq<Seq<u8>> {
    seq![csv_record(header_fields())] + rows.map_values(
        |row: StatsView| csv_record(row_fields(row)),
    )
}

/// Runs of bytes, one after the other.
pub open spec fn joined(lines: Seq<Seq<u8>>) -> Seq<u8>
    decreases lines.len(),
{
    if lines.len() == 0 {
        Seq::empty()
    } else {
        joined(lines.drop_last()) + lines.last()
    }
}

/// The report for `rows`.
pub open spec fn report(rows: Seq<StatsView>) -> Seq<u8> {
    joined(report_records(rows))
}

/// The views of a run of byte vectors.
pub open spec fn line_views(lines: Seq<Vec<u8>>) -> Seq<Seq<u8>> {
    lines.map_values(|l: Vec<u8>| l@)
}

/// `csv::Writer::write_record` on a fresh `csv::Writer` over a byte vector,
/// then `Writer::into_inner`: the bytes of one record. What the writer emits
/// for a record depends on the fields alone, which is all the contract says.
/// Writing to a vector cannot fail, and a writer that has seen no record
/// accepts one of any length.
#[verifier::external_body]
fn write_record(fields: &Vec<String>) -> (line: Vec<u8>)
    ensures
        line@ == csv_record(string_views(fields@)),
{
    let mut writer = csv::Writer::from_writer(Vec::new());
    writer.write_record(fields).unwrap();
    writer.into_inner().unwrap()
}

/// The fields of the header row.
pub fn header_row() -> (fields: Vec<String>)
    ensures
        string_views(fields@) == header_fields(),
{
    let mut fields: Vec<String> = Vec::new();
    fields.push(String::from_str("ip"));
    fields.push(String::from_str("num_messages"));
    fields.push(String::from_str("total_data"));
    assert(string_views(fields@) =~= header_fields());
    fields
}

/// The fields of the row of one session.
pub fn stats_row(row: &Stats) -> (fields: Vec<String>)
    ensures
        string_views(fields@) == row_fields(row@),
{
    let mut fields: Vec<String> = Vec::new();
    fields.push(copy_string(&row.ip));
    fields.push(decimal_string(row.num_messages));
    fields.push(decimal_string(row.total_data));
    assert(string_views(fields@) =~= row_fields(row@));
    fields
}

/// Puts records one after the other.
pub fn join_records(lines: &Vec<Vec<u8>>) -> (out: Vec<u8>)
    ensures
        out@ == joined(line_views(lines@)),
{
    let ghost views = line_views(lines@);
    let mut out: Vec<u8> = Vec::new();
    let mut i: usize = 0;
    while i < lines.len()
        invariant
            0 <= i <= lines@.len(),
            views == line_views(lines@),
            out@ == joined(views.take(i as int)),
        decreases lines@.len() - i,
    {
        proof {
            assert(views.take(i + 1).drop_last() =~= views.take(i as int));
            assert(views.take(i + 1).last() == lines@[i as int]@);
        }
        append_bytes(&mut out, lines[i].as_slice());
        i += 1;
    }
    assert(views.take(i as int) =~= views);
    out
}

/// Formats the report: the header row, then one row for each session in the
/// order given. The same rows always give the same bytes.
pub fn format_stats(rows: &Vec<Stats>) -> (out: Vec<u8>)
    ensures
        out@ == report(stats_views(rows@)),
{
    let ghost views = stats_views(rows@);
    let ghost records = report_records(views);
    let mut lines: Vec<Vec<u8>> = Vec::new();
    let header = header_row();
    lines.push(write_record(&header));
    assert(line_views(lines@) =~= records.take(1));
    let mut i: usize = 0;
    while i < rows.len()
        invariant
            0 <= i <= rows@.len(),
            views == stats_views(rows@),
            records == report_records(views),
            line_views(lines@) =~= records.take(i + 1),
        decreases rows@.len() - i,
    {
        let fields = stats_row(&rows[i]);
        let line = write_record(&fields);
        proof {
            assert(views[i as int] == rows@[i as int]@);
            assert(records[i + 1] == csv_record(row_fields(views[i as int])));
            assert(line_views(lines@.push(line)) =~= line_views(lines@).push(line@));
            assert(records.take(i + 2) =~= records.take(i + 1).push(records[i + 1]));
        }
        lines.push(line);
        i += 1;
    }
    assert(records.take(i + 1) =~= records);
    join_records(&lines)
}

} // verus!
