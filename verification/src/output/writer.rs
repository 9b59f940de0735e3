//! How records are written: one JSON value per line, flushed now and then.
use vstd::prelude::*;

verus! {

/// After how many records the output is flushed.
pub const FLUSH_INTERVAL: u64 = 100;

/// Whether the output is flushed after this many records.
pub open spec fn is_flush_due(records_written: u64) -> bool {
    records_written % FLUSH_INTERVAL == 0
}

/// Whether the output is flushed after this many records, so that a run that dies leaves
/// most of them behind.
pub fn flush_if_needed(records_written: u64) -> (res: bool)
    ensures
        res == is_flush_due(records_written),
{
    records_written % FLUSH_INTERVAL == 0
}

/// The line for a record: its JSON text and a newline.
pub open spec fn line_of(json: Seq<u8>) -> Seq<u8> {
    json.push(10u8)
}

/// The line for a record.
pub fn record_line(json: Vec<u8>) -> (res: Vec<u8>)
    ensures
        res@ == line_of(json@),
{
    let mut line = json;
    line.push(10u8);
    line
}

/// A line is the text and one newline behind it, so that the text can be had from the line.
pub proof fn a_line_is_the_text_and_a_newline(json: Seq<u8>)
    ensures
        line_of(json).drop_last() == json,
        line_of(json).last() == '\n' as u8,
{
    assert(line_of(json).drop_last() =~= json);
}

/// Of any hundred records that follow one another, the output is flushed after one.
pub proof fn one_of_a_hundred_records_is_flushed(records_written: u64)
    requires
        records_written <= u64::MAX - 100,
    ensures
        is_flush_due(100),
        is_flush_due(records_written) <==> is_flush_due((records_written + 100) as u64),
        is_flush_due(records_written) ==> forall|more: u64|
            0 < more < 100 ==> !#[trigger] is_flush_due((records_written + more) as u64),
{
}

} // verus!
