//! Reading the batches of a Parquet file.
use arrow::array::Array;
use arrow::array::RecordBatch;
use arrow::array::StructArray;
use futures::FutureExt;
use parquet::arrow::arrow_reader::ParquetRecordBatchReader;
use parquet::arrow::arrow_reader::ParquetRecordBatchReaderBuilder;
use std::collections::HashMap;
use vstd::prelude::*;

use crate::xatu::table::batch_read;
use crate::xatu::table::cells_view;
use crate::xatu::table::column_covers;
use crate::xatu::table::column_view;
use crate::xatu::table::data_view;
use crate::xatu::table::field_covers;
use crate::xatu::table::field_view;
use crate::xatu::table::insert_batch;
use crate::xatu::table::rows_inserted;
use crate::xatu::table::texts_view;
use crate::xatu::table::Batch;
use crate::xatu::table::BatchValues;
use crate::xatu::table::Cell;
use crate::xatu::table::CellValues;
use crate::xatu::table::Column;
use crate::xatu::table::ColumnValues;
use crate::xatu::table::Field;
use crate::xatu::table::FieldValues;
use crate::xatu::table::RecordValues;
use crate::xatu::table::Records;
use crate::xatu::table::SlotAttestationData;
use crate::xatu::table::SlotDataView;
use crate::xatu::table::XatuError;

verus! {

broadcast use vstd::std_specs::hash::group_hash_axioms;

/// The batches of a file: a `ParquetRecordBatchReader`.
#[verifier::external_body]
pub struct BatchReader {
    batches: ParquetRecordBatchReader,
}

/// A batch of rows: a `RecordBatch`.
#[verifier::external_body]
pub struct RowBatch {
    columns: RecordBatch,
}

/// The records of a list: a `StructArray`.
#[verifier::external_body]
pub struct RecordList {
    array: StructArray,
}

/// What a Parquet file has next: a batch, or something that cannot be read as one.
pub enum Chunk {
    Batch { batch: Batch },
    Unreadable,
}

/// The batches of a Parquet file, up to its end or the first that cannot be read; or why the
/// file cannot be opened.
pub uninterp spec fn parquet_chunks(bytes: Seq<u8>) -> Result<Seq<Chunk>, XatuError>;

/// What a reader has yet to hand out, up to the end of its file or the first batch that cannot
/// be read.
pub uninterp spec fn chunks_left(reader: BatchReader) -> Seq<Chunk>;

/// How many rows a batch has.
pub uninterp spec fn batch_rows(batch: RowBatch) -> nat;

/// The columns of a batch by their names: of several with the same name, the first.
pub uninterp spec fn batch_columns(batch: RowBatch) -> Map<Seq<char>, Column>;

/// How many records there are.
pub uninterp spec fn record_len(records: RecordList) -> nat;

/// The fields of records by their names: of several with the same name, the first.
pub uninterp spec fn record_fields(records: RecordList) -> Map<Seq<char>, Field>;

/// What a map has under a name.
pub open spec fn named<V>(values: Map<Seq<char>, V>, name: Seq<char>) -> Option<V> {
    if values.contains_key(name) {
        Some(values[name])
    } else {
        None
    }
}

/// What is read of records.
pub open spec fn records_of(records: RecordList) -> Records {
    Records {
        count: record_len(records),
        head_root: named(record_fields(records), "head_root"@),
        target_epoch: named(record_fields(records), "target_epoch"@),
    }
}

/// What is read of a batch.
pub open spec fn batch_of(batch: RowBatch) -> Batch {
    Batch {
        rows: batch_rows(batch),
        slot: named(batch_columns(batch), "slot"@),
        slot_offsets: named(batch_columns(batch), "slot_offsets"@),
        vote_ids: named(batch_columns(batch), "vote_ids"@),
        votes: named(batch_columns(batch), "votes"@),
    }
}

/// Opens a Parquet file that is in memory, by `ParquetRecordBatchReaderBuilder::try_new` and
/// `build`. What the reader then hands out, or which of the two calls fails, depends on the
/// bytes alone. The calls are made under `FutureExt::remote_handle`, which catches a panic: a
/// file on which one panics cannot be opened. What no call can catch is not spoken of: a footer
/// whose schema nests so deep that reading it exhausts the stack, or a program that is built to
/// abort on a panic.
#[verifier::external_body]
fn open_parquet(bytes: Vec<u8>) -> (res: Result<BatchReader, XatuError>)
    ensures
        match res {
            Ok(reader) => parquet_chunks(bytes@) == Ok::<Seq<Chunk>, XatuError>(
                chunks_left(reader),
            ),
            Err(e) => parquet_chunks(bytes@) == Err::<Seq<Chunk>, XatuError>(e),
        },
{
    let mut opened = None;
    let file = bytes::Bytes::from(bytes);
    let opening = futures::future::lazy(|_| {
        opened = Some(ParquetRecordBatchReaderBuilder::try_new(file).map(|built| built.build()));
    });
    let (guarded, handle) = opening.remote_handle();
    let _ = guarded.now_or_never();
    drop(handle);
    match opened {
        Some(Ok(Ok(batches))) => Ok(BatchReader { batches }),
        Some(Ok(Err(_))) => Err(XatuError::CannotBuild),
        Some(Err(_)) | None => Err(XatuError::CannotOpen),
    }
}

/// The next batch of a reader, by `Iterator::next` of `ParquetRecordBatchReader`: `None` at the
/// end of the file, an error for a batch that cannot be read. The call is made under
/// `FutureExt::remote_handle`, which catches a panic: a batch at which reading panics, as it
/// does on some malformed pages, cannot be read. Of a reader that failed nothing more is said,
/// nor of a program that is built to abort on a panic.
#[verifier::external_body]
fn next_batch(reader: &mut BatchReader) -> (res: Result<Option<RowBatch>, XatuError>)
    ensures
        match res {
            Ok(None) => chunks_left(*old(reader)).len() == 0,
            Ok(Some(batch)) => {
                &&& chunks_left(*old(reader)).len() > 0
                &&& chunks_left(*old(reader))[0] == (Chunk::Batch { batch: batch_of(batch) })
                &&& chunks_left(*final(reader)) == chunks_left(*old(reader)).skip(1)
            },
            Err(e) => {
                &&& chunks_left(*old(reader)).len() > 0
                &&& chunks_left(*old(reader))[0] == Chunk::Unreadable
                &&& e == XatuError::CannotReadBatch
            },
        },
{
    let mut next = None;
    let reading = futures::future::lazy(|_| next = Some(reader.batches.next()));
    let (guarded, handle) = reading.remote_handle();
    let _ = guarded.now_or_never();
    drop(handle);
    match next {
        Some(None) => Ok(None),
        Some(Some(Ok(columns))) => Ok(Some(RowBatch { columns })),
        Some(Some(Err(_))) | None => Err(XatuError::CannotReadBatch),
    }
}

/// How many rows a batch has, by `RecordBatch::num_rows`.
#[verifier::external_body]
fn row_count(batch: &RowBatch) -> (res: usize)
    ensures
        res == batch_rows(*batch),
{
    batch.columns.num_rows()
}

/// Whether a batch has a column of a name, by `RecordBatch::column_by_name`.
#[verifier::external_body]
fn has_column(batch: &RowBatch, name: &str) -> (res: bool)
    ensures
        res == batch_columns(*batch).contains_key(name@),
{
    batch.columns.column_by_name(name).is_some()
}

/// The numbers of a column, by `UInt64Array::values`, where it is such an array. Each column of
/// a batch has as many values as the batch has rows.
#[verifier::external_body]
fn u64_column(batch: &RowBatch, name: &str) -> (res: Option<Vec<u64>>)
    requires
        batch_columns(*batch).contains_key(name@),
    ensures
        match res {
            Some(values) => batch_columns(*batch)[name@] == (Column::Numbers { values: values@ })
                && values@.len() == batch_rows(*batch),
            None => !(batch_columns(*batch)[name@] is Numbers),
        },
{
    let column = batch.columns.column_by_name(name)?;
    let numbers = column.as_any().downcast_ref::<arrow::array::UInt64Array>()?;
    Some(numbers.values().to_vec())
}

/// Whether a column holds lists: whether it is a `ListArray`. Each column of a batch has as many
/// values as the batch has rows.
#[verifier::external_body]
fn is_list_column(batch: &RowBatch, name: &str) -> (res: bool)
    requires
        batch_columns(*batch).contains_key(name@),
    ensures
        res == (batch_columns(*batch)[name@] is Lists),
        res ==> batch_columns(*batch)[name@]->cells.len() == batch_rows(*batch),
{
    match batch.columns.column_by_name(name) {
        Some(column) => column.as_any().is::<arrow::array::ListArray>(),
        None => false,
    }
}

/// The bytes of a list in a column, by `ListArray::value` and `UInt8Array::values`, where the
/// list is such an array.
#[verifier::external_body]
fn list_bytes(batch: &RowBatch, name: &str, row: usize) -> (res: Option<Vec<u8>>)
    requires
        batch_columns(*batch).contains_key(name@),
        batch_columns(*batch)[name@] is Lists,
        row < batch_columns(*batch)[name@]->cells.len(),
    ensures
        match res {
            Some(values) => batch_columns(*batch)[name@]->cells[row as int] == (Cell::Bytes {
                values: values@,
            }),
            None => !(batch_columns(*batch)[name@]->cells[row as int] is Bytes),
        },
{
    let column = batch.columns.column_by_name(name)?;
    let list = column.as_any().downcast_ref::<arrow::array::ListArray>()?.value(row);
    let bytes = list.as_any().downcast_ref::<arrow::array::UInt8Array>()?;
    Some(bytes.values().to_vec())
}

/// The records of a list in a column, by `ListArray::value`, where the list is a `StructArray`.
#[verifier::external_body]
fn list_records(batch: &RowBatch, name: &str, row: usize) -> (res: Option<RecordList>)
    requires
        batch_columns(*batch).contains_key(name@),
        batch_columns(*batch)[name@] is Lists,
        row < batch_columns(*batch)[name@]->cells.len(),
    ensures
        match res {
            Some(records) => batch_columns(*batch)[name@]->cells[row as int] == (Cell::Records {
                records: records_of(records),
            }),
            None => !(batch_columns(*batch)[name@]->cells[row as int] is Records),
        },
{
    let column = batch.columns.column_by_name(name)?;
    let list = column.as_any().downcast_ref::<arrow::array::ListArray>()?.value(row);
    let array = list.as_any().downcast_ref::<StructArray>()?.clone();
    Some(RecordList { array })
}

/// How many records there are, by `StructArray::len`.
#[verifier::external_body]
fn record_count(records: &RecordList) -> (res: usize)
    ensures
        res == record_len(*records),
{
    records.array.len()
}

/// Whether records have a field of a name, by `StructArray::column_by_name`.
#[verifier::external_body]
fn has_field(records: &RecordList, name: &str) -> (res: bool)
    ensures
        res == record_fields(*records).contains_key(name@),
{
    records.array.column_by_name(name).is_some()
}

/// Whether a field holds texts: whether it is a `StringArray`. Each field has a value for each
/// record.
#[verifier::external_body]
fn is_text_field(records: &RecordList, name: &str) -> (res: bool)
    requires
        record_fields(*records).contains_key(name@),
    ensures
        res == (record_fields(*records)[name@] is Texts),
        res ==> record_fields(*records)[name@]->Texts_values.len() == record_len(*records),
{
    match records.array.column_by_name(name) {
        Some(column) => column.as_any().is::<arrow::array::StringArray>(),
        None => false,
    }
}

/// A record's text, by `StringArray::value`.
#[verifier::external_body]
fn text_at(records: &RecordList, name: &str, index: usize) -> (res: Option<String>)
    requires
        record_fields(*records).contains_key(name@),
        record_fields(*records)[name@] is Texts,
        index < record_fields(*records)[name@]->Texts_values.len(),
    ensures
        res is Some,
        res->0@ == record_fields(*records)[name@]->Texts_values[index as int],
{
    let column = records.array.column_by_name(name)?;
    let texts = column.as_any().downcast_ref::<arrow::array::StringArray>()?;
    Some(texts.value(index).to_owned())
}

/// The numbers of a field, by `UInt32Array::values`, where it is such an array. Each field has a
/// value for each record.
#[verifier::external_body]
fn u32_field(records: &RecordList, name: &str) -> (res: Option<Vec<u32>>)
    requires
        record_fields(*records).contains_key(name@),
    ensures
        match res {
            Some(values) => record_fields(*records)[name@] == (Field::Numbers { values: values@ })
                && values@.len() == record_len(*records),
            None => !(record_fields(*records)[name@] is Numbers),
        },
{
    let column = records.array.column_by_name(name)?;
    let numbers = column.as_any().downcast_ref::<arrow::array::UInt32Array>()?;
    Some(numbers.values().to_vec())
}

/// A field of records.
fn read_field(records: &RecordList, name: &str) -> (res: Option<FieldValues>)
    ensures
        field_view(res) == named(record_fields(*records), name@),
        field_covers(field_view(res), record_len(*records)),
{
    if !has_field(records, name) {
        return None;
    }
    if is_text_field(records, name) {
        let ghost texts = record_fields(*records)[name@]->Texts_values;
        let count: usize = record_count(records);
        let mut values: Vec<String> = Vec::new();
        let mut i: usize = 0;
        while i < count
            invariant
                i <= count,
                count == texts.len(),
                values@.len() == i,
                record_fields(*records).contains_key(name@),
                record_fields(*records)[name@] == (Field::Texts { values: texts }),
                texts_view(values@) == texts.take(i as int),
            decreases count - i,
        {
            if let Some(text) = text_at(records, name, i) {
                values.push(text);
                assert(texts_view(values@) =~= texts.take(i + 1));
            }
            i = i + 1;
        }
        assert(texts_view(values@) =~= texts);
        return Some(FieldValues::Texts { values });
    }
    match u32_field(records, name) {
        Some(values) => Some(FieldValues::Numbers { values }),
        None => Some(FieldValues::Other),
    }
}

/// A list in a column.
fn read_cell(batch: &RowBatch, name: &str, row: usize) -> (res: CellValues)
    requires
        batch_columns(*batch).contains_key(name@),
        batch_columns(*batch)[name@] is Lists,
        row < batch_columns(*batch)[name@]->cells.len(),
    ensures
        res@ == batch_columns(*batch)[name@]->cells[row as int],
        res@.valid(),
{
    if let Some(values) = list_bytes(batch, name, row) {
        return CellValues::Bytes { values };
    }
    match list_records(batch, name, row) {
        Some(list) => {
            let records = RecordValues {
                count: record_count(&list),
                head_root: read_field(&list, "head_root"),
                target_epoch: read_field(&list, "target_epoch"),
            };
            CellValues::Records { records }
        },
        None => CellValues::Other,
    }
}

/// A column of a batch.
fn read_column(batch: &RowBatch, name: &str) -> (res: Option<ColumnValues>)
    ensures
        column_view(res) == named(batch_columns(*batch), name@),
        column_covers(column_view(res), batch_rows(*batch)),
{
    if !has_column(batch, name) {
        return None;
    }
    if is_list_column(batch, name) {
        let ghost lists = batch_columns(*batch)[name@]->cells;
        let rows: usize = row_count(batch);
        let mut cells: Vec<CellValues> = Vec::new();
        let mut row: usize = 0;
        while row < rows
            invariant
                row <= rows,
                rows == lists.len(),
                cells@.len() == row,
                batch_columns(*batch).contains_key(name@),
                batch_columns(*batch)[name@] == (Column::Lists { cells: lists }),
                cells_view(cells@) == lists.take(row as int),
                forall|i: int| 0 <= i < row ==> (#[trigger] lists[i]).valid(),
            decreases rows - row,
        {
            let cell = read_cell(batch, name, row);
            cells.push(cell);
            assert(cells_view(cells@) =~= lists.take(row + 1));
            row = row + 1;
        }
        assert(cells_view(cells@) =~= lists);
        return Some(ColumnValues::Lists { cells });
    }
    match u64_column(batch, name) {
        Some(values) => Some(ColumnValues::Numbers { values }),
        None => Some(ColumnValues::Other),
    }
}

/// What is read of a batch.
fn read_batch(batch: &RowBatch) -> (res: BatchValues)
    ensures
        res@ == batch_of(*batch),
        res@.valid(),
{
    BatchValues {
        rows: row_count(batch),
        slot: read_column(batch, "slot"),
        slot_offsets: read_column(batch, "slot_offsets"),
        vote_ids: read_column(batch, "vote_ids"),
        votes: read_column(batch, "votes"),
    }
}

/// The data of each slot in the first `count` batches, or why the first of these that cannot be
/// read cannot.
pub open spec fn chunks_read(chunks: Seq<Chunk>, count: nat) -> Result<
    Map<u64, SlotDataView>,
    XatuError,
>
    decreases count,
{
    if count == 0 {
        Ok(Map::empty())
    } else {
        match chunks_read(chunks, (count - 1) as nat) {
            Err(e) => Err(e),
            Ok(data) => match chunks[count - 1] {
                Chunk::Unreadable => Err(XatuError::CannotReadBatch),
                Chunk::Batch { batch } => match batch_read(batch) {
                    Err(e) => Err(e),
                    Ok(rows) => Ok(rows_inserted(data, rows, rows.len())),
                },
            },
        }
    }
}

/// The data of each slot in a file, or why the file cannot be read.
pub open spec fn file_read(chunks: Result<Seq<Chunk>, XatuError>) -> Result<
    Map<u64, SlotDataView>,
    XatuError,
> {
    match chunks {
        Err(e) => Err(e),
        Ok(chunks) => chunks_read(chunks, chunks.len()),
    }
}

proof fn lemma_chunks_stop(chunks: Seq<Chunk>, short: nat, count: nat)
    requires
        short <= count,
        chunks_read(chunks, short) is Err,
    ensures
        chunks_read(chunks, count) == chunks_read(chunks, short),
    decreases count,
{
    if short < count {
        lemma_chunks_stop(chunks, short, (count - 1) as nat);
    }
}

/// The data of each slot in a Parquet file, or why the file cannot be read.
pub fn parse_parquet_file(bytes: Vec<u8>) -> (res: Result<
    HashMap<u64, SlotAttestationData>,
    XatuError,
>)
    ensures
        match res {
            Ok(data) => file_read(parquet_chunks(bytes@)) == Ok::<
                Map<u64, SlotDataView>,
                XatuError,
            >(data_view(data@)),
            Err(e) => file_read(parquet_chunks(bytes@)) == Err::<Map<u64, SlotDataView>, XatuError>(
                e,
            ),
        },
{
    let mut reader = match open_parquet(bytes) {
        Ok(reader) => reader,
        Err(e) => {
            return Err(e);
        },
    };
    let ghost chunks = chunks_left(reader);
    let ghost mut count: nat = 0;
    let mut data: HashMap<u64, SlotAttestationData> = HashMap::new();
    assert(chunks.skip(0) =~= chunks);
    assert(data_view(data@) =~= Map::<u64, SlotDataView>::empty());
    loop
        invariant
            parquet_chunks(bytes@) == Ok::<Seq<Chunk>, XatuError>(chunks),
            count <= chunks.len(),
            chunks_left(reader) == chunks.skip(count as int),
            chunks_read(chunks, count) == Ok::<Map<u64, SlotDataView>, XatuError>(data_view(data@)),
        decreases chunks_left(reader).len(),
    {
        match next_batch(&mut reader) {
            Ok(None) => {
                return Ok(data);
            },
            Ok(Some(batch)) => {
                let values = read_batch(&batch);
                assert(chunks[count as int] == (Chunk::Batch { batch: values@ }));
                match insert_batch(&mut data, &values) {
                    Ok(_) => {},
                    Err(e) => {
                        proof {
                            lemma_chunks_stop(chunks, count + 1, chunks.len());
                        }
                        return Err(e);
                    },
                }
                proof {
                    assert(chunks.skip(count as int).skip(1) =~= chunks.skip((count + 1) as int));
                    count = count + 1;
                }
            },
            Err(e) => {
                proof {
                    assert(chunks[count as int] == Chunk::Unreadable);
                    lemma_chunks_stop(chunks, count + 1, chunks.len());
                }
                return Err(e);
            },
        }
    }
}

/// A file whose batches can all be read holds the rows of all of them: a slot has data just where
/// some row of some batch is of it, and those of the last batch that has such a row count. The
/// first batch that cannot be read is what is wrong with a file.
pub proof fn a_file_holds_the_rows_of_its_batches(chunks: Seq<Chunk>, count: nat, slot: u64)
    requires
        count <= chunks.len(),
    ensures
        match chunks_read(chunks, count) {
            Ok(data) => {
                &&& forall|k: int| 0 <= k < count ==> is_readable(#[trigger] chunks[k])
                &&& data.contains_key(slot) <==> exists|k: int|
                    0 <= k < count && has_slot(#[trigger] chunks[k], slot)
                &&& forall|k: int|
                    0 <= k < count && has_slot(#[trigger] chunks[k], slot) && (forall|j: int|
                        k < j < count ==> !has_slot(#[trigger] chunks[j], slot)) ==> is_last_of_slot(
                        chunks[k],
                        slot,
                        data[slot],
                    )
            },
            Err(e) => exists|k: int|
                0 <= k < count && fails_with(#[trigger] chunks[k], e) && forall|j: int|
                    0 <= j < k ==> is_readable(#[trigger] chunks[j]),
        },
    decreases count,
{
    if count > 0 {
        let before = (count - 1) as nat;
        let last = chunks[count - 1];
        a_file_holds_the_rows_of_its_batches(chunks, before, slot);
        if chunks_read(chunks, before) is Ok {
            let data = chunks_read(chunks, before)->Ok_0;
            if is_readable(last) {
                let rows = batch_read(last->batch)->Ok_0;
                lemma_rows_of_a_slot(data, rows, rows.len(), slot);
            } else {
                assert(fails_with(last, chunks_read(chunks, count)->Err_0));
            }
        }
    }
}

/// Whether a batch can be read, and its rows can.
pub open spec fn is_readable(chunk: Chunk) -> bool {
    chunk is Batch && batch_read(chunk->batch) is Ok
}

/// Whether a batch has a row of a slot.
pub open spec fn has_slot(chunk: Chunk, slot: u64) -> bool {
    is_readable(chunk) && exists|i: int|
        0 <= i < batch_read(chunk->batch)->Ok_0.len() && (#[trigger] batch_read(
            chunk->batch,
        )->Ok_0[i]).0 == slot
}

/// Whether these are the data of the last row of a slot in a batch.
pub open spec fn is_last_of_slot(chunk: Chunk, slot: u64, data: SlotDataView) -> bool {
    let rows = batch_read(chunk->batch)->Ok_0;
    exists|i: int|
        0 <= i < rows.len() && #[trigger] rows[i] == (slot, data) && forall|j: int|
            i < j < rows.len() ==> (#[trigger] rows[j]).0 != slot
}

/// Whether this is what is wrong with a batch.
pub open spec fn fails_with(chunk: Chunk, error: XatuError) -> bool {
    match chunk {
        Chunk::Unreadable => error is CannotReadBatch,
        Chunk::Batch { batch } => batch_read(batch) == Err::<Seq<(u64, SlotDataView)>, XatuError>(
            error,
        ),
    }
}

proof fn lemma_rows_of_a_slot(
    data: Map<u64, SlotDataView>,
    rows: Seq<(u64, SlotDataView)>,
    count: nat,
    slot: u64,
)
    requires
        count <= rows.len(),
    ensures
        ({
            let result = rows_inserted(data, rows, count);
            if exists|i: int| 0 <= i < count && (#[trigger] rows[i]).0 == slot {
                &&& result.contains_key(slot)
                &&& exists|i: int|
                    0 <= i < count && #[trigger] rows[i] == (slot, result[slot]) && forall|j: int|
                        i < j < count ==> (#[trigger] rows[j]).0 != slot
            } else {
                &&& result.contains_key(slot) <==> data.contains_key(slot)
                &&& data.contains_key(slot) ==> result[slot] == data[slot]
            }
        }),
    decreases count,
{
    if count > 0 {
        lemma_rows_of_a_slot(data, rows, (count - 1) as nat, slot);
        let result = rows_inserted(data, rows, count);
        if rows[count - 1].0 == slot {
            assert(rows[count - 1] == (slot, result[slot]));
        }
    }
}

/// A file that cannot be opened is refused for that reason, and one that can be opened is what its
/// batches are.
pub proof fn a_file_is_what_its_batches_are(chunks: Result<Seq<Chunk>, XatuError>)
    ensures
        chunks matches Err(e) ==> file_read(chunks) == Err::<Map<u64, SlotDataView>, XatuError>(e),
        chunks matches Ok(batches) ==> {
            &&& (forall|k: int| 0 <= k < batches.len() ==> is_readable(#[trigger] batches[k]))
                <==> file_read(chunks) is Ok
            &&& batches.len() == 0 ==> file_read(chunks) == Ok::<
                Map<u64, SlotDataView>,
                XatuError,
            >(Map::empty())
        },
{
    if let Ok(batches) = chunks {
        a_file_holds_the_rows_of_its_batches(batches, batches.len(), 0);
        if file_read(chunks) is Err {
            let e = file_read(chunks)->Err_0;
            let k = choose|k: int|
                0 <= k < batches.len() && fails_with(#[trigger] batches[k], e) && forall|j: int|
                    0 <= j < k ==> is_readable(#[trigger] batches[j]);
            assert(!is_readable(batches[k]));
        }
    }
}

/// What is read under a name is what is there under that name, and nothing where there is nothing.
pub proof fn what_has_a_name_is_found<V>(values: Map<Seq<char>, V>, name: Seq<char>)
    ensures
        named(values, name) is Some <==> values.contains_key(name),
        values.contains_key(name) ==> named(values, name)->0 == values[name],
{
}

/// Each column that is read of a batch is the one of its own name, and each field that is read of
/// records too; of the others nothing is read.
pub proof fn columns_are_read_by_their_names(batch: RowBatch, records: RecordList)
    ensures
        batch_of(batch).rows == batch_rows(batch),
        batch_of(batch).slot is Some <==> batch_columns(batch).contains_key("slot"@),
        batch_of(batch).slot matches Some(column) ==> column == batch_columns(batch)["slot"@],
        batch_of(batch).slot_offsets is Some <==> batch_columns(batch).contains_key(
            "slot_offsets"@,
        ),
        batch_of(batch).slot_offsets matches Some(column) ==> column == batch_columns(
            batch,
        )["slot_offsets"@],
        batch_of(batch).vote_ids is Some <==> batch_columns(batch).contains_key("vote_ids"@),
        batch_of(batch).vote_ids matches Some(column) ==> column == batch_columns(
            batch,
        )["vote_ids"@],
        batch_of(batch).votes is Some <==> batch_columns(batch).contains_key("votes"@),
        batch_of(batch).votes matches Some(column) ==> column == batch_columns(batch)["votes"@],
        records_of(records).count == record_len(records),
        records_of(records).head_root is Some <==> record_fields(records).contains_key(
            "head_root"@,
        ),
        records_of(records).head_root matches Some(field) ==> field == record_fields(
            records,
        )["head_root"@],
        records_of(records).target_epoch is Some <==> record_fields(records).contains_key(
            "target_epoch"@,
        ),
        records_of(records).target_epoch matches Some(field) ==> field == record_fields(
            records,
        )["target_epoch"@],
{
}

} // verus!
