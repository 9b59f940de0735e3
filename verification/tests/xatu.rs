use std::collections::HashMap;
use std::sync::Arc;

use arrow::array::{
    Array, ArrayRef, Int64Array, ListArray, RecordBatch, StringArray, StructArray, UInt32Array,
    UInt64Array, UInt8Array,
};
use arrow::buffer::OffsetBuffer;
use arrow::datatypes::{DataType, Field, Fields, Schema};
use parquet::arrow::ArrowWriter;
use parquet::file::properties::WriterProperties;

use fcr_simulator::hash256::{Hash256, HexError, RootError};
use fcr_simulator::xatu::date::{slot_has_date, slot_to_date};
use fcr_simulator::xatu::downloader::{ParquetSource, XatuDownloader};
use fcr_simulator::xatu::parquet_file::parse_parquet_file;
use fcr_simulator::xatu::reader::{SlotLookup, XatuReader};
use fcr_simulator::xatu::table::{
    extract_u8_list, extract_votes, insert_batch, read_batch_rows, BatchValues, CellValues,
    ColumnValues, FieldValues, RecordValues, VotesError, XatuColumn, XatuError,
};

fn root_text(byte: u8) -> String {
    format!("0x{}", format!("{byte:02x}").repeat(32))
}

fn root(byte: u8) -> Hash256 {
    Hash256 { bytes: [byte; 32] }
}

#[test]
fn slots_have_dates() {
    assert_eq!(slot_to_date(0), "2020-12-01");
    assert_eq!(slot_to_date(3598), "2020-12-01");
    assert_eq!(slot_to_date(3599), "2020-12-02");
    assert_eq!(slot_to_date(10798), "2020-12-02");
    assert_eq!(slot_to_date(10799), "2020-12-03");
    assert_eq!(slot_to_date(8_531_998), "2024-02-29");
    assert_eq!(slot_to_date(u64::MAX), "2020-12-01");
    assert_eq!(slot_to_date(u64::MAX - 4000), "2020-11-30");
}

#[test]
fn dates_far_away() {
    let slot_at = |timestamp: i64| ((timestamp - 1606824023).div_euclid(12)) as u64;
    assert_eq!(slot_to_date(slot_at(253402300799)), "9999-12-31");
    assert_eq!(slot_to_date(slot_at(253402300799) + 1), "+10000-01-01");
    assert_eq!(slot_to_date(slot_at(8210266876799)), "+262142-12-31");
    assert_eq!(slot_to_date(slot_at(-62167219200) + 1), "0000-01-01");
    assert_eq!(slot_to_date(slot_at(-62167219201)), "-0001-12-31");
    assert_eq!(slot_to_date(slot_at(-8334601228800) + 1), "-262143-01-01");
}

#[test]
fn slots_without_dates() {
    let slot_at = |timestamp: i64| ((timestamp - 1606824023).div_euclid(12)) as u64;
    assert!(slot_has_date(0));
    assert!(slot_has_date(u64::MAX));
    assert!(slot_has_date(slot_at(8210266876799)));
    assert!(!slot_has_date(slot_at(8210266876799) + 1));
    assert!(slot_has_date(slot_at(-8334601228800) + 1));
    assert!(!slot_has_date(slot_at(-8334601228800)));
    assert!(!slot_has_date(i64::MAX as u64));
    assert!(!slot_has_date(i64::MAX as u64 + 1));
}

#[test]
fn files_of_days() {
    let downloader = XatuDownloader::new();
    assert_eq!(downloader.directory, "xatu");
    assert_eq!(downloader.filename("2024-01-02"), "2024-01-02.parquet");
    match downloader.get_parquet("2024-01-02", true) {
        ParquetSource::Cached { filename } => assert_eq!(filename, "2024-01-02.parquet"),
        other => panic!("{other:?}"),
    }
    match downloader.get_parquet("2024-01-02", false) {
        ParquetSource::Download { filename, url } => {
            assert_eq!(filename, "2024-01-02.parquet");
            assert_eq!(
                url,
                "https://data.ethpandaops.io/fast_confirmation_simulation/attestation_timing/mainnet/v1/2024-01-02.parquet"
            );
        }
        other => panic!("{other:?}"),
    }
}

fn texts(values: &[&str]) -> Option<FieldValues> {
    let values = values.iter().map(|text| text.to_string()).collect();
    Some(FieldValues::Texts { values })
}

fn numbers(values: &[u32]) -> Option<FieldValues> {
    Some(FieldValues::Numbers { values: values.to_vec() })
}

fn votes_cell(
    count: usize,
    head_root: Option<FieldValues>,
    target_epoch: Option<FieldValues>,
) -> CellValues {
    CellValues::Records { records: RecordValues { count, head_root, target_epoch } }
}

#[test]
fn votes_are_read() {
    let a = root_text(1);
    let b = root_text(2);
    let cell = votes_cell(2, texts(&[&a, &b[2..]]), numbers(&[10, 11]));
    let votes = extract_votes(&cell).unwrap();
    assert_eq!(votes.len(), 2);
    assert_eq!(votes[0].head_root, root(1));
    assert_eq!(votes[0].target_epoch, 10);
    assert_eq!(votes[1].head_root, root(2));
    assert_eq!(votes[1].target_epoch, 11);
    assert!(extract_votes(&votes_cell(0, None, None)).unwrap().is_empty());
}

#[test]
fn votes_that_cannot_be_read() {
    let failure = |cell: CellValues| extract_votes(&cell).unwrap_err();
    let good = root_text(1);
    assert_eq!(failure(CellValues::Other), VotesError::NotRecords);
    assert_eq!(failure(CellValues::Bytes { values: vec![1] }), VotesError::NotRecords);
    assert_eq!(failure(votes_cell(1, None, None)), VotesError::MissingHeadRoot);
    assert_eq!(
        failure(votes_cell(1, numbers(&[1]), None)),
        VotesError::HeadRootNotText
    );
    assert_eq!(
        failure(votes_cell(1, texts(&[&good]), None)),
        VotesError::MissingTargetEpoch
    );
    assert_eq!(
        failure(votes_cell(1, texts(&[&good]), Some(FieldValues::Other))),
        VotesError::TargetEpochNotU32
    );
    let cause = RootError::WrongLength { hex_chars: 3 };
    assert_eq!(
        failure(votes_cell(3, texts(&[&good, "bad", "worse"]), numbers(&[1, 2, 3]))),
        VotesError::BadHeadRoot { index: 1, cause }
    );
    let cause = RootError::InvalidHex {
        cause: HexError::InvalidHexCharacter { c: 'z', index: 0 },
    };
    assert_eq!(
        failure(votes_cell(1, texts(&[&"z".repeat(64)]), numbers(&[1]))),
        VotesError::BadHeadRoot { index: 0, cause }
    );
}

#[test]
fn lists_of_bytes_are_read() {
    assert_eq!(extract_u8_list(&CellValues::Bytes { values: vec![1, 255] }), Some(vec![1, 255]));
    assert_eq!(extract_u8_list(&CellValues::Other), None);
}

fn bytes_column(lists: &[&[u8]]) -> Option<ColumnValues> {
    let cells = lists.iter().map(|list| CellValues::Bytes { values: list.to_vec() }).collect();
    Some(ColumnValues::Lists { cells })
}

fn batch() -> BatchValues {
    let a = root_text(1);
    BatchValues {
        rows: 2,
        slot: Some(ColumnValues::Numbers { values: vec![7, 8] }),
        slot_offsets: bytes_column(&[&[1, 255], &[2]]),
        vote_ids: bytes_column(&[&[0, 255], &[0]]),
        votes: Some(ColumnValues::Lists {
            cells: vec![
                votes_cell(1, texts(&[&a]), numbers(&[5])),
                votes_cell(0, None, None),
            ],
        }),
    }
}

#[test]
fn rows_of_a_batch_are_read() {
    let rows = read_batch_rows(&batch()).unwrap();
    assert_eq!(rows.len(), 2);
    assert_eq!(rows[0].0, 7);
    assert_eq!(rows[0].1.slot_offsets, vec![1, 255]);
    assert_eq!(rows[0].1.vote_ids, vec![0, 255]);
    assert_eq!(rows[0].1.votes[0].head_root, root(1));
    assert_eq!(rows[0].1.votes[0].target_epoch, 5);
    assert_eq!(rows[1].0, 8);
    assert_eq!(rows[1].1.slot_offsets, vec![2]);
    assert!(rows[1].1.votes.is_empty());
    let copy = rows[0].1.clone();
    assert_eq!(copy.slot_offsets, rows[0].1.slot_offsets);
    assert_eq!(copy.votes.len(), 1);
}

#[test]
fn columns_must_be_there_and_hold_what_they_should() {
    let failure = |values: &BatchValues| read_batch_rows(values).unwrap_err();
    let missing = |column| XatuError::MissingColumn { column };
    let wrong = |column| XatuError::WrongColumnType { column };

    let mut values = batch();
    values.slot = Some(ColumnValues::Other);
    values.slot_offsets = None;
    assert_eq!(failure(&values), missing(XatuColumn::SlotOffsets));
    values.slot = None;
    assert_eq!(failure(&values), missing(XatuColumn::Slot));
    let mut values = batch();
    values.vote_ids = None;
    values.votes = None;
    assert_eq!(failure(&values), missing(XatuColumn::VoteIds));
    let mut values = batch();
    values.votes = None;
    assert_eq!(failure(&values), missing(XatuColumn::Votes));

    let mut values = batch();
    values.votes = Some(ColumnValues::Other);
    assert_eq!(failure(&values), wrong(XatuColumn::Votes));
    values.vote_ids = Some(ColumnValues::Numbers { values: vec![1, 2] });
    assert_eq!(failure(&values), wrong(XatuColumn::VoteIds));
    values.slot_offsets = Some(ColumnValues::Other);
    assert_eq!(failure(&values), wrong(XatuColumn::SlotOffsets));
    values.slot = bytes_column(&[&[], &[]]);
    assert_eq!(failure(&values), wrong(XatuColumn::Slot));
}

fn cell_of(column: &mut Option<ColumnValues>, row: usize, cell: CellValues) {
    match column {
        Some(ColumnValues::Lists { cells }) => cells[row] = cell,
        _ => unreachable!(),
    }
}

#[test]
fn first_bad_row_is_named() {
    let mut values = batch();
    cell_of(&mut values.votes, 1, CellValues::Other);
    assert_eq!(
        read_batch_rows(&values).unwrap_err(),
        XatuError::BadVotes { slot: 8, cause: VotesError::NotRecords }
    );
    cell_of(&mut values.vote_ids, 1, CellValues::Other);
    assert_eq!(read_batch_rows(&values).unwrap_err(), XatuError::BadVoteIds { slot: 8 });
    cell_of(&mut values.slot_offsets, 1, CellValues::Other);
    assert_eq!(read_batch_rows(&values).unwrap_err(), XatuError::BadSlotOffsets { slot: 8 });
    cell_of(&mut values.vote_ids, 0, CellValues::Other);
    assert_eq!(read_batch_rows(&values).unwrap_err(), XatuError::BadVoteIds { slot: 7 });
}

#[test]
fn later_rows_of_a_slot_win() {
    let mut data = HashMap::new();
    insert_batch(&mut data, &batch()).unwrap();
    let mut again = batch();
    again.slot = Some(ColumnValues::Numbers { values: vec![8, 8] });
    cell_of(&mut again.slot_offsets, 1, CellValues::Bytes { values: vec![9, 9, 9] });
    insert_batch(&mut data, &again).unwrap();
    assert_eq!(data.len(), 2);
    assert_eq!(data[&7].slot_offsets, vec![1, 255]);
    assert_eq!(data[&8].slot_offsets, vec![9, 9, 9]);
    again.votes = None;
    assert!(insert_batch(&mut data, &again).is_err());
    assert_eq!(data.len(), 2);
}

fn list_of(field: Field, lengths: &[usize], values: ArrayRef) -> ArrayRef {
    let offsets = OffsetBuffer::from_lengths(lengths.iter().copied());
    Arc::new(ListArray::new(Arc::new(field), offsets, values, None))
}

fn byte_lists(lists: &[&[u8]]) -> ArrayRef {
    let lengths: Vec<usize> = lists.iter().map(|list| list.len()).collect();
    let values: ArrayRef = Arc::new(UInt8Array::from(lists.concat()));
    list_of(Field::new("item", DataType::UInt8, false), &lengths, values)
}

fn vote_lists(lengths: &[usize], heads: &[&str], epochs: &[u32]) -> ArrayRef {
    let fields = Fields::from(vec![
        Field::new("head_root", DataType::Utf8, false),
        Field::new("source_epoch", DataType::Int64, false),
        Field::new("target_epoch", DataType::UInt32, false),
    ]);
    let columns: Vec<ArrayRef> = vec![
        Arc::new(StringArray::from(heads.to_vec())),
        Arc::new(Int64Array::from(vec![-1; heads.len()])),
        Arc::new(UInt32Array::from(epochs.to_vec())),
    ];
    let records: ArrayRef = Arc::new(StructArray::new(fields.clone(), columns, None));
    list_of(Field::new("item", DataType::Struct(fields), false), lengths, records)
}

fn parquet_file(columns: Vec<(&str, ArrayRef)>) -> Vec<u8> {
    let fields: Vec<Field> = columns
        .iter()
        .map(|(name, column)| Field::new(*name, column.data_type().clone(), false))
        .collect();
    let schema = Arc::new(Schema::new(fields));
    let arrays = columns.into_iter().map(|(_, column)| column).collect();
    let batch = RecordBatch::try_new(schema.clone(), arrays).unwrap();
    let mut bytes = Vec::new();
    let mut writer = ArrowWriter::try_new(&mut bytes, schema, None).unwrap();
    writer.write(&batch).unwrap();
    writer.close().unwrap();
    bytes
}

fn slots(values: &[u64]) -> ArrayRef {
    Arc::new(UInt64Array::from(values.to_vec()))
}

fn timing_file() -> Vec<u8> {
    let a = root_text(0xa1);
    let b = root_text(0xb2);
    parquet_file(vec![
        ("extra", slots(&[0, 0, 0])),
        ("votes", vote_lists(&[2, 0, 1], &[&a, &b, &b[2..]], &[1, 2, 3])),
        ("vote_ids", byte_lists(&[&[0, 1, 255], &[], &[0]])),
        ("slot", slots(&[100, 101, 100])),
        ("slot_offsets", byte_lists(&[&[1, 2, 255], &[7], &[3]])),
    ])
}

#[test]
fn timing_file_is_read() {
    let data = parse_parquet_file(timing_file()).unwrap();
    assert_eq!(data.len(), 2);
    assert_eq!(data[&101].slot_offsets, vec![7]);
    assert!(data[&101].vote_ids.is_empty());
    assert!(data[&101].votes.is_empty());
    assert_eq!(data[&100].slot_offsets, vec![3]);
    assert_eq!(data[&100].vote_ids, vec![0]);
    assert_eq!(data[&100].votes.len(), 1);
    assert_eq!(data[&100].votes[0].head_root, root(0xb2));
    assert_eq!(data[&100].votes[0].target_epoch, 3);
}

#[test]
fn many_batches_are_read() {
    let count: u64 = 3000;
    let numbers: Vec<u64> = (0..count).collect();
    let bytes: Vec<Vec<u8>> = (0..count).map(|i| vec![(i % 256) as u8, 1]).collect();
    let lists: Vec<&[u8]> = bytes.iter().map(|list| list.as_slice()).collect();
    let lengths = vec![1usize; count as usize];
    let head = root_text(1);
    let heads = vec![head.as_str(); count as usize];
    let epochs: Vec<u32> = (0..count as u32).collect();
    let file = parquet_file(vec![
        ("slot", slots(&numbers)),
        ("slot_offsets", byte_lists(&lists)),
        ("vote_ids", byte_lists(&lists)),
        ("votes", vote_lists(&lengths, &heads, &epochs)),
    ]);
    let data = parse_parquet_file(file).unwrap();
    assert_eq!(data.len(), 3000);
    for slot in 0..count {
        assert_eq!(data[&slot].slot_offsets, bytes[slot as usize]);
        assert_eq!(data[&slot].votes[0].target_epoch, slot as u32);
    }
}

#[test]
fn files_that_are_not_timing_tables() {
    let failure = |bytes: Vec<u8>| parse_parquet_file(bytes).unwrap_err();
    assert_eq!(failure(vec![]), XatuError::CannotOpen);
    assert_eq!(failure(b"PAR1 no table PAR1".to_vec()), XatuError::CannotOpen);
    let lists = || byte_lists(&[&[1]]);
    assert_eq!(
        failure(parquet_file(vec![("slot", slots(&[1]))])),
        XatuError::MissingColumn { column: XatuColumn::SlotOffsets }
    );
    let with_votes = |votes: ArrayRef| {
        failure(parquet_file(vec![
            ("slot", slots(&[1])),
            ("slot_offsets", lists()),
            ("vote_ids", lists()),
            ("votes", votes),
        ]))
    };
    assert_eq!(
        with_votes(lists()),
        XatuError::BadVotes { slot: 1, cause: VotesError::NotRecords }
    );
    assert_eq!(
        with_votes(slots(&[1])),
        XatuError::WrongColumnType { column: XatuColumn::Votes }
    );
    assert_eq!(
        with_votes(vote_lists(&[1], &["0xab"], &[1])),
        XatuError::BadVotes {
            slot: 1,
            cause: VotesError::BadHeadRoot {
                index: 0,
                cause: RootError::WrongLength { hex_chars: 2 }
            }
        }
    );
    let offsets: ArrayRef = Arc::new(StringArray::from(vec!["x"]));
    assert_eq!(
        failure(parquet_file(vec![
            ("slot", slots(&[1])),
            ("slot_offsets", offsets),
            ("vote_ids", lists()),
            ("votes", vote_lists(&[0], &[], &[])),
        ])),
        XatuError::WrongColumnType { column: XatuColumn::SlotOffsets }
    );
}

/// A file whose only page claims to be encoded with a dictionary that the file does not have.
fn file_without_its_dictionary() -> Vec<u8> {
    let schema = Arc::new(Schema::new(vec![Field::new("slot", DataType::UInt64, false)]));
    let batch = RecordBatch::try_new(schema.clone(), vec![slots(&[1, 2, 3])]).unwrap();
    let properties = WriterProperties::builder().set_dictionary_enabled(false).build();
    let mut bytes = Vec::new();
    let mut writer = ArrowWriter::try_new(&mut bytes, schema, Some(properties)).unwrap();
    writer.write(&batch).unwrap();
    writer.close().unwrap();
    let header = [0x15, 0x00, 0x15, 0x06, 0x15, 0x06];
    let at = bytes.windows(header.len()).position(|window| window == header).unwrap();
    bytes[at + 1] = 0x10;
    bytes
}

#[test]
fn a_batch_at_which_reading_panics_cannot_be_read() {
    let file = file_without_its_dictionary();
    assert_eq!(parse_parquet_file(file.clone()).unwrap_err(), XatuError::CannotReadBatch);
    let mut reader = XatuReader::new();
    reader.load_date("2020-12-01", Some(timing_file())).unwrap();
    let error = reader.load_date("2020-12-02", Some(file)).unwrap_err();
    assert_eq!(error, XatuError::CannotReadBatch);
    match reader.get_slot_data(101) {
        SlotLookup::Data { data } => assert!(data.is_some()),
        other => panic!("{other:?}"),
    }
}

#[test]
fn damaged_files_give_errors() {
    let good = timing_file();
    for at in 0..good.len() {
        let mut bad = good.clone();
        bad[at] ^= 0xff;
        let _ = parse_parquet_file(bad);
    }
}

#[test]
fn fields_of_other_kinds_are_told_apart() {
    let with_fields = |fields: Vec<(&str, ArrayRef)>| {
        let declared: Vec<Field> = fields
            .iter()
            .map(|(name, column)| Field::new(*name, column.data_type().clone(), false))
            .collect();
        let declared = Fields::from(declared);
        let columns = fields.into_iter().map(|(_, column)| column).collect();
        let records: ArrayRef = Arc::new(StructArray::new(declared.clone(), columns, None));
        let votes = list_of(Field::new("item", DataType::Struct(declared), false), &[1], records);
        parse_parquet_file(parquet_file(vec![
            ("slot", slots(&[1])),
            ("slot_offsets", byte_lists(&[&[]])),
            ("vote_ids", byte_lists(&[&[]])),
            ("votes", votes),
        ]))
        .unwrap_err()
    };
    let head = || -> ArrayRef { Arc::new(StringArray::from(vec![root_text(1)])) };
    let number = || -> ArrayRef { Arc::new(UInt32Array::from(vec![1])) };
    let bad = |cause| XatuError::BadVotes { slot: 1, cause };
    assert_eq!(with_fields(vec![("target_epoch", number())]), bad(VotesError::MissingHeadRoot));
    assert_eq!(
        with_fields(vec![("head_root", number()), ("target_epoch", number())]),
        bad(VotesError::HeadRootNotText)
    );
    assert_eq!(with_fields(vec![("head_root", head())]), bad(VotesError::MissingTargetEpoch));
    assert_eq!(
        with_fields(vec![("head_root", head()), ("target_epoch", slots(&[1]))]),
        bad(VotesError::TargetEpochNotU32)
    );
}

#[test]
fn reader_holds_one_day() {
    let mut reader = XatuReader::new();
    let date = match reader.get_slot_data(100) {
        SlotLookup::Load { date } => date,
        other => panic!("{other:?}"),
    };
    assert_eq!(date, "2020-12-01");
    reader.load_date(&date, Some(timing_file())).unwrap();
    match reader.get_slot_data(101) {
        SlotLookup::Data { data } => assert_eq!(data.unwrap().slot_offsets, vec![7]),
        other => panic!("{other:?}"),
    }
    match reader.get_slot_data(3598) {
        SlotLookup::Data { data } => assert!(data.is_none()),
        other => panic!("{other:?}"),
    }
    match reader.get_slot_data(3599) {
        SlotLookup::Load { date } => assert_eq!(date, "2020-12-02"),
        other => panic!("{other:?}"),
    }
}

#[test]
fn a_day_that_cannot_be_read_changes_nothing() {
    let mut reader = XatuReader::new();
    reader.load_date("2020-12-01", Some(timing_file())).unwrap();
    let error = reader.load_date("2020-12-02", Some(vec![1, 2, 3])).unwrap_err();
    assert_eq!(error, XatuError::CannotOpen);
    match reader.get_slot_data(100) {
        SlotLookup::Data { data } => assert!(data.is_some()),
        other => panic!("{other:?}"),
    }
}

#[test]
fn a_day_without_a_file_has_no_data() {
    let mut reader = XatuReader::new();
    reader.load_date("2020-12-01", None).unwrap();
    match reader.get_slot_data(100) {
        SlotLookup::Data { data } => assert!(data.is_none()),
        other => panic!("{other:?}"),
    }
    let mut day = HashMap::new();
    insert_batch(&mut day, &batch()).unwrap();
    reader.store_day("2020-12-01", day);
    match reader.get_slot_data(7) {
        SlotLookup::Data { data } => assert_eq!(data.unwrap().vote_ids, vec![0, 255]),
        other => panic!("{other:?}"),
    }
}
