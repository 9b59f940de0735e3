use std::collections::HashMap;
use std::io::Write;

use fcr_simulator::era::downloader::{
    era_pattern, find_cached_file, EraDownloader, EraFileError,
};
use fcr_simulator::era::iterator::{EraBlockIterator, Lookup};
use fcr_simulator::era::reader::{
    era_number_for_slot, index_blocks, parse_era_blocks, read_record, read_stored_blocks, scan_of,
    EraBlocksError, EraError,
};

fn record(record_type: u16, data: &[u8]) -> Vec<u8> {
    let mut out = Vec::new();
    out.extend_from_slice(&record_type.to_le_bytes());
    out.extend_from_slice(&(data.len() as u32).to_le_bytes());
    out.extend_from_slice(&[0, 0]);
    out.extend_from_slice(data);
    out
}

fn snappy(data: &[u8]) -> Vec<u8> {
    let mut encoder = snap::write::FrameEncoder::new(Vec::new());
    encoder.write_all(data).unwrap();
    encoder.into_inner().unwrap()
}

fn file(records: &[Vec<u8>]) -> Vec<u8> {
    let mut out = record(0x3265, &[]);
    for r in records {
        out.extend_from_slice(r);
    }
    out
}

#[test]
fn records_are_read_one_after_another() {
    let mut data = record(0x0102, &[9, 8, 7]);
    data.extend_from_slice(&record(0x3269, &[]));
    let (first, next) = read_record(&data, 0).unwrap().unwrap();
    assert_eq!(first.record_type, 0x0102);
    assert_eq!(first.data, vec![9, 8, 7]);
    assert_eq!(next, 11);
    let (second, next) = read_record(&data, next).unwrap().unwrap();
    assert_eq!(second.record_type, 0x3269);
    assert!(second.data.is_empty());
    assert!(read_record(&data, next).unwrap().is_none());
    let short = vec![1u8, 0, 1, 0, 0, 0, 0, 0];
    assert_eq!(read_record(&short, 0).unwrap_err(), EraError::TruncatedRecord);
    assert!(read_record(&vec![0u8; 7], 0).unwrap().is_none());
}

#[test]
fn blocks_of_a_file_are_decoded_in_order() {
    let long: Vec<u8> = (0..100_000u32).map(|i| (i % 251) as u8).collect();
    let data = file(&[
        record(1, &snappy(b"first")),
        record(2, b"a state"),
        record(0, b""),
        record(0x7777, b"unknown"),
        record(1, &snappy(&long)),
        record(0x3269, b"an index"),
    ]);
    let scan = parse_era_blocks(&data);
    assert_eq!(scan.failure, None);
    assert_eq!(scan.payloads, vec![b"first".to_vec(), long]);
}

#[test]
fn stored_blocks_are_those_of_block_records() {
    let data = file(&[record(2, b"state"), record(1, b"x"), record(1, b"yz")]);
    let stored = read_stored_blocks(&data);
    assert_eq!(stored.failure, None);
    assert_eq!(stored.compressed, vec![b"x".to_vec(), b"yz".to_vec()]);
}

#[test]
fn files_that_cannot_be_read() {
    assert_eq!(parse_era_blocks(&vec![]).failure, Some(EraError::MissingVersion));
    assert_eq!(
        parse_era_blocks(&record(1, &snappy(b"x"))).failure,
        Some(EraError::NotAVersion { record_type: 1 })
    );
    let mut cut = file(&[record(1, &snappy(b"one")), record(1, &snappy(b"two"))]);
    cut.pop();
    let scan = parse_era_blocks(&cut);
    assert_eq!(scan.payloads, vec![b"one".to_vec()]);
    assert_eq!(scan.failure, Some(EraError::TruncatedRecord));
    let bad = file(&[record(1, &snappy(b"one")), record(1, b"junk"), vec![1]]);
    let scan = parse_era_blocks(&bad);
    assert_eq!(scan.payloads, vec![b"one".to_vec()]);
    assert_eq!(scan.failure, Some(EraError::NotSnappy));
}

#[test]
fn first_undecoded_block_ends_the_reading() {
    let scan = scan_of(vec![Some(vec![1]), None, Some(vec![2])], Some(EraError::TruncatedRecord));
    assert_eq!(scan.payloads, vec![vec![1]]);
    assert_eq!(scan.failure, Some(EraError::NotSnappy));
    let scan = scan_of(vec![Some(vec![1])], Some(EraError::TruncatedRecord));
    assert_eq!(scan.payloads, vec![vec![1]]);
    assert_eq!(scan.failure, Some(EraError::TruncatedRecord));
}

#[test]
fn blocks_are_kept_by_their_slots() {
    let blocks = index_blocks(vec![Some((5, 'a')), Some((6, 'b')), Some((5, 'c'))], None).unwrap();
    assert_eq!(blocks.len(), 2);
    assert_eq!(blocks.get(&5), Some(&'c'));
    assert_eq!(blocks.get(&6), Some(&'b'));
    let failure = Some(EraError::NotSnappy);
    assert_eq!(
        index_blocks(vec![Some((5, 'a')), None], failure).unwrap_err(),
        EraBlocksError::NotABlock { index: 1 }
    );
    assert_eq!(
        index_blocks(vec![Some((5, 'a'))], failure).unwrap_err(),
        EraBlocksError::Unreadable { cause: EraError::NotSnappy }
    );
}

#[test]
fn eras_hold_8192_slots() {
    assert_eq!(era_number_for_slot(0), 1);
    assert_eq!(era_number_for_slot(8191), 1);
    assert_eq!(era_number_for_slot(8192), 2);
    assert_eq!(era_number_for_slot(u64::MAX), 2251799813685248);
}

const PAGE: &str = "<html>\r\n\
    <a href=\"mainnet-00002-bb.era\">mainnet-00002-bb.era</a>\r\n\
    <a href=\"mainnet-00001-aa.era\">x</a>\n\
    mainnet-00002-cc.era\n\
    mainnet-x-dd.era\n\
    mainnet-00003-ee.erb\n\
    sepolia-00004-ff.era\n\
    mainnet-5.era\n\
    mainnet-+6-gg.era\n\
    mainnet-99999999999999999999-hh.era";

fn names(list: &[&str]) -> Vec<String> {
    list.iter().map(|name| name.to_string()).collect()
}

#[test]
fn index_names_the_first_file_of_an_era() {
    let mut downloader = EraDownloader::new("https://era.example/mainnet//");
    assert!(downloader.needs_index());
    assert_eq!(downloader.filename_for_era(1).unwrap_err(), EraFileError::IndexNotLoaded);
    assert_eq!(downloader.remote_file(1).unwrap_err(), EraFileError::IndexNotLoaded);
    downloader.load_index(PAGE);
    assert!(!downloader.needs_index());
    assert_eq!(downloader.filename_for_era(1).unwrap(), "mainnet-00001-aa.era");
    assert_eq!(downloader.filename_for_era(2).unwrap(), "mainnet-00002-bb.era");
    assert_eq!(downloader.filename_for_era(6).unwrap(), "mainnet-+6-gg.era");
    for era in [0, 3, 4, 5] {
        assert_eq!(
            downloader.filename_for_era(era).unwrap_err(),
            EraFileError::NotFound { era }
        );
        assert_eq!(downloader.remote_file(era).unwrap_err(), EraFileError::NotFound { era });
    }
    let file = downloader.remote_file(2).unwrap();
    assert_eq!(file.filename, "mainnet-00002-bb.era");
    assert_eq!(file.url, "https://era.example/mainnet/mainnet-00002-bb.era");
    downloader.load_index("mainnet-00009-zz.era");
    assert_eq!(downloader.filename_for_era(1).unwrap(), "mainnet-00001-aa.era");
    assert!(downloader.filename_for_era(9).is_err());
}

#[test]
fn index_with_a_number_right_before_the_suffix() {
    let mut downloader = EraDownloader::new("x");
    downloader.load_index("mainnet-7-.era\nmainnet-8.era");
    assert_eq!(downloader.filename_for_era(7).unwrap(), "mainnet-7-.era");
    assert!(downloader.filename_for_era(8).is_err());
}

#[test]
fn eras_of_a_range_are_downloaded_unless_cached() {
    let downloader = EraDownloader::new("x");
    let cached = names(&["other", "mainnet-00002-bb.era", "mainnet-00001-aa.erb"]);
    assert_eq!(downloader.pre_download(0, 8159, &cached), vec![1]);
    assert_eq!(downloader.pre_download(0, 8160, &cached), vec![1]);
    assert_eq!(downloader.pre_download(0, 16352, &cached), vec![1, 3]);
    assert_eq!(downloader.pre_download(8192, 8200, &cached), Vec::<u64>::new());
    assert_eq!(downloader.pre_download(40000, 5, &cached), Vec::<u64>::new());
}

#[test]
fn cached_files_are_found_by_their_names() {
    assert_eq!(era_pattern(1), "mainnet-00001-");
    assert_eq!(era_pattern(1234567), "mainnet-1234567-");
    let cached = names(&["mainnet-00010-x.era", "mainnet-00001-x.era", "mainnet-00001-y.era"]);
    assert_eq!(find_cached_file(&cached, 1), Some(1));
    assert_eq!(find_cached_file(&cached, 10), Some(0));
    assert_eq!(find_cached_file(&cached, 0), None);
    let downloader = EraDownloader::new("x");
    assert_eq!(downloader.get_era(10, &cached), Ok(0));
    assert_eq!(downloader.get_era(2, &cached), Err(EraFileError::NotCached { era: 2 }));
    assert_eq!(downloader.downloaded(1, &cached), Ok(1));
    assert_eq!(downloader.downloaded(2, &cached), Err(EraFileError::StillMissing { era: 2 }));
}

fn era_blocks(era: u64) -> HashMap<u64, String> {
    let first = (era - 1) * 8192;
    HashMap::from([(first, format!("block {first}")), (first + 2, format!("block {}", first + 2))])
}

#[test]
fn iterator_serves_the_blocks_of_an_archive() {
    let mut iterator: EraBlockIterator<String> = EraBlockIterator::new();
    let Lookup::Load { era } = iterator.block_at_slot(0) else { panic!() };
    assert_eq!(era, 1);
    iterator.load_current(era, era_blocks(era));
    let Lookup::Block { block } = iterator.block_at_slot(0) else { panic!() };
    assert_eq!(block.unwrap(), "block 0");
    let Lookup::Block { block } = iterator.block_at_slot(1) else { panic!() };
    assert!(block.is_none());
    let Lookup::Block { block } = iterator.peek_next_block(2) else { panic!() };
    assert_eq!(block.unwrap(), "block 2");
}

#[test]
fn looking_ahead_keeps_the_current_era_and_saves_a_load() {
    let mut iterator: EraBlockIterator<String> = EraBlockIterator::new();
    iterator.load_current(1, era_blocks(1));
    let Lookup::Load { era } = iterator.peek_next_block(8194) else { panic!() };
    assert_eq!(era, 2);
    assert_eq!(iterator.ensure_next_loaded(8194), Some(2));
    iterator.load_next(era, era_blocks(era));
    assert_eq!(iterator.ensure_next_loaded(8194), None);
    let Lookup::Block { block } = iterator.peek_next_block(8194) else { panic!() };
    assert_eq!(block.unwrap(), "block 8194");
    let Lookup::Block { block } = iterator.peek_next_block(8195) else { panic!() };
    assert!(block.is_none());
    assert_eq!(iterator.ensure_loaded(2), None);
    assert_eq!(iterator.ensure_loaded(8192), None);
    let Lookup::Block { block } = iterator.block_at_slot(8192) else { panic!() };
    assert_eq!(block.unwrap(), "block 8192");
    assert_eq!(iterator.ensure_loaded(2), Some(1));
}
