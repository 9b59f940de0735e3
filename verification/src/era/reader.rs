//! Reading ERA files.
//!
//! An ERA file is a series of records. A record is a type (two bytes, low one first), the
//! length of its data (four bytes, low one first), two reserved bytes, and the data.
use std::collections::HashMap;
use std::io::Read;
use vstd::prelude::*;

use crate::types::Slot;

verus! {

broadcast use vstd::std_specs::hash::group_hash_axioms;

/// The type of the record that an ERA file starts with.
pub const TYPE_VERSION: u16 = 0x3265;

/// The type of the records that hold a block, in the Snappy frame format.
pub const TYPE_COMPRESSED_SIGNED_BEACON_BLOCK: u16 = 0x0001;

/// Slots per ERA file.
pub const SLOTS_PER_ERA: u64 = 8192;

/// A record of an ERA file.
#[derive(Debug)]
pub struct Record {
    pub record_type: u16,
    pub data: Vec<u8>,
}

/// Why an ERA file cannot be read.
#[derive(Clone, Copy, Debug, PartialEq, Eq, Structural)]
pub enum EraError {
    /// A record's data goes beyond the end of the file.
    TruncatedRecord,
    /// The file holds no record.
    MissingVersion,
    /// The first record is of another type than the version.
    NotAVersion { record_type: u16 },
    /// A block is not in the Snappy frame format.
    NotSnappy,
}

/// Why the blocks of an ERA file cannot be had.
#[derive(Clone, Copy, Debug, PartialEq, Eq, Structural)]
pub enum EraBlocksError {
    /// The block at this position, among the blocks, is no signed beacon block.
    NotABlock { index: usize },
    /// The file cannot be read.
    Unreadable { cause: EraError },
}

/// What is found at a position of an ERA file.
pub enum RecordAt {
    /// Too few bytes for another record.
    End,
    /// A record whose data goes beyond the end of the file.
    Truncated,
    /// A record, and where the next one starts.
    Found { record_type: u16, data: Seq<u8>, next: int },
}

/// The number that two bytes stand for, low one first.
pub open spec fn le_u16(data: Seq<u8>, at: int) -> int {
    data[at] + 0x100 * data[at + 1]
}

/// The number that four bytes stand for, low one first.
pub open spec fn le_u32(data: Seq<u8>, at: int) -> int {
    data[at] + 0x100 * data[at + 1] + 0x1_0000 * data[at + 2] + 0x100_0000 * data[at + 3]
}

/// What is found at `pos`.
pub open spec fn record_at(data: Seq<u8>, pos: int) -> RecordAt {
    let start = pos + 8;
    let end = start + le_u32(data, pos + 2);
    if start > data.len() {
        RecordAt::End
    } else if end > data.len() {
        RecordAt::Truncated
    } else {
        RecordAt::Found {
            record_type: le_u16(data, pos) as u16,
            data: data.subrange(start, end),
            next: end,
        }
    }
}

/// Reads the record at `pos`, if there is one, and says where the next one starts.
pub fn read_record(data: &Vec<u8>, pos: usize) -> (res: Result<Option<(Record, usize)>, EraError>)
    requires
        pos <= data@.len(),
    ensures
        match res {
            Ok(None) => record_at(data@, pos as int) is End,
            Ok(Some((record, next))) => record_at(data@, pos as int) == (RecordAt::Found {
                record_type: record.record_type,
                data: record.data@,
                next: next as int,
            }) && pos < next <= data@.len(),
            Err(e) => e == EraError::TruncatedRecord && record_at(
                data@,
                pos as int,
            ) is Truncated,
        },
{
    let remaining: usize = data.len() - pos;
    if remaining < 8 {
        return Ok(None);
    }
    let record_type: u16 = data[pos] as u16 + 0x100 * (data[pos + 1] as u16);
    let length: u32 = data[pos + 2] as u32 + 0x100 * (data[pos + 3] as u32) + 0x1_0000 * (data[pos
        + 4] as u32) + 0x100_0000 * (data[pos + 5] as u32);
    if length as usize > remaining - 8 {
        return Err(EraError::TruncatedRecord);
    }
    let start: usize = pos + 8;
    let end: usize = start + length as usize;
    let mut content: Vec<u8> = Vec::new();
    let mut i: usize = start;
    while i < end
        invariant
            start <= i <= end <= data@.len(),
            content@ == data@.subrange(start as int, i as int),
        decreases end - i,
    {
        content.push(data[i]);
        i = i + 1;
        assert(content@ =~= data@.subrange(start as int, i as int));
    }
    Ok(Some((Record { record_type, data: content }, end)))
}

/// What a decoder of the Snappy frame format makes of some bytes: the text they hold, or
/// nothing where they are not in that format.
pub uninterp spec fn snappy_decoded(data: Seq<u8>) -> Option<Seq<u8>>;

/// `snap::read::FrameDecoder`, read to its end over `data`: what comes out depends on the
/// bytes alone.
#[verifier::external_body]
fn decompress_snappy(data: &Vec<u8>) -> (res: Option<Vec<u8>>)
    ensures
        match res {
            Some(text) => snappy_decoded(data@) == Some(text@),
            None => snappy_decoded(data@) is None,
        },
{
    let mut decompressed: Vec<u8> = Vec::new();
    match snap::read::FrameDecoder::new(data.as_slice()).read_to_end(&mut decompressed) {
        Ok(_) => Some(decompressed),
        Err(_) => None,
    }
}

/// The blocks of an ERA file as they are stored, and what ended the reading if it was not the
/// end of the file.
#[derive(Debug)]
pub struct StoredBlocks {
    /// The data of each record that holds a block, in file order.
    pub compressed: Vec<Vec<u8>>,
    pub failure: Option<EraError>,
}

/// The blocks of an ERA file, and what ended the reading if it was not the end of the file.
#[derive(Debug)]
pub struct EraScan {
    /// The SSZ form of each block, in file order.
    pub payloads: Vec<Vec<u8>>,
    pub failure: Option<EraError>,
}

/// The data of the block records from `pos` on, up to the end or the first failure. Records of
/// other types are passed over.
pub open spec fn stored_from(data: Seq<u8>, pos: int) -> (Seq<Seq<u8>>, Option<EraError>)
    decreases data.len() - pos,
{
    match record_at(data, pos) {
        RecordAt::End => (Seq::empty(), None),
        RecordAt::Truncated => (Seq::empty(), Some(EraError::TruncatedRecord)),
        RecordAt::Found { record_type, data: content, next } => {
            let rest = stored_from(data, next);
            if record_type != TYPE_COMPRESSED_SIGNED_BEACON_BLOCK {
                rest
            } else {
                (seq![content] + rest.0, rest.1)
            }
        },
    }
}

/// The data of the block records of an ERA file, which starts with a version.
pub open spec fn stored_blocks(data: Seq<u8>) -> (Seq<Seq<u8>>, Option<EraError>) {
    match record_at(data, 0) {
        RecordAt::End => (Seq::empty(), Some(EraError::MissingVersion)),
        RecordAt::Truncated => (Seq::empty(), Some(EraError::TruncatedRecord)),
        RecordAt::Found { record_type, data: _, next } => if record_type != TYPE_VERSION {
            (Seq::empty(), Some(EraError::NotAVersion { record_type }))
        } else {
            stored_from(data, next)
        },
    }
}

/// The blocks before the first that could not be decoded; where there is such a one, it is what
/// ended the reading.
pub open spec fn decoded_blocks(
    decoded: Seq<Option<Seq<u8>>>,
    failure: Option<EraError>,
) -> (Seq<Seq<u8>>, Option<EraError>)
    decreases decoded.len(),
{
    if decoded.len() == 0 {
        (Seq::empty(), failure)
    } else {
        match decoded[0] {
            None => (Seq::empty(), Some(EraError::NotSnappy)),
            Some(block) => {
                let rest = decoded_blocks(decoded.skip(1), failure);
                (seq![block] + rest.0, rest.1)
            },
        }
    }
}

/// What a decoder makes of each block.
pub open spec fn all_decoded(compressed: Seq<Seq<u8>>) -> Seq<Option<Seq<u8>>> {
    Seq::new(compressed.len(), |i: int| snappy_decoded(compressed[i]))
}

/// The blocks of an ERA file.
pub open spec fn era_blocks(data: Seq<u8>) -> (Seq<Seq<u8>>, Option<EraError>) {
    let (compressed, failure) = stored_blocks(data);
    decoded_blocks(all_decoded(compressed), failure)
}

/// The byte strings that some vectors hold.
pub open spec fn contents(vectors: Seq<Vec<u8>>) -> Seq<Seq<u8>> {
    Seq::new(vectors.len(), |i: int| vectors[i]@)
}

/// The byte strings that some vectors hold, where there is one.
pub open spec fn optional_contents(vectors: Seq<Option<Vec<u8>>>) -> Seq<Option<Seq<u8>>> {
    Seq::new(
        vectors.len(),
        |i: int|
            match vectors[i] {
                Some(bytes) => Some(bytes@),
                None => None,
            },
    )
}

/// Reads the blocks of an ERA file as they are stored.
pub fn read_stored_blocks(data: &Vec<u8>) -> (res: StoredBlocks)
    ensures
        (contents(res.compressed@), res.failure) == stored_blocks(data@),
{
    let mut compressed: Vec<Vec<u8>> = Vec::new();
    assert(contents(compressed@) =~= Seq::<Seq<u8>>::empty());
    let mut pos: usize = match read_record(data, 0) {
        Err(e) => {
            return StoredBlocks { compressed, failure: Some(e) };
        },
        Ok(None) => {
            return StoredBlocks { compressed, failure: Some(EraError::MissingVersion) };
        },
        Ok(Some((version, next))) => {
            if version.record_type != TYPE_VERSION {
                return StoredBlocks {
                    compressed,
                    failure: Some(EraError::NotAVersion { record_type: version.record_type }),
                };
            }
            next
        },
    };
    let ghost all = stored_blocks(data@);
    assert(contents(compressed@) + stored_from(data@, pos as int).0 =~= all.0);
    loop
        invariant
            pos <= data@.len(),
            all == stored_blocks(data@),
            contents(compressed@) + stored_from(data@, pos as int).0 == all.0,
            stored_from(data@, pos as int).1 == all.1,
        decreases data@.len() - pos,
    {
        match read_record(data, pos) {
            Err(e) => {
                assert(contents(compressed@) =~= all.0);
                return StoredBlocks { compressed, failure: Some(e) };
            },
            Ok(None) => {
                assert(contents(compressed@) =~= all.0);
                return StoredBlocks { compressed, failure: None };
            },
            Ok(Some((record, next))) => {
                if record.record_type == TYPE_COMPRESSED_SIGNED_BEACON_BLOCK {
                    let ghost before = contents(compressed@);
                    let ghost rest = stored_from(data@, next as int).0;
                    let block = record.data;
                    compressed.push(block);
                    assert(contents(compressed@) =~= before.push(block@));
                    assert(contents(compressed@) + rest =~= before + (seq![block@] + rest));
                }
                pos = next;
            },
        }
    }
}

/// The blocks before the first that could not be decoded, given what a decoder made of each, up
/// to that one at least.
pub fn scan_of(decoded: Vec<Option<Vec<u8>>>, failure: Option<EraError>) -> (res: EraScan)
    ensures
        (contents(res.payloads@), res.failure) == decoded_blocks(
            optional_contents(decoded@),
            failure,
        ),
{
    let ghost all = optional_contents(decoded@);
    let ghost whole = decoded_blocks(all, failure);
    let ghost items = decoded@;
    let mut payloads: Vec<Vec<u8>> = Vec::new();
    assert(all.skip(0) =~= all);
    assert(contents(payloads@) =~= Seq::<Seq<u8>>::empty());
    assert(contents(payloads@) + decoded_blocks(all, failure).0 =~= whole.0);
    for item in it: decoded
        invariant
            it.seq() == items,
            all == optional_contents(items),
            contents(payloads@) + decoded_blocks(all.skip(it.index() as int), failure).0 == whole.0,
            decoded_blocks(all.skip(it.index() as int), failure).1 == whole.1,
            whole == decoded_blocks(optional_contents(decoded@), failure),
    {
        let ghost k = it.index() as int;
        assert(all.skip(k)[0] == all[k]);
        assert(all.skip(k).skip(1) =~= all.skip(k + 1));
        match item {
            None => {
                assert(contents(payloads@) =~= whole.0);
                return EraScan { payloads, failure: Some(EraError::NotSnappy) };
            },
            Some(block) => {
                let ghost before = contents(payloads@);
                let ghost rest = decoded_blocks(all.skip(k + 1), failure).0;
                payloads.push(block);
                assert(contents(payloads@) =~= before.push(block@));
                assert(contents(payloads@) + rest =~= before + (seq![block@] + rest));
            },
        }
    }
    assert(all.skip(all.len() as int) =~= Seq::empty());
    assert(contents(payloads@) =~= whole.0);
    EraScan { payloads, failure }
}

/// Reads the blocks of an ERA file, each in its SSZ form.
pub fn parse_era_blocks(data: &Vec<u8>) -> (res: EraScan)
    ensures
        (contents(res.payloads@), res.failure) == era_blocks(data@),
{
    let stored = read_stored_blocks(data);
    let ghost all = all_decoded(contents(stored.compressed@));
    let mut decoded: Vec<Option<Vec<u8>>> = Vec::new();
    let mut i: usize = 0;
    while i < stored.compressed.len()
        invariant
            i <= stored.compressed@.len(),
            decoded@.len() == i,
            all == all_decoded(contents(stored.compressed@)),
            optional_contents(decoded@) == all.take(i as int),
        decreases stored.compressed@.len() - i,
    {
        let ghost before = optional_contents(decoded@);
        let block = decompress_snappy(&stored.compressed[i]);
        decoded.push(block);
        assert(optional_contents(decoded@) =~= before.push(all[i as int]));
        assert(all.take(i + 1) =~= all.take(i as int).push(all[i as int]));
        i = i + 1;
    }
    assert(optional_contents(decoded@) =~= all);
    scan_of(decoded, stored.failure)
}

/// The blocks by slot: of two for the same slot, the later one.
pub open spec fn blocks_by_slot<B>(decoded: Seq<Option<(Slot, B)>>, count: int) -> Map<u64, B>
    decreases count,
{
    if count <= 0 {
        Map::empty()
    } else {
        match decoded[count - 1] {
            Some((slot, block)) => blocks_by_slot(decoded, count - 1).insert(slot, block),
            None => blocks_by_slot(decoded, count - 1),
        }
    }
}

/// Collects the blocks of an ERA file by slot. `decoded` holds, in file order, what each
/// payload decodes to, up to the first that is no block; `failure` is what ended the reading
/// of the file.
pub fn index_blocks<B>(decoded: Vec<Option<(Slot, B)>>, failure: Option<EraError>) -> (res: Result<
    HashMap<u64, B>,
    EraBlocksError,
>)
    ensures
        match res {
            Ok(blocks) => {
                &&& failure is None
                &&& forall|i: int| 0 <= i < decoded@.len() ==> #[trigger] decoded@[i] is Some
                &&& blocks@ == blocks_by_slot(decoded@, decoded@.len() as int)
            },
            Err(EraBlocksError::NotABlock { index }) => {
                &&& index < decoded@.len()
                &&& decoded@[index as int] is None
                &&& forall|i: int| 0 <= i < index ==> #[trigger] decoded@[i] is Some
            },
            Err(EraBlocksError::Unreadable { cause }) => {
                &&& failure == Some(cause)
                &&& forall|i: int| 0 <= i < decoded@.len() ==> #[trigger] decoded@[i] is Some
            },
        },
{
    let ghost all = decoded@;
    let total: usize = decoded.len();
    let mut blocks: HashMap<u64, B> = HashMap::new();
    let mut index: usize = 0;
    for item in it: decoded
        invariant
            it.seq() == all,
            index == it.index(),
            forall|i: int| 0 <= i < index ==> #[trigger] all[i] is Some,
            blocks@ == blocks_by_slot(all, index as int),
            all.len() == total,
    {
        match item {
            Some((slot, block)) => {
                blocks.insert(slot, block);
            },
            None => {
                return Err(EraBlocksError::NotABlock { index });
            },
        }
        index = index + 1;
    }
    match failure {
        Some(cause) => Err(EraBlocksError::Unreadable { cause }),
        None => Ok(blocks),
    }
}

/// The ERA that holds the blocks of a slot.
pub open spec fn era_of(slot: Slot) -> int {
    slot as int / 8192 + 1
}

/// The ERA that holds the blocks of a slot. The first, with number 0, holds the genesis state
/// and no blocks.
pub fn era_number_for_slot(slot: Slot) -> (era: u64)
    ensures
        era == era_of(slot),
{
    slot / SLOTS_PER_ERA + 1
}

/// An ERA above 0 holds the 8192 slots that follow those of the ERA before, and each slot is
/// in one ERA.
pub proof fn era_holds_its_slots(era: int, slot: Slot)
    ensures
        era_of(slot) == era <==> 8192 * (era - 1) <= slot < 8192 * era,
        era_of(slot) >= 1,
{
}

/// The bytes of a record.
pub open spec fn record_bytes(record_type: u16, data: Seq<u8>) -> Seq<u8> {
    seq![
        (record_type % 0x100) as u8,
        (record_type / 0x100) as u8,
        (data.len() as int % 0x100) as u8,
        (data.len() as int / 0x100 % 0x100) as u8,
        (data.len() as int / 0x1_0000 % 0x100) as u8,
        (data.len() as int / 0x100_0000) as u8,
        0u8,
        0u8,
    ] + data
}

/// The bytes of a series of records.
pub open spec fn records_bytes(records: Seq<(u16, Seq<u8>)>) -> Seq<u8>
    decreases records.len(),
{
    if records.len() == 0 {
        Seq::empty()
    } else {
        record_bytes(records[0].0, records[0].1) + records_bytes(records.drop_first())
    }
}

/// The data of the block records in a series of records.
pub open spec fn blocks_in(records: Seq<(u16, Seq<u8>)>) -> Seq<Seq<u8>>
    decreases records.len(),
{
    if records.len() == 0 {
        Seq::empty()
    } else if records[0].0 != TYPE_COMPRESSED_SIGNED_BEACON_BLOCK {
        blocks_in(records.drop_first())
    } else {
        seq![records[0].1] + blocks_in(records.drop_first())
    }
}

proof fn lemma_record_is_found(before: Seq<u8>, record_type: u16, content: Seq<u8>, after: Seq<u8>)
    requires
        content.len() < 0x1_0000_0000,
    ensures
        record_at(before + record_bytes(record_type, content) + after, before.len() as int) == (
        RecordAt::Found {
            record_type,
            data: content,
            next: (before.len() + 8 + content.len()) as int,
        }),
{
    let data = before + record_bytes(record_type, content) + after;
    let pos = before.len() as int;
    let record = record_bytes(record_type, content);
    assert forall|i: int| 0 <= i < record.len() implies data[pos + i] == record[i] by {}
    assert(data[pos] == record[0] && data[pos + 1] == record[1]);
    assert(data[pos + 2] == record[2] && data[pos + 3] == record[3]);
    assert(data[pos + 4] == record[4] && data[pos + 5] == record[5]);
    let n = content.len() as int;
    lemma_four_bytes(n);
    assert(le_u32(data, pos + 2) == n);
    assert(data.subrange(pos + 8, pos + 8 + n) =~= content);
}

proof fn lemma_blocks_of_records(before: Seq<u8>, records: Seq<(u16, Seq<u8>)>)
    requires
        forall|i: int| 0 <= i < records.len() ==> (#[trigger] records[i]).1.len() < 0x1_0000_0000,
    ensures
        stored_from(before + records_bytes(records), before.len() as int) == (
            blocks_in(records),
            None::<EraError>,
        ),
    decreases records.len(),
{
    if records.len() == 0 {
        assert(before + records_bytes(records) =~= before);
    } else {
        let rest = records.drop_first();
        let record = record_bytes(records[0].0, records[0].1);
        let data = before + records_bytes(records);
        assert(records_bytes(records) == record + records_bytes(rest));
        assert(data =~= before + record + records_bytes(rest));
        lemma_record_is_found(before, records[0].0, records[0].1, records_bytes(rest));
        assert forall|i: int| 0 <= i < rest.len() implies (#[trigger] rest[i]).1.len()
            < 0x1_0000_0000 by {
            assert(rest[i] == records[i + 1]);
        }
        lemma_blocks_of_records(before + record, rest);
        assert((before + record).len() == before.len() + 8 + records[0].1.len());
    }
}

/// A file that consists of a version and of records is read as these records: its blocks come
/// out in order, up to the first that cannot be decoded, and every other record is passed over.
pub proof fn file_reads_as_its_records(version: Seq<u8>, records: Seq<(u16, Seq<u8>)>)
    requires
        version.len() < 0x1_0000_0000,
        forall|i: int| 0 <= i < records.len() ==> (#[trigger] records[i]).1.len() < 0x1_0000_0000,
    ensures
        stored_blocks(record_bytes(TYPE_VERSION, version) + records_bytes(records)) == (
            blocks_in(records),
            None::<EraError>,
        ),
        era_blocks(record_bytes(TYPE_VERSION, version) + records_bytes(records)) == decoded_blocks(
            all_decoded(blocks_in(records)),
            None,
        ),
{
    let first = record_bytes(TYPE_VERSION, version);
    let data = first + records_bytes(records);
    lemma_record_is_found(Seq::empty(), TYPE_VERSION, version, records_bytes(records));
    assert(Seq::empty() + first + records_bytes(records) =~= data);
    lemma_blocks_of_records(first, records);
}

/// A file whose first record is of another type than the version is refused.
pub proof fn file_without_version_is_refused(
    record_type: u16,
    content: Seq<u8>,
    rest: Seq<u8>,
)
    requires
        record_type != TYPE_VERSION,
        content.len() < 0x1_0000_0000,
    ensures
        era_blocks(record_bytes(record_type, content) + rest) == (
            Seq::<Seq<u8>>::empty(),
            Some(EraError::NotAVersion { record_type }),
        ),
{
    let data = record_bytes(record_type, content) + rest;
    lemma_record_is_found(Seq::empty(), record_type, content, rest);
    assert(Seq::empty() + record_bytes(record_type, content) + rest =~= data);
}

/// The blocks of a file by their slots are exactly its blocks: there is one for a slot just where
/// some block is of that slot, and of several it is the last.
pub proof fn every_block_is_found_by_its_slot<B>(decoded: Seq<Option<(Slot, B)>>)
    ensures
        ({
            let blocks = blocks_by_slot(decoded, decoded.len() as int);
            &&& forall|slot: u64|
                blocks.contains_key(slot) <==> exists|i: int|
                    0 <= i < decoded.len() && (#[trigger] decoded[i]) is Some && decoded[i]->Some_0.0
                        == slot
            &&& forall|i: int|
                0 <= i < decoded.len() && (#[trigger] decoded[i]) is Some && (forall|j: int|
                    i < j < decoded.len() && (#[trigger] decoded[j]) is Some ==> decoded[j]->Some_0.0
                        != decoded[i]->Some_0.0) ==> {
                    &&& blocks.contains_key(decoded[i]->Some_0.0)
                    &&& blocks[decoded[i]->Some_0.0] == decoded[i]->Some_0.1
                }
        }),
{
    let count = decoded.len() as int;
    let blocks = blocks_by_slot(decoded, count);
    assert forall|slot: u64|
        blocks.contains_key(slot) <==> exists|i: int|
            0 <= i < decoded.len() && (#[trigger] decoded[i]) is Some && decoded[i]->Some_0.0
                == slot by {
        lemma_block_of_a_slot(decoded, count, slot);
    }
    assert forall|i: int|
        0 <= i < decoded.len() && (#[trigger] decoded[i]) is Some && (forall|j: int|
            i < j < decoded.len() && (#[trigger] decoded[j]) is Some ==> decoded[j]->Some_0.0
                != decoded[i]->Some_0.0) implies blocks.contains_key(decoded[i]->Some_0.0)
        && blocks[decoded[i]->Some_0.0] == decoded[i]->Some_0.1 by {
        lemma_last_block_counts(decoded, count, i);
    }
}

proof fn lemma_block_of_a_slot<B>(decoded: Seq<Option<(Slot, B)>>, count: int, slot: u64)
    requires
        0 <= count <= decoded.len(),
    ensures
        blocks_by_slot(decoded, count).contains_key(slot) <==> exists|i: int|
            0 <= i < count && (#[trigger] decoded[i]) is Some && decoded[i]->Some_0.0 == slot,
    decreases count,
{
    if count > 0 {
        lemma_block_of_a_slot(decoded, count - 1, slot);
        let last = decoded[count - 1];
        if last is Some && last->Some_0.0 == slot {
            assert(decoded[count - 1]->Some_0.0 == slot);
        }
    }
}

proof fn lemma_last_block_counts<B>(decoded: Seq<Option<(Slot, B)>>, count: int, i: int)
    requires
        0 <= i < count <= decoded.len(),
        decoded[i] is Some,
        forall|j: int|
            i < j < count && (#[trigger] decoded[j]) is Some ==> decoded[j]->Some_0.0 != decoded[i]->Some_0.0,
    ensures
        blocks_by_slot(decoded, count).contains_key(decoded[i]->Some_0.0),
        blocks_by_slot(decoded, count)[decoded[i]->Some_0.0] == decoded[i]->Some_0.1,
    decreases count,
{
    if i < count - 1 {
        lemma_last_block_counts(decoded, count - 1, i);
        assert(decoded[count - 1] is Some ==> decoded[count - 1]->Some_0.0 != decoded[i]->Some_0.0);
    }
}

/// The blocks that are handed out are those before the first that could not be decoded, each as
/// it was decoded; where there is such a one, it is what ended the reading, else whatever ended
/// it before.
pub proof fn decoding_ends_at_the_first_bad_block(
    decoded: Seq<Option<Seq<u8>>>,
    failure: Option<EraError>,
)
    ensures
        ({
            let (blocks, ended) = decoded_blocks(decoded, failure);
            let n = blocks.len() as int;
            &&& n <= decoded.len()
            &&& forall|i: int| 0 <= i < n ==> decoded[i] == Some(#[trigger] blocks[i])
            &&& n < decoded.len() ==> decoded[n] is None && ended == Some(EraError::NotSnappy)
            &&& n == decoded.len() ==> ended == failure
        }),
    decreases decoded.len(),
{
    if decoded.len() > 0 && decoded[0] is Some {
        let rest = decoded.skip(1);
        decoding_ends_at_the_first_bad_block(rest, failure);
        let (blocks, ended) = decoded_blocks(decoded, failure);
        let after = decoded_blocks(rest, failure).0;
        assert forall|i: int| 0 <= i < blocks.len() implies decoded[i] == Some(
            #[trigger] blocks[i],
        ) by {
            if i > 0 {
                assert(blocks[i] == after[i - 1]);
                assert(rest[i - 1] == decoded[i]);
            }
        }
        let n = blocks.len() as int;
        if n < decoded.len() {
            assert(rest[n - 1] == decoded[n]);
        }
    }
}

proof fn lemma_stored_then(before: Seq<u8>, records: Seq<(u16, Seq<u8>)>, after: Seq<u8>)
    requires
        forall|i: int| 0 <= i < records.len() ==> (#[trigger] records[i]).1.len() < 0x1_0000_0000,
    ensures
        ({
            let data = before + records_bytes(records) + after;
            let rest = stored_from(data, (before.len() + records_bytes(records).len()) as int);
            stored_from(data, before.len() as int) == (blocks_in(records) + rest.0, rest.1)
        }),
    decreases records.len(),
{
    let data = before + records_bytes(records) + after;
    let rest = stored_from(data, (before.len() + records_bytes(records).len()) as int);
    if records.len() == 0 {
        assert(blocks_in(records) + rest.0 =~= rest.0);
    } else {
        let tail = records.drop_first();
        let record = record_bytes(records[0].0, records[0].1);
        assert(records_bytes(records) == record + records_bytes(tail));
        assert(data =~= before + record + (records_bytes(tail) + after));
        lemma_record_is_found(before, records[0].0, records[0].1, records_bytes(tail) + after);
        assert forall|i: int| 0 <= i < tail.len() implies (#[trigger] tail[i]).1.len()
            < 0x1_0000_0000 by {
            assert(tail[i] == records[i + 1]);
        }
        lemma_stored_then(before + record, tail, after);
        assert(data =~= before + record + records_bytes(tail) + after);
        assert(seq![records[0].1] + (blocks_in(tail) + rest.0) =~= (seq![records[0].1] + blocks_in(
            tail,
        )) + rest.0);
    }
}

/// Fewer than eight bytes behind the last record are no record: they are passed over.
pub proof fn a_few_bytes_at_the_end_are_passed_over(
    version: Seq<u8>,
    records: Seq<(u16, Seq<u8>)>,
    rest: Seq<u8>,
)
    requires
        version.len() < 0x1_0000_0000,
        forall|i: int| 0 <= i < records.len() ==> (#[trigger] records[i]).1.len() < 0x1_0000_0000,
        rest.len() < 8,
    ensures
        stored_blocks(record_bytes(TYPE_VERSION, version) + records_bytes(records) + rest) == (
            blocks_in(records),
            None::<EraError>,
        ),
{
    let first = record_bytes(TYPE_VERSION, version);
    let data = first + records_bytes(records) + rest;
    lemma_record_is_found(Seq::empty(), TYPE_VERSION, version, records_bytes(records) + rest);
    assert(Seq::empty() + first + (records_bytes(records) + rest) =~= data);
    lemma_stored_then(first, records, rest);
    assert(blocks_in(records) + Seq::<Seq<u8>>::empty() =~= blocks_in(records));
}

proof fn lemma_four_bytes(n: int)
    requires
        0 <= n < 0x1_0000_0000,
    ensures
        n == n % 0x100 + 0x100 * (n / 0x100 % 0x100) + 0x1_0000 * (n / 0x1_0000 % 0x100)
            + 0x100_0000 * (n / 0x100_0000),
        n / 0x100_0000 < 0x100,
{
}

#[verifier::spinoff_prover]
proof fn lemma_record_is_cut(before: Seq<u8>, record_type: u16, content: Seq<u8>, kept: int)
    requires
        content.len() < 0x1_0000_0000,
        8 <= kept < 8 + content.len(),
    ensures
        record_at(
            before + record_bytes(record_type, content).take(kept),
            before.len() as int,
        ) is Truncated,
{
    let whole = record_bytes(record_type, content);
    let data = before + whole.take(kept);
    let pos = before.len() as int;
    let n = content.len() as int;
    lemma_four_bytes(n);
    assert(data[pos + 2] == whole[2] && data[pos + 3] == whole[3]);
    assert(data[pos + 4] == whole[4] && data[pos + 5] == whole[5]);
    assert(le_u32(data, pos + 2) == n);
    assert(data.len() == pos + kept);
}

/// A file that breaks off within a record's data is truncated: the blocks before that record
/// come out, and the reading ends for that reason.
pub proof fn a_file_that_breaks_off_is_truncated(
    version: Seq<u8>,
    records: Seq<(u16, Seq<u8>)>,
    record_type: u16,
    content: Seq<u8>,
    kept: int,
)
    requires
        version.len() < 0x1_0000_0000,
        forall|i: int| 0 <= i < records.len() ==> (#[trigger] records[i]).1.len() < 0x1_0000_0000,
        content.len() < 0x1_0000_0000,
        8 <= kept < 8 + content.len(),
    ensures
        stored_blocks(
            record_bytes(TYPE_VERSION, version) + records_bytes(records) + record_bytes(
                record_type,
                content,
            ).take(kept),
        ) == (blocks_in(records), Some(EraError::TruncatedRecord)),
{
    let first = record_bytes(TYPE_VERSION, version);
    let whole = record_bytes(record_type, content);
    let part = whole.take(kept);
    let data = first + records_bytes(records) + part;
    lemma_record_is_found(Seq::empty(), TYPE_VERSION, version, records_bytes(records) + part);
    assert(Seq::empty() + first + (records_bytes(records) + part) =~= data);
    lemma_stored_then(first, records, part);
    lemma_record_is_cut(first + records_bytes(records), record_type, content, kept);
    assert(blocks_in(records) + Seq::<Seq<u8>>::empty() =~= blocks_in(records));
}

/// A file with fewer than eight bytes has no version.
pub proof fn a_file_without_records_has_no_version(data: Seq<u8>)
    requires
        data.len() < 8,
    ensures
        era_blocks(data) == (Seq::<Seq<u8>>::empty(), Some(EraError::MissingVersion)),
{
}

/// The data of the block records are those of the records with the blocks' type, in their order.
pub proof fn block_records_are_known_by_their_type(records: Seq<(u16, Seq<u8>)>)
    ensures
        blocks_in(records) == records.filter(|record: (u16, Seq<u8>)| record.0 == 1).map_values(
            |record: (u16, Seq<u8>)| record.1,
        ),
    decreases records.len(),
{
    let is_block = |record: (u16, Seq<u8>)| record.0 == 1;
    let content = |record: (u16, Seq<u8>)| record.1;
    if records.len() == 0 {
        reveal(Seq::filter);
        assert(records.filter(is_block).map_values(content) =~= Seq::<Seq<u8>>::empty());
    } else {
        let rest = records.drop_first();
        block_records_are_known_by_their_type(rest);
        assert(records =~= seq![records[0]] + rest);
        Seq::filter_distributes_over_add(seq![records[0]], rest, is_block);
        reveal_with_fuel(Seq::filter, 2);
        assert(seq![records[0]].drop_last() =~= Seq::<(u16, Seq<u8>)>::empty());
        assert(seq![records[0]].last() == records[0]);
        assert(blocks_in(records) =~= records.filter(is_block).map_values(content));
    }
}

/// Byte strings that are held stand for what they are, in their order.
pub proof fn vectors_stand_for_their_bytes(vectors: Seq<Vec<u8>>, optional: Seq<Option<Vec<u8>>>)
    ensures
        contents(vectors).len() == vectors.len(),
        forall|i: int| 0 <= i < vectors.len() ==> #[trigger] contents(vectors)[i] == vectors[i]@,
        optional_contents(optional).len() == optional.len(),
        forall|i: int|
            0 <= i < optional.len() ==> {
                &&& (#[trigger] optional_contents(optional)[i]) is Some <==> optional[i] is Some
                &&& optional[i] is Some ==> optional_contents(optional)[i]->0 == optional[i]->0@
            },
{
}

/// Each block of a file is decoded from what is stored of it, one by one and in their order.
pub proof fn blocks_are_decoded_one_by_one(compressed: Seq<Seq<u8>>, data: Seq<u8>)
    ensures
        all_decoded(compressed).len() == compressed.len(),
        forall|i: int|
            0 <= i < compressed.len() ==> #[trigger] all_decoded(compressed)[i] == snappy_decoded(
                compressed[i],
            ),
        era_blocks(data).0.len() <= stored_blocks(data).0.len(),
        forall|i: int|
            0 <= i < era_blocks(data).0.len() ==> snappy_decoded(stored_blocks(data).0[i]) == Some(
                #[trigger] era_blocks(data).0[i],
            ),
        (forall|i: int|
            0 <= i < stored_blocks(data).0.len() ==> snappy_decoded(
                #[trigger] stored_blocks(data).0[i],
            ) is Some) ==> era_blocks(data).0.len() == stored_blocks(data).0.len() && era_blocks(
            data,
        ).1 == stored_blocks(data).1,
{
    let (stored, failure) = stored_blocks(data);
    let decoded = all_decoded(stored);
    decoding_ends_at_the_first_bad_block(decoded, failure);
    let blocks = era_blocks(data).0;
    assert forall|i: int| 0 <= i < blocks.len() implies snappy_decoded(stored[i]) == Some(
        #[trigger] blocks[i],
    ) by {
        assert(decoded[i] == Some(blocks[i]));
    }
    if blocks.len() < stored.len() {
        assert(decoded[blocks.len() as int] is None);
    }
}

} // verus!
