//! What the rows of a timing table say.
//!
//! A table comes in batches of rows. Of a batch four columns are read: `slot` (numbers),
//! `slot_offsets` and `vote_ids` (lists of bytes), and `votes` (lists of records, of which the
//! fields `head_root` and `target_epoch` are read).
use std::collections::HashMap;
use vstd::prelude::*;

use crate::hash256::hex_hash_parsed;
use crate::hash256::parse_hex_hash;
use crate::hash256::Hash256;
use crate::hash256::RootError;

verus! {

broadcast use vstd::std_specs::hash::group_hash_axioms;

/// A vote that attesters of a slot cast.
#[derive(Clone, Copy, Debug)]
pub struct Vote {
    pub head_root: Hash256,
    pub target_epoch: u32,
}

/// When the attestations of a slot were seen, and what they vote for.
#[derive(Debug)]
pub struct SlotAttestationData {
    /// For each committee position, how many slots after its duty slot the attestation was first
    /// seen; 255 where it was not seen.
    pub slot_offsets: Vec<u8>,
    /// For each committee position, the position of its vote in `votes`; 255 where there is
    /// none.
    pub vote_ids: Vec<u8>,
    /// The distinct votes of this slot.
    pub votes: Vec<Vote>,
}

/// What a vote says.
pub struct VoteView {
    pub head_root: Seq<u8>,
    pub target_epoch: u32,
}

/// What the data of a slot say.
#[verifier::ext_equal]
pub struct SlotDataView {
    pub slot_offsets: Seq<u8>,
    pub vote_ids: Seq<u8>,
    pub votes: Seq<VoteView>,
}

impl View for Vote {
    type V = VoteView;

    open spec fn view(&self) -> VoteView {
        VoteView { head_root: self.head_root@, target_epoch: self.target_epoch }
    }
}

/// What votes say.
pub open spec fn votes_view(votes: Seq<Vote>) -> Seq<VoteView> {
    Seq::new(votes.len(), |i: int| votes[i]@)
}

impl Clone for SlotAttestationData {
    fn clone(&self) -> (res: Self)
        ensures
            res@ == self@,
    {
        let res = SlotAttestationData {
            slot_offsets: self.slot_offsets.clone(),
            vote_ids: self.vote_ids.clone(),
            votes: self.votes.clone(),
        };
        assert(res.slot_offsets@ =~= self.slot_offsets@);
        assert(res.vote_ids@ =~= self.vote_ids@);
        assert(res.votes@ =~= self.votes@);
        res
    }
}

impl View for SlotAttestationData {
    type V = SlotDataView;

    open spec fn view(&self) -> SlotDataView {
        SlotDataView {
            slot_offsets: self.slot_offsets@,
            vote_ids: self.vote_ids@,
            votes: votes_view(self.votes@),
        }
    }
}

/// The columns that are read.
#[derive(Clone, Copy, Debug, PartialEq, Eq, Structural)]
pub enum XatuColumn {
    Slot,
    SlotOffsets,
    VoteIds,
    Votes,
}

/// Why the votes of a slot cannot be read.
#[derive(Clone, Copy, Debug, PartialEq, Eq, Structural)]
pub enum VotesError {
    /// The list holds something else than records.
    NotRecords,
    MissingHeadRoot,
    /// The head roots are not texts.
    HeadRootNotText,
    MissingTargetEpoch,
    /// The target epochs are not 32-bit numbers.
    TargetEpochNotU32,
    /// The head root of the vote at this position is no root.
    BadHeadRoot { index: usize, cause: RootError },
}

/// Why a table cannot be read.
#[derive(Clone, Copy, Debug, PartialEq, Eq, Structural)]
pub enum XatuError {
    /// The file is not a Parquet file.
    CannotOpen,
    /// The file's batches cannot be read in the way its schema says.
    CannotBuild,
    /// A batch cannot be read.
    CannotReadBatch,
    MissingColumn { column: XatuColumn },
    /// A column holds other values than it should.
    WrongColumnType { column: XatuColumn },
    /// The offsets of this slot are not bytes.
    BadSlotOffsets { slot: u64 },
    /// The vote positions of this slot are not bytes.
    BadVoteIds { slot: u64 },
    /// The votes of this slot cannot be read.
    BadVotes { slot: u64, cause: VotesError },
}

/// A field of the records of a list.
#[allow(inconsistent_fields)]
#[derive(Debug)]
pub enum FieldValues {
    Texts { values: Vec<String> },
    Numbers { values: Vec<u32> },
    Other,
}

/// The records of a list.
#[derive(Debug)]
pub struct RecordValues {
    pub count: usize,
    pub head_root: Option<FieldValues>,
    pub target_epoch: Option<FieldValues>,
}

/// A list in a column.
#[derive(Debug)]
pub enum CellValues {
    Bytes { values: Vec<u8> },
    Records { records: RecordValues },
    Other,
}

/// A column of a batch.
#[derive(Debug)]
pub enum ColumnValues {
    Numbers { values: Vec<u64> },
    Lists { cells: Vec<CellValues> },
    Other,
}

/// The columns of a batch that are read.
#[derive(Debug)]
pub struct BatchValues {
    pub rows: usize,
    pub slot: Option<ColumnValues>,
    pub slot_offsets: Option<ColumnValues>,
    pub vote_ids: Option<ColumnValues>,
    pub votes: Option<ColumnValues>,
}

/// What a field of records holds.
#[allow(inconsistent_fields)]
pub enum Field {
    Texts { values: Seq<Seq<char>> },
    Numbers { values: Seq<u32> },
    Other,
}

/// What the records of a list hold.
pub struct Records {
    pub count: nat,
    pub head_root: Option<Field>,
    pub target_epoch: Option<Field>,
}

/// What a list in a column holds.
pub enum Cell {
    Bytes { values: Seq<u8> },
    Records { records: Records },
    Other,
}

/// What a column of a batch holds.
pub enum Column {
    Numbers { values: Seq<u64> },
    Lists { cells: Seq<Cell> },
    Other,
}

/// What is read of a batch.
pub struct Batch {
    pub rows: nat,
    pub slot: Option<Column>,
    pub slot_offsets: Option<Column>,
    pub vote_ids: Option<Column>,
    pub votes: Option<Column>,
}

/// The characters of texts.
pub open spec fn texts_view(texts: Seq<String>) -> Seq<Seq<char>> {
    Seq::new(texts.len(), |i: int| texts[i]@)
}

impl View for FieldValues {
    type V = Field;

    open spec fn view(&self) -> Field {
        match self {
            FieldValues::Texts { values } => Field::Texts { values: texts_view(values@) },
            FieldValues::Numbers { values } => Field::Numbers { values: values@ },
            FieldValues::Other => Field::Other,
        }
    }
}

/// What a field holds, if it is there.
pub open spec fn field_view(field: Option<FieldValues>) -> Option<Field> {
    match field {
        Some(values) => Some(values@),
        None => None,
    }
}

impl View for RecordValues {
    type V = Records;

    open spec fn view(&self) -> Records {
        Records {
            count: self.count as nat,
            head_root: field_view(self.head_root),
            target_epoch: field_view(self.target_epoch),
        }
    }
}

impl View for CellValues {
    type V = Cell;

    open spec fn view(&self) -> Cell {
        match self {
            CellValues::Bytes { values } => Cell::Bytes { values: values@ },
            CellValues::Records { records } => Cell::Records { records: records@ },
            CellValues::Other => Cell::Other,
        }
    }
}

/// What the lists of a column hold.
pub open spec fn cells_view(cells: Seq<CellValues>) -> Seq<Cell> {
    Seq::new(cells.len(), |i: int| cells[i]@)
}

impl View for ColumnValues {
    type V = Column;

    open spec fn view(&self) -> Column {
        match self {
            ColumnValues::Numbers { values } => Column::Numbers { values: values@ },
            ColumnValues::Lists { cells } => Column::Lists { cells: cells_view(cells@) },
            ColumnValues::Other => Column::Other,
        }
    }
}

/// What a column holds, if it is there.
pub open spec fn column_view(column: Option<ColumnValues>) -> Option<Column> {
    match column {
        Some(values) => Some(values@),
        None => None,
    }
}

impl View for BatchValues {
    type V = Batch;

    open spec fn view(&self) -> Batch {
        Batch {
            rows: self.rows as nat,
            slot: column_view(self.slot),
            slot_offsets: column_view(self.slot_offsets),
            vote_ids: column_view(self.vote_ids),
            votes: column_view(self.votes),
        }
    }
}

/// A field has a value for each record.
pub open spec fn field_covers(field: Option<Field>, count: nat) -> bool {
    match field {
        Some(Field::Texts { values }) => values.len() == count,
        Some(Field::Numbers { values }) => values.len() == count,
        _ => true,
    }
}

impl Cell {
    /// The fields of records have a value for each record.
    pub open spec fn valid(self) -> bool {
        match self {
            Cell::Records { records } => field_covers(records.head_root, records.count)
                && field_covers(records.target_epoch, records.count),
            _ => true,
        }
    }
}

/// A column has a value for each row.
pub open spec fn column_covers(column: Option<Column>, rows: nat) -> bool {
    match column {
        Some(Column::Numbers { values }) => values.len() == rows,
        Some(Column::Lists { cells }) => cells.len() == rows && forall|i: int|
            0 <= i < cells.len() ==> (#[trigger] cells[i]).valid(),
        _ => true,
    }
}

impl Batch {
    /// Each column has a value for each row.
    pub open spec fn valid(self) -> bool {
        &&& column_covers(self.slot, self.rows)
        &&& column_covers(self.slot_offsets, self.rows)
        &&& column_covers(self.vote_ids, self.rows)
        &&& column_covers(self.votes, self.rows)
    }
}

/// The first `count` votes, by their head roots and target epochs; or what is wrong with the
/// first of these that is no vote.
pub open spec fn votes_read(
    texts: Seq<Seq<char>>,
    epochs: Seq<u32>,
    count: nat,
) -> Result<Seq<VoteView>, VotesError>
    decreases count,
{
    if count == 0 {
        Ok(Seq::empty())
    } else {
        match votes_read(texts, epochs, (count - 1) as nat) {
            Err(e) => Err(e),
            Ok(votes) => match hex_hash_parsed(texts[count - 1]) {
                Err(cause) => Err(VotesError::BadHeadRoot { index: (count - 1) as usize, cause }),
                Ok(head_root) => Ok(
                    votes.push(VoteView { head_root, target_epoch: epochs[count - 1] }),
                ),
            },
        }
    }
}

/// The votes that a list holds. Of an empty list no field is looked at.
pub open spec fn cell_votes(cell: Cell) -> Result<Seq<VoteView>, VotesError> {
    match cell {
        Cell::Records { records } => if records.count == 0 {
            Ok(Seq::empty())
        } else {
            match records.head_root {
                None => Err(VotesError::MissingHeadRoot),
                Some(Field::Texts { values: texts }) => match records.target_epoch {
                    None => Err(VotesError::MissingTargetEpoch),
                    Some(Field::Numbers { values: epochs }) => votes_read(
                        texts,
                        epochs,
                        records.count,
                    ),
                    _ => Err(VotesError::TargetEpochNotU32),
                },
                _ => Err(VotesError::HeadRootNotText),
            }
        },
        _ => Err(VotesError::NotRecords),
    }
}

/// What a row says: its slot, and the data of that slot.
pub open spec fn row_read(slot: u64, slot_offsets: Cell, vote_ids: Cell, votes: Cell) -> Result<
    (u64, SlotDataView),
    XatuError,
> {
    match slot_offsets {
        Cell::Bytes { values: slot_offsets } => match vote_ids {
            Cell::Bytes { values: vote_ids } => match cell_votes(votes) {
                Ok(votes) => Ok((slot, SlotDataView { slot_offsets, vote_ids, votes })),
                Err(cause) => Err(XatuError::BadVotes { slot, cause }),
            },
            _ => Err(XatuError::BadVoteIds { slot }),
        },
        _ => Err(XatuError::BadSlotOffsets { slot }),
    }
}

/// The first `count` rows, or what is wrong with the first of these that cannot be read.
pub open spec fn rows_read(
    slots: Seq<u64>,
    slot_offsets: Seq<Cell>,
    vote_ids: Seq<Cell>,
    votes: Seq<Cell>,
    count: nat,
) -> Result<Seq<(u64, SlotDataView)>, XatuError>
    decreases count,
{
    if count == 0 {
        Ok(Seq::empty())
    } else {
        match rows_read(slots, slot_offsets, vote_ids, votes, (count - 1) as nat) {
            Err(e) => Err(e),
            Ok(rows) => {
                let i = count - 1;
                match row_read(slots[i], slot_offsets[i], vote_ids[i], votes[i]) {
                    Err(e) => Err(e),
                    Ok(row) => Ok(rows.push(row)),
                }
            },
        }
    }
}

/// The first of the columns that is not there.
pub open spec fn missing_column(batch: Batch) -> Option<XatuColumn> {
    if batch.slot is None {
        Some(XatuColumn::Slot)
    } else if batch.slot_offsets is None {
        Some(XatuColumn::SlotOffsets)
    } else if batch.vote_ids is None {
        Some(XatuColumn::VoteIds)
    } else if batch.votes is None {
        Some(XatuColumn::Votes)
    } else {
        None
    }
}

/// The first of the columns that holds other values than it should.
pub open spec fn wrong_column(batch: Batch) -> Option<XatuColumn> {
    if !(batch.slot->0 is Numbers) {
        Some(XatuColumn::Slot)
    } else if !(batch.slot_offsets->0 is Lists) {
        Some(XatuColumn::SlotOffsets)
    } else if !(batch.vote_ids->0 is Lists) {
        Some(XatuColumn::VoteIds)
    } else if !(batch.votes->0 is Lists) {
        Some(XatuColumn::Votes)
    } else {
        None
    }
}

/// The rows of a batch, or why they cannot be read.
pub open spec fn batch_read(batch: Batch) -> Result<Seq<(u64, SlotDataView)>, XatuError> {
    match missing_column(batch) {
        Some(column) => Err(XatuError::MissingColumn { column }),
        None => match wrong_column(batch) {
            Some(column) => Err(XatuError::WrongColumnType { column }),
            None => rows_read(
                batch.slot->0->Numbers_values,
                batch.slot_offsets->0->Lists_cells,
                batch.vote_ids->0->Lists_cells,
                batch.votes->0->Lists_cells,
                batch.rows,
            ),
        },
    }
}

/// Rows by what they say.
pub open spec fn rows_view(rows: Seq<(u64, SlotAttestationData)>) -> Seq<(u64, SlotDataView)> {
    Seq::new(rows.len(), |i: int| (rows[i].0, rows[i].1@))
}

/// The votes that a list holds.
pub fn extract_votes(cell: &CellValues) -> (res: Result<Vec<Vote>, VotesError>)
    requires
        cell@.valid(),
    ensures
        match res {
            Ok(votes) => cell_votes(cell@) == Ok::<Seq<VoteView>, VotesError>(votes_view(votes@)),
            Err(e) => cell_votes(cell@) == Err::<Seq<VoteView>, VotesError>(e),
        },
{
    let records = match cell {
        CellValues::Records { records } => records,
        _ => {
            return Err(VotesError::NotRecords);
        },
    };
    if records.count == 0 {
        let votes: Vec<Vote> = Vec::new();
        assert(votes_view(votes@) =~= Seq::<VoteView>::empty());
        return Ok(votes);
    }
    let texts = match &records.head_root {
        None => {
            return Err(VotesError::MissingHeadRoot);
        },
        Some(FieldValues::Texts { values }) => values,
        _ => {
            return Err(VotesError::HeadRootNotText);
        },
    };
    let epochs = match &records.target_epoch {
        None => {
            return Err(VotesError::MissingTargetEpoch);
        },
        Some(FieldValues::Numbers { values }) => values,
        _ => {
            return Err(VotesError::TargetEpochNotU32);
        },
    };
    let ghost heads = texts_view(texts@);
    let mut votes: Vec<Vote> = Vec::new();
    let mut i: usize = 0;
    assert(votes_view(votes@) =~= Seq::<VoteView>::empty());
    while i < records.count
        invariant
            i <= records.count,
            votes@.len() == i,
            heads == texts_view(texts@),
            texts@.len() == records.count,
            epochs@.len() == records.count,
            votes_read(heads, epochs@, i as nat) == Ok::<Seq<VoteView>, VotesError>(
                votes_view(votes@),
            ),
            cell_votes(cell@) == votes_read(heads, epochs@, records.count as nat),
        decreases records.count - i,
    {
        match parse_hex_hash(texts[i].as_str()) {
            Ok(head_root) => {
                let ghost before = votes_view(votes@);
                votes.push(Vote { head_root, target_epoch: epochs[i] });
                assert(votes_view(votes@) =~= before.push(votes@[i as int]@));
            },
            Err(cause) => {
                proof {
                    lemma_votes_stop(heads, epochs@, (i + 1) as nat, records.count as nat);
                }
                return Err(VotesError::BadHeadRoot { index: i, cause });
            },
        }
        i = i + 1;
    }
    Ok(votes)
}

proof fn lemma_votes_stop(texts: Seq<Seq<char>>, epochs: Seq<u32>, short: nat, count: nat)
    requires
        short <= count,
        votes_read(texts, epochs, short) is Err,
    ensures
        votes_read(texts, epochs, count) == votes_read(texts, epochs, short),
    decreases count,
{
    if short < count {
        lemma_votes_stop(texts, epochs, short, (count - 1) as nat);
    }
}

proof fn lemma_rows_stop(
    slots: Seq<u64>,
    slot_offsets: Seq<Cell>,
    vote_ids: Seq<Cell>,
    votes: Seq<Cell>,
    short: nat,
    count: nat,
)
    requires
        short <= count,
        rows_read(slots, slot_offsets, vote_ids, votes, short) is Err,
    ensures
        rows_read(slots, slot_offsets, vote_ids, votes, count) == rows_read(
            slots,
            slot_offsets,
            vote_ids,
            votes,
            short,
        ),
    decreases count,
{
    if short < count {
        lemma_rows_stop(slots, slot_offsets, vote_ids, votes, short, (count - 1) as nat);
    }
}

/// The bytes of a list.
pub fn extract_u8_list(cell: &CellValues) -> (res: Option<Vec<u8>>)
    ensures
        match res {
            Some(values) => cell@ == (Cell::Bytes { values: values@ }),
            None => !(cell@ is Bytes),
        },
{
    match cell {
        CellValues::Bytes { values } => Some(values.clone()),
        _ => None,
    }
}

/// What a row says: its slot, and the data of that slot.
fn read_row(slot: u64, slot_offsets: &CellValues, vote_ids: &CellValues, votes: &CellValues) -> (res:
    Result<(u64, SlotAttestationData), XatuError>)
    requires
        votes@.valid(),
    ensures
        match res {
            Ok(row) => row_read(slot, slot_offsets@, vote_ids@, votes@) == Ok::<
                (u64, SlotDataView),
                XatuError,
            >((row.0, row.1@)),
            Err(e) => row_read(slot, slot_offsets@, vote_ids@, votes@) == Err::<
                (u64, SlotDataView),
                XatuError,
            >(e),
        },
{
    let slot_offsets = match extract_u8_list(slot_offsets) {
        Some(values) => values,
        None => {
            return Err(XatuError::BadSlotOffsets { slot });
        },
    };
    let vote_ids = match extract_u8_list(vote_ids) {
        Some(values) => values,
        None => {
            return Err(XatuError::BadVoteIds { slot });
        },
    };
    match extract_votes(votes) {
        Ok(votes) => Ok((slot, SlotAttestationData { slot_offsets, vote_ids, votes })),
        Err(cause) => Err(XatuError::BadVotes { slot, cause }),
    }
}

/// The rows of a batch, or why they cannot be read.
pub fn read_batch_rows(batch: &BatchValues) -> (res: Result<
    Vec<(u64, SlotAttestationData)>,
    XatuError,
>)
    requires
        batch@.valid(),
    ensures
        match res {
            Ok(rows) => batch_read(batch@) == Ok::<Seq<(u64, SlotDataView)>, XatuError>(
                rows_view(rows@),
            ),
            Err(e) => batch_read(batch@) == Err::<Seq<(u64, SlotDataView)>, XatuError>(e),
        },
{
    if batch.slot.is_none() {
        return Err(XatuError::MissingColumn { column: XatuColumn::Slot });
    }
    if batch.slot_offsets.is_none() {
        return Err(XatuError::MissingColumn { column: XatuColumn::SlotOffsets });
    }
    if batch.vote_ids.is_none() {
        return Err(XatuError::MissingColumn { column: XatuColumn::VoteIds });
    }
    if batch.votes.is_none() {
        return Err(XatuError::MissingColumn { column: XatuColumn::Votes });
    }
    let slots = match &batch.slot {
        Some(ColumnValues::Numbers { values }) => values,
        _ => {
            return Err(XatuError::WrongColumnType { column: XatuColumn::Slot });
        },
    };
    let slot_offsets = match &batch.slot_offsets {
        Some(ColumnValues::Lists { cells }) => cells,
        _ => {
            return Err(XatuError::WrongColumnType { column: XatuColumn::SlotOffsets });
        },
    };
    let vote_ids = match &batch.vote_ids {
        Some(ColumnValues::Lists { cells }) => cells,
        _ => {
            return Err(XatuError::WrongColumnType { column: XatuColumn::VoteIds });
        },
    };
    let votes = match &batch.votes {
        Some(ColumnValues::Lists { cells }) => cells,
        _ => {
            return Err(XatuError::WrongColumnType { column: XatuColumn::Votes });
        },
    };
    let ghost offsets_view = cells_view(slot_offsets@);
    let ghost ids_view = cells_view(vote_ids@);
    let ghost lists_view = cells_view(votes@);
    let mut rows: Vec<(u64, SlotAttestationData)> = Vec::new();
    let mut i: usize = 0;
    assert(rows_view(rows@) =~= Seq::<(u64, SlotDataView)>::empty());
    while i < batch.rows
        invariant
            i <= batch.rows,
            rows@.len() == i,
            slots@.len() == batch.rows,
            slot_offsets@.len() == batch.rows,
            vote_ids@.len() == batch.rows,
            votes@.len() == batch.rows,
            offsets_view == cells_view(slot_offsets@),
            ids_view == cells_view(vote_ids@),
            lists_view == cells_view(votes@),
            forall|k: int| 0 <= k < lists_view.len() ==> (#[trigger] lists_view[k]).valid(),
            rows_read(slots@, offsets_view, ids_view, lists_view, i as nat) == Ok::<
                Seq<(u64, SlotDataView)>,
                XatuError,
            >(rows_view(rows@)),
            batch_read(batch@) == rows_read(
                slots@,
                offsets_view,
                ids_view,
                lists_view,
                batch.rows as nat,
            ),
        decreases batch.rows - i,
    {
        assert(lists_view[i as int].valid());
        match read_row(slots[i], &slot_offsets[i], &vote_ids[i], &votes[i]) {
            Ok(row) => {
                let ghost before = rows_view(rows@);
                rows.push(row);
                assert(rows_view(rows@) =~= before.push((row.0, row.1@)));
            },
            Err(e) => {
                proof {
                    lemma_rows_stop(
                        slots@,
                        offsets_view,
                        ids_view,
                        lists_view,
                        (i + 1) as nat,
                        batch.rows as nat,
                    );
                }
                return Err(e);
            },
        }
        i = i + 1;
    }
    Ok(rows)
}

/// A map with the first `count` rows put into it, in their order.
pub open spec fn rows_inserted(
    data: Map<u64, SlotDataView>,
    rows: Seq<(u64, SlotDataView)>,
    count: nat,
) -> Map<u64, SlotDataView>
    decreases count,
{
    if count == 0 {
        data
    } else {
        rows_inserted(data, rows, (count - 1) as nat).insert(rows[count - 1].0, rows[count - 1].1)
    }
}

/// The data of each slot, by what they say.
pub open spec fn data_view(data: Map<u64, SlotAttestationData>) -> Map<u64, SlotDataView> {
    Map::new(|slot: u64| data.contains_key(slot), |slot: u64| data[slot]@)
}

/// Puts the rows of a batch into the data, or says why they cannot be read.
pub fn insert_batch(data: &mut HashMap<u64, SlotAttestationData>, batch: &BatchValues) -> (res:
    Result<(), XatuError>)
    requires
        batch@.valid(),
    ensures
        match res {
            Ok(_) => batch_read(batch@) is Ok && data_view(final(data)@) == rows_inserted(
                data_view(old(data)@),
                batch_read(batch@)->Ok_0,
                batch_read(batch@)->Ok_0.len(),
            ),
            Err(e) => batch_read(batch@) == Err::<Seq<(u64, SlotDataView)>, XatuError>(e)
                && final(data)@ == old(data)@,
        },
{
    let rows = match read_batch_rows(batch) {
        Ok(rows) => rows,
        Err(e) => {
            return Err(e);
        },
    };
    let ghost all = rows@;
    let ghost before = data_view(data@);
    for row in it: rows
        invariant
            it.seq() == all,
            data_view(data@) == rows_inserted(before, rows_view(all), it.index() as nat),
    {
        let ghost k = it.index() as int;
        let ghost held = data@;
        let (slot, slot_data) = row;
        data.insert(slot, slot_data);
        assert(data_view(data@) =~= data_view(held).insert(slot, slot_data@));
        assert(rows_view(all)[k] == (slot, slot_data@));
    }
    Ok(())
}

/// Where several rows have the same slot, the last of them counts; a slot that no row has keeps
/// what it had.
pub proof fn last_row_of_a_slot_counts(
    data: Map<u64, SlotDataView>,
    rows: Seq<(u64, SlotDataView)>,
    count: nat,
    slot: u64,
)
    requires
        count <= rows.len(),
    ensures
        ({
            let result = rows_inserted(data, rows, count);
            &&& (forall|i: int| 0 <= i < count ==> (#[trigger] rows[i]).0 != slot) ==> {
                &&& result.contains_key(slot) == data.contains_key(slot)
                &&& data.contains_key(slot) ==> result[slot] == data[slot]
            }
            &&& forall|i: int|
                0 <= i < count && (#[trigger] rows[i]).0 == slot && (forall|j: int|
                    i < j < count ==> (#[trigger] rows[j]).0 != slot) ==> result.contains_key(slot)
                    && result[slot] == rows[i].1
        }),
    decreases count,
{
    if count > 0 {
        last_row_of_a_slot_counts(data, rows, (count - 1) as nat, slot);
    }
}

/// Votes are read one by one: each is made of the root that its text stands for and of the epoch
/// at its position; the first text that is no root is what is wrong, with its position.
pub proof fn votes_are_read_one_by_one(texts: Seq<Seq<char>>, epochs: Seq<u32>, count: nat)
    requires
        count <= texts.len(),
        count <= usize::MAX,
    ensures
        match votes_read(texts, epochs, count) {
            Ok(votes) => {
                &&& votes.len() == count
                &&& forall|i: int|
                    0 <= i < count ==> {
                        &&& hex_hash_parsed(texts[i]) == Ok::<Seq<u8>, RootError>(
                            (#[trigger] votes[i]).head_root,
                        )
                        &&& votes[i].target_epoch == epochs[i]
                    }
            },
            Err(VotesError::BadHeadRoot { index, cause }) => {
                &&& index < count
                &&& hex_hash_parsed(texts[index as int]) == Err::<Seq<u8>, RootError>(cause)
                &&& forall|i: int|
                    0 <= i < index ==> hex_hash_parsed(#[trigger] texts[i]) is Ok
            },
            Err(_) => false,
        },
    decreases count,
{
    if count > 0 {
        votes_are_read_one_by_one(texts, epochs, (count - 1) as nat);
        if let Ok(votes) = votes_read(texts, epochs, (count - 1) as nat) {
            assert forall|i: int| 0 <= i < count - 1 implies hex_hash_parsed(
                #[trigger] texts[i],
            ) is Ok by {
                assert(hex_hash_parsed(texts[i]) == Ok::<Seq<u8>, RootError>(votes[i].head_root));
            }
        }
    }
}

/// A list can be read as votes just where it is a list of records that is empty, or whose head
/// roots are texts, each a root, and whose target epochs are numbers. What is wrong with another
/// is looked for in this order: the list, the head roots, the target epochs, the roots.
pub proof fn which_lists_are_votes(cell: Cell)
    requires
        cell.valid(),
        cell matches Cell::Records { records } ==> records.count <= usize::MAX,
    ensures
        cell_votes(cell) is Ok <==> (cell is Records && {
            let records = cell->records;
            records.count == 0 || {
                &&& records.head_root matches Some(Field::Texts { values }) && forall|i: int|
                    0 <= i < values.len() ==> hex_hash_parsed(#[trigger] values[i]) is Ok
                &&& records.target_epoch matches Some(Field::Numbers { .. })
            }
        }),
        cell_votes(cell) matches Ok(votes) ==> {
            let records = cell->records;
            &&& votes.len() == records.count
            &&& forall|i: int|
                0 <= i < votes.len() ==> {
                    &&& hex_hash_parsed(records.head_root->0->Texts_values[i]) == Ok::<
                        Seq<u8>,
                        RootError,
                    >((#[trigger] votes[i]).head_root)
                    &&& votes[i].target_epoch == records.target_epoch->0->Numbers_values[i]
                }
        },
        cell_votes(cell) == Err::<Seq<VoteView>, VotesError>(VotesError::NotRecords) <==> cell
            !is Records,
        cell matches Cell::Records { records } ==> {
            &&& cell_votes(cell) == Err::<Seq<VoteView>, VotesError>(VotesError::MissingHeadRoot)
                <==> records.count > 0 && records.head_root is None
            &&& cell_votes(cell) == Err::<Seq<VoteView>, VotesError>(VotesError::HeadRootNotText)
                <==> records.count > 0 && records.head_root is Some
                && records.head_root->0 !is Texts
            &&& cell_votes(cell) == Err::<Seq<VoteView>, VotesError>(VotesError::MissingTargetEpoch)
                <==> records.count > 0 && records.head_root is Some && records.head_root->0 is Texts
                && records.target_epoch is None
            &&& cell_votes(cell) == Err::<Seq<VoteView>, VotesError>(VotesError::TargetEpochNotU32)
                <==> records.count > 0 && records.head_root is Some && records.head_root->0 is Texts
                && records.target_epoch is Some && records.target_epoch->0 !is Numbers
        },
{
    match cell {
        Cell::Records { records } => match (records.head_root, records.target_epoch) {
            (Some(Field::Texts { values }), Some(Field::Numbers { values: epochs })) => {
                votes_are_read_one_by_one(values, epochs, records.count);
                if records.count > 0 {
                    let votes = cell_votes(cell);
                    if votes is Ok {
                        assert forall|i: int| 0 <= i < values.len() implies hex_hash_parsed(
                            #[trigger] values[i],
                        ) is Ok by {
                            assert(votes->Ok_0[i].target_epoch == epochs[i]);
                        }
                    }
                }
            },
            _ => {},
        },
        _ => {},
    }
}

/// A row is read just where its two lists of bytes are such and its votes can be read; it then says
/// these, for its slot. What is wrong with another is said of its slot, the offsets before the
/// positions of the votes, and these before the votes.
pub proof fn a_row_says_what_its_lists_hold(
    slot: u64,
    slot_offsets: Cell,
    vote_ids: Cell,
    votes: Cell,
)
    ensures
        ({
            let row = row_read(slot, slot_offsets, vote_ids, votes);
            &&& row is Ok <==> slot_offsets is Bytes && vote_ids is Bytes && cell_votes(votes) is Ok
            &&& row matches Ok((of, data)) ==> {
                &&& of == slot
                &&& slot_offsets == (Cell::Bytes { values: data.slot_offsets })
                &&& vote_ids == (Cell::Bytes { values: data.vote_ids })
                &&& cell_votes(votes) == Ok::<Seq<VoteView>, VotesError>(data.votes)
            }
            &&& slot_offsets !is Bytes <==> row == Err::<(u64, SlotDataView), XatuError>(
                XatuError::BadSlotOffsets { slot },
            )
            &&& slot_offsets is Bytes && vote_ids !is Bytes <==> row == Err::<
                (u64, SlotDataView),
                XatuError,
            >(XatuError::BadVoteIds { slot })
            &&& slot_offsets is Bytes && vote_ids is Bytes && cell_votes(votes) is Err ==> row
                == Err::<(u64, SlotDataView), XatuError>(
                XatuError::BadVotes { slot, cause: cell_votes(votes)->Err_0 },
            )
        }),
{
}

/// Rows are read one by one, in their order: all of them, or up to the first that cannot be read,
/// which is what is wrong.
pub proof fn rows_are_read_one_by_one(
    slots: Seq<u64>,
    slot_offsets: Seq<Cell>,
    vote_ids: Seq<Cell>,
    votes: Seq<Cell>,
    count: nat,
)
    ensures
        match rows_read(slots, slot_offsets, vote_ids, votes, count) {
            Ok(rows) => {
                &&& rows.len() == count
                &&& forall|i: int|
                    0 <= i < count ==> row_read(slots[i], slot_offsets[i], vote_ids[i], votes[i])
                        == Ok::<(u64, SlotDataView), XatuError>(#[trigger] rows[i])
            },
            Err(e) => exists|i: int|
                0 <= i < count && is_first_bad_row(slots, slot_offsets, vote_ids, votes, i)
                    && #[trigger] row_read(slots[i], slot_offsets[i], vote_ids[i], votes[i])
                    == Err::<(u64, SlotDataView), XatuError>(e),
        },
    decreases count,
{
    if count > 0 {
        let before = (count - 1) as nat;
        rows_are_read_one_by_one(slots, slot_offsets, vote_ids, votes, before);
        let i = count - 1;
        let row = row_read(slots[i], slot_offsets[i], vote_ids[i], votes[i]);
        match rows_read(slots, slot_offsets, vote_ids, votes, before) {
            Ok(rows) => {
                if row is Err {
                    assert forall|j: int| 0 <= j < i implies #[trigger] row_read(
                        slots[j],
                        slot_offsets[j],
                        vote_ids[j],
                        votes[j],
                    ) is Ok by {
                        assert(row_read(slots[j], slot_offsets[j], vote_ids[j], votes[j]) == Ok::<
                            (u64, SlotDataView),
                            XatuError,
                        >(rows[j]));
                    }
                    assert(is_first_bad_row(slots, slot_offsets, vote_ids, votes, i));
                }
            },
            Err(e) => {},
        }
    }
}

/// Whether a row is the first that cannot be read.
pub open spec fn is_first_bad_row(
    slots: Seq<u64>,
    slot_offsets: Seq<Cell>,
    vote_ids: Seq<Cell>,
    votes: Seq<Cell>,
    i: int,
) -> bool {
    &&& row_read(slots[i], slot_offsets[i], vote_ids[i], votes[i]) is Err
    &&& forall|j: int|
        0 <= j < i ==> #[trigger] row_read(
            slots[j],
            slot_offsets[j],
            vote_ids[j],
            votes[j],
        ) is Ok
}

/// A batch has its rows just where its four columns are there, numbers and three times lists, and
/// each row can be read. What is wrong with another is said of the first column that is not
/// there, and only where all are there of the first that holds something else.
pub proof fn which_batches_have_rows(batch: Batch)
    ensures
        batch_read(batch) matches Err(XatuError::MissingColumn { column }) ==> {
            match column {
                XatuColumn::Slot => batch.slot is None,
                XatuColumn::SlotOffsets => batch.slot is Some && batch.slot_offsets is None,
                XatuColumn::VoteIds => batch.slot is Some && batch.slot_offsets is Some
                    && batch.vote_ids is None,
                XatuColumn::Votes => batch.slot is Some && batch.slot_offsets is Some
                    && batch.vote_ids is Some && batch.votes is None,
            }
        },
        batch.slot is None || batch.slot_offsets is None || batch.vote_ids is None
            || batch.votes is None ==> (batch_read(batch) matches Err(
            XatuError::MissingColumn { .. },
        )),
        batch.slot is Some && batch.slot_offsets is Some && batch.vote_ids is Some
            && batch.votes is Some ==> {
            let slot = batch.slot->0;
            let slot_offsets = batch.slot_offsets->0;
            let vote_ids = batch.vote_ids->0;
            let votes = batch.votes->0;
            let read = batch_read(batch);
            &&& slot !is Numbers ==> read == Err::<Seq<(u64, SlotDataView)>, XatuError>(
                XatuError::WrongColumnType { column: XatuColumn::Slot },
            )
            &&& slot is Numbers && slot_offsets !is Lists ==> read == Err::<
                Seq<(u64, SlotDataView)>,
                XatuError,
            >(XatuError::WrongColumnType { column: XatuColumn::SlotOffsets })
            &&& slot is Numbers && slot_offsets is Lists && vote_ids !is Lists ==> read == Err::<
                Seq<(u64, SlotDataView)>,
                XatuError,
            >(XatuError::WrongColumnType { column: XatuColumn::VoteIds })
            &&& slot is Numbers && slot_offsets is Lists && vote_ids is Lists && votes !is Lists
                ==> read == Err::<Seq<(u64, SlotDataView)>, XatuError>(
                XatuError::WrongColumnType { column: XatuColumn::Votes },
            )
            &&& slot is Numbers && slot_offsets is Lists && vote_ids is Lists && votes is Lists ==> (
            match read {
                Ok(rows) => {
                    &&& rows.len() == batch.rows
                    &&& forall|i: int|
                        0 <= i < rows.len() ==> row_read(
                            slot->Numbers_values[i],
                            slot_offsets->cells[i],
                            vote_ids->cells[i],
                            votes->cells[i],
                        ) == Ok::<(u64, SlotDataView), XatuError>(#[trigger] rows[i])
                },
                Err(e) => exists|i: int|
                    0 <= i < batch.rows && #[trigger] row_read(
                        slot->Numbers_values[i],
                        slot_offsets->cells[i],
                        vote_ids->cells[i],
                        votes->cells[i],
                    ) == Err::<(u64, SlotDataView), XatuError>(e),
            })
        },
{
    if batch.slot is Some && batch.slot_offsets is Some && batch.vote_ids is Some
        && batch.votes is Some && batch.slot->0 is Numbers && batch.slot_offsets->0 is Lists
        && batch.vote_ids->0 is Lists && batch.votes->0 is Lists {
        rows_are_read_one_by_one(
            batch.slot->0->Numbers_values,
            batch.slot_offsets->0->cells,
            batch.vote_ids->0->cells,
            batch.votes->0->cells,
            batch.rows,
        );
    } else {
        assert(missing_column(batch) is Some || wrong_column(batch) is Some);
    }
}

/// Data that are held stand for what they say: votes, offsets and positions as they are, and each
/// slot's data for that slot.
pub proof fn data_stand_for_what_they_say(
    vote: Vote,
    slot_data: SlotAttestationData,
    data: Map<u64, SlotAttestationData>,
    slot: u64,
)
    ensures
        vote@.head_root == vote.head_root@,
        vote@.target_epoch == vote.target_epoch,
        slot_data@.slot_offsets == slot_data.slot_offsets@,
        slot_data@.vote_ids == slot_data.vote_ids@,
        slot_data@.votes.len() == slot_data.votes@.len(),
        forall|i: int|
            0 <= i < slot_data.votes@.len() ==> #[trigger] slot_data@.votes[i]
                == slot_data.votes@[i]@,
        data_view(data).contains_key(slot) <==> data.contains_key(slot),
        data.contains_key(slot) ==> data_view(data)[slot] == data[slot]@,
{
}

/// What is read of a batch stands for what it says.
pub proof fn batches_stand_for_what_they_say(
    batch: BatchValues,
    column: ColumnValues,
    cell: CellValues,
    field: FieldValues,
)
    ensures
        batch@.rows == batch.rows,
        batch@.slot == column_view(batch.slot),
        batch@.slot_offsets == column_view(batch.slot_offsets),
        batch@.vote_ids == column_view(batch.vote_ids),
        batch@.votes == column_view(batch.votes),
        column_view(Some(column)) == Some(column@),
        column_view(None) is None,
        match column {
            ColumnValues::Numbers { values } => column@ == (Column::Numbers { values: values@ }),
            ColumnValues::Lists { cells } => column@ is Lists && column@->cells.len() == cells@.len()
                && forall|i: int|
                0 <= i < cells@.len() ==> #[trigger] column@->cells[i] == cells@[i]@,
            ColumnValues::Other => column@ is Other,
        },
        match cell {
            CellValues::Bytes { values } => cell@ == (Cell::Bytes { values: values@ }),
            CellValues::Records { records } => cell@ is Records && cell@->records.count
                == records.count && cell@->records.head_root == field_view(records.head_root)
                && cell@->records.target_epoch == field_view(records.target_epoch),
            CellValues::Other => cell@ is Other,
        },
        field_view(Some(field)) == Some(field@),
        field_view(None) is None,
        match field {
            FieldValues::Texts { values } => field@ is Texts && field@->Texts_values.len()
                == values@.len() && forall|i: int|
                0 <= i < values@.len() ==> #[trigger] field@->Texts_values[i] == values@[i]@,
            FieldValues::Numbers { values } => field@ == (Field::Numbers { values: values@ }),
            FieldValues::Other => field@ is Other,
        },
{
}

} // verus!
