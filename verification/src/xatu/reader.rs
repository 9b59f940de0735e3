//! The timing data of slots, read a day at a time.
use std::collections::HashMap;
use vstd::prelude::*;

use crate::types::Slot;
use crate::xatu::date::a_day_has_one_date;
use crate::xatu::date::dates_tell_days_apart;
use crate::xatu::date::has_date;
use crate::xatu::date::is_date_of_day;
use crate::xatu::date::slot_day;
use crate::xatu::date::slot_to_date;
use crate::xatu::parquet_file::file_read;
use crate::xatu::parquet_file::parquet_chunks;
use crate::xatu::parquet_file::parse_parquet_file;
use crate::xatu::table::data_view;
use crate::xatu::table::SlotAttestationData;
use crate::xatu::table::SlotDataView;
use crate::xatu::table::XatuError;

verus! {

broadcast use vstd::std_specs::hash::group_hash_axioms;

/// The answer to a request for the data of a slot.
#[derive(Debug)]
pub enum SlotLookup<'a> {
    /// The data of that slot, if there are any.
    Data { data: Option<&'a SlotAttestationData> },
    /// The data of this day must be loaded first.
    Load { date: String },
}

/// What a reader holds: the data of a day's slots, and which day that is.
#[verifier::ext_equal]
pub struct ReaderState {
    pub data: Map<u64, SlotDataView>,
    pub loaded: Option<Seq<char>>,
}

impl ReaderState {
    /// Whether the data of a slot's day are held.
    pub open spec fn holds_day_of(self, slot: Slot) -> bool {
        self.loaded is Some && is_date_of_day(self.loaded->0, slot_day(slot))
    }

    /// The data of a slot.
    pub open spec fn data_of(self, slot: Slot) -> Option<SlotDataView> {
        if self.data.contains_key(slot) {
            Some(self.data[slot])
        } else {
            None
        }
    }

    /// What is held after a day was loaded, given what its file holds, where there is a file, and
    /// why the day could not be loaded, where it could not.
    pub open spec fn after_load(
        self,
        date: Seq<char>,
        file: Option<Result<Map<u64, SlotDataView>, XatuError>>,
    ) -> (ReaderState, Option<XatuError>) {
        match file {
            None => (ReaderState { data: Map::empty(), loaded: Some(date) }, None),
            Some(Ok(data)) => (ReaderState { data, loaded: Some(date) }, None),
            Some(Err(e)) => (self, Some(e)),
        }
    }

    /// Whether the data that are held are those that an archive has for their day.
    pub open spec fn follows(self, archive: spec_fn(Seq<char>) -> Map<u64, SlotDataView>) -> bool {
        self.loaded matches Some(date) ==> self.data == archive(date)
    }
}

/// Hands out the timing data of slots. It holds those of one day.
#[derive(Debug)]
pub struct XatuReader {
    slot_data: HashMap<u64, SlotAttestationData>,
    loaded_date: Option<String>,
}

impl View for XatuReader {
    type V = ReaderState;

    closed spec fn view(&self) -> ReaderState {
        ReaderState {
            data: data_view(self.slot_data@),
            loaded: match self.loaded_date {
                Some(date) => Some(date@),
                None => None,
            },
        }
    }
}

impl XatuReader {
    /// A reader that holds nothing.
    pub fn new() -> (res: XatuReader)
        ensures
            res@ == (ReaderState { data: Map::empty(), loaded: None }),
    {
        let res = XatuReader { slot_data: HashMap::new(), loaded_date: None };
        assert(data_view(res.slot_data@) =~= Map::<u64, SlotDataView>::empty());
        res
    }

    /// The data of a slot, once those of its day were loaded.
    pub fn get_slot_data(&self, slot: Slot) -> (res: SlotLookup<'_>)
        requires
            has_date(slot),
        ensures
            match res {
                SlotLookup::Data { data } => {
                    &&& self@.holds_day_of(slot)
                    &&& data is Some == self@.data_of(slot) is Some
                    &&& data is Some ==> data->0@ == self@.data_of(slot)->0
                },
                SlotLookup::Load { date } => {
                    &&& !self@.holds_day_of(slot)
                    &&& is_date_of_day(date@, slot_day(slot))
                },
            },
    {
        let date = slot_to_date(slot);
        proof {
            if self@.holds_day_of(slot) {
                a_day_has_one_date(self@.loaded->0, date@, slot_day(slot));
            }
        }
        let is_loaded = match &self.loaded_date {
            Some(loaded) => *loaded == date,
            None => false,
        };
        if is_loaded {
            SlotLookup::Data { data: self.slot_data.get(&slot) }
        } else {
            SlotLookup::Load { date }
        }
    }

    /// Takes the data of a day, in place of those of the day before.
    pub fn store_day(&mut self, date: &str, data: HashMap<u64, SlotAttestationData>)
        ensures
            final(self)@ == (ReaderState { data: data_view(data@), loaded: Some(date@) }),
    {
        self.slot_data = data;
        self.loaded_date = Some(date.to_owned());
    }

    /// Loads the data of a day from its file. Where no file can be had the day has no data. A
    /// file that cannot be read changes nothing.
    pub fn load_date(&mut self, date: &str, file: Option<Vec<u8>>) -> (res: Result<(), XatuError>)
        ensures
            match file {
                None => res is Ok && final(self)@ == (ReaderState {
                    data: Map::empty(),
                    loaded: Some(date@),
                }),
                Some(bytes) => match file_read(parquet_chunks(bytes@)) {
                    Ok(data) => res is Ok && final(self)@ == (ReaderState {
                        data,
                        loaded: Some(date@),
                    }),
                    Err(e) => res == Err::<(), XatuError>(e) && final(self)@ == old(self)@,
                },
            },
            ({
                let read = match file {
                    Some(bytes) => Some(file_read(parquet_chunks(bytes@))),
                    None => None,
                };
                let (after, failure) = old(self)@.after_load(date@, read);
                &&& final(self)@ == after
                &&& res is Ok <==> failure is None
                &&& res is Err ==> failure == Some(res->Err_0)
            }),
    {
        match file {
            None => {
                let data: HashMap<u64, SlotAttestationData> = HashMap::new();
                assert(data_view(data@) =~= Map::<u64, SlotDataView>::empty());
                self.store_day(date, data);
                Ok(())
            },
            Some(bytes) => match parse_parquet_file(bytes) {
                Ok(data) => {
                    self.store_day(date, data);
                    Ok(())
                },
                Err(e) => Err(e),
            },
        }
    }
}

/// A reader that is handed an archive's data of the days it asks for answers with what the
/// archive has for the slot's day: this is so of what it holds already, and of what it holds
/// after a load.
pub proof fn answers_are_the_archives(
    state: ReaderState,
    archive: spec_fn(Seq<char>) -> Map<u64, SlotDataView>,
    slot: Slot,
    date: Seq<char>,
)
    requires
        state.follows(archive),
        is_date_of_day(date, slot_day(slot)),
    ensures
        state.holds_day_of(slot) ==> state.data == archive(date),
        ({
            let loaded = ReaderState { data: archive(date), loaded: Some(date) };
            loaded.follows(archive) && loaded.holds_day_of(slot)
        }),
{
    if state.holds_day_of(slot) {
        a_day_has_one_date(state.loaded->0, date, slot_day(slot));
    }
}

/// The data of a day serve all of its slots: no slot of the day that was loaded asks for another
/// load.
pub proof fn a_day_is_loaded_once(state: ReaderState, slot: Slot, other: Slot)
    requires
        state.holds_day_of(slot),
        slot_day(other) == slot_day(slot),
    ensures
        state.holds_day_of(other),
{
}

/// The data of a slot are those that are held for it, if any are.
pub proof fn what_is_held_is_handed_out(state: ReaderState, slot: Slot)
    ensures
        state.data_of(slot) is Some <==> state.data.contains_key(slot),
        state.data.contains_key(slot) ==> state.data_of(slot)->0 == state.data[slot],
{
}

/// A reader holds the day of a slot just where the day that it has loaded is the slot's: after a
/// load of that day it does, and while it holds another day, or none, it does not.
pub proof fn the_day_of_a_slot_is_held_once_loaded(
    state: ReaderState,
    slot: Slot,
    date: Seq<char>,
    day: int,
)
    requires
        is_date_of_day(date, day),
    ensures
        state.loaded == Some(date) ==> (state.holds_day_of(slot) <==> slot_day(slot) == day),
        state.loaded is None ==> !state.holds_day_of(slot),
{
    if state.loaded == Some(date) && state.holds_day_of(slot) {
        dates_tell_days_apart(date, day, slot_day(slot));
    }
}

/// A day is loaded with what its file holds, and with no data where there is no file, in place of
/// the day before; a file that cannot be read changes nothing, and is what is wrong.
pub proof fn a_load_replaces_the_day_or_fails(
    state: ReaderState,
    date: Seq<char>,
    file: Option<Result<Map<u64, SlotDataView>, XatuError>>,
    slot: Slot,
)
    ensures
        ({
            let (after, failure) = state.after_load(date, file);
            &&& failure is Some <==> (file is Some && file->0 is Err)
            &&& failure is Some ==> after == state && file == Some(
                Err::<Map<u64, SlotDataView>, XatuError>(failure->0),
            )
            &&& failure is None ==> after.loaded == Some(date)
            &&& file is None ==> after.data_of(slot) is None
            &&& file is Some && file->0 is Ok ==> {
                &&& after.data_of(slot) is Some <==> file->0->Ok_0.contains_key(slot)
                &&& after.data_of(slot) is Some ==> after.data_of(slot)->0
                    == file->0->Ok_0[slot]
            }
        }),
{
}

} // verus!
