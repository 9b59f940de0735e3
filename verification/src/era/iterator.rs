//! Blocks in the order of their slots, one ERA file at a time, with a look at what follows.
use std::collections::HashMap;
use vstd::prelude::*;

use crate::era::reader::era_number_for_slot;
use crate::era::reader::era_of;
use crate::types::Slot;

verus! {

broadcast use vstd::std_specs::hash::group_hash_axioms;

/// The answer to a request for the block at a slot.
#[derive(Debug)]
pub enum Lookup<'a, B> {
    /// The block at that slot, if there is one.
    Block { block: Option<&'a B> },
    /// The blocks of this ERA must be loaded first.
    Load { era: u64 },
}

/// What an iterator holds: an ERA's blocks by their slots, and those of one that was looked at
/// ahead.
#[verifier::ext_equal]
pub struct IteratorState<B> {
    pub current_era: Option<u64>,
    pub current_blocks: Map<u64, B>,
    pub next_era: Option<u64>,
    pub next_blocks: Map<u64, B>,
}

impl<B> IteratorState<B> {
    /// Nothing is held.
    pub open spec fn empty() -> IteratorState<B> {
        IteratorState {
            current_era: None,
            current_blocks: Map::empty(),
            next_era: None,
            next_blocks: Map::empty(),
        }
    }

    /// An ERA's blocks are there only where it is known which ERA's they are.
    pub open spec fn valid(self) -> bool {
        &&& self.current_era is None ==> self.current_blocks == Map::<u64, B>::empty()
        &&& self.next_era is None ==> self.next_blocks == Map::<u64, B>::empty()
    }

    /// The state in which the ERA that was looked at ahead is the current one.
    pub open spec fn promoted(self) -> IteratorState<B> {
        IteratorState {
            current_era: self.next_era,
            current_blocks: self.next_blocks,
            next_era: None,
            next_blocks: Map::empty(),
        }
    }

    /// The state in which an ERA is the current one, where that takes no loading.
    pub open spec fn with_current(self, era: int) -> IteratorState<B> {
        if self.current_era != Some(era as u64) && self.next_era == Some(era as u64) {
            self.promoted()
        } else {
            self
        }
    }

    /// The blocks that are held of an ERA, if any are.
    pub open spec fn held(self, era: int) -> Option<Map<u64, B>> {
        if self.current_era == Some(era as u64) {
            Some(self.current_blocks)
        } else if self.next_era == Some(era as u64) {
            Some(self.next_blocks)
        } else {
            None
        }
    }

    /// The state after an ERA's blocks were loaded to be the current ones.
    pub open spec fn current_loaded(self, era: u64, blocks: Map<u64, B>) -> IteratorState<B> {
        IteratorState { current_era: Some(era), current_blocks: blocks, ..self }
    }

    /// The state after an ERA's blocks were loaded to be looked at ahead.
    pub open spec fn next_loaded(self, era: u64, blocks: Map<u64, B>) -> IteratorState<B> {
        IteratorState { next_era: Some(era), next_blocks: blocks, ..self }
    }

    /// Whether the blocks that are held are those that an archive has for their ERA.
    pub open spec fn follows(self, archive: spec_fn(u64) -> Map<u64, B>) -> bool {
        &&& self.current_era matches Some(era) ==> self.current_blocks == archive(era)
        &&& self.next_era matches Some(era) ==> self.next_blocks == archive(era)
    }
}

/// The block that a map has at a slot.
pub open spec fn block_in<B>(blocks: Map<u64, B>, slot: Slot) -> Option<B> {
    if blocks.contains_key(slot) {
        Some(blocks[slot])
    } else {
        None
    }
}

/// Whether `block` is what was found.
pub open spec fn is_block<B>(block: Option<&B>, found: Option<B>) -> bool {
    match (block, found) {
        (Some(b), Some(f)) => *b == f,
        (None, None) => true,
        _ => false,
    }
}

/// Hands out the blocks of ERA files by their slots. It holds the blocks of two ERAs: the
/// current one, and one that was looked at ahead.
#[derive(Debug)]
pub struct EraBlockIterator<B> {
    current_blocks: HashMap<u64, B>,
    current_era: Option<u64>,
    next_blocks: HashMap<u64, B>,
    next_era: Option<u64>,
}

impl<B> View for EraBlockIterator<B> {
    type V = IteratorState<B>;

    closed spec fn view(&self) -> IteratorState<B> {
        IteratorState {
            current_era: self.current_era,
            current_blocks: self.current_blocks@,
            next_era: self.next_era,
            next_blocks: self.next_blocks@,
        }
    }
}

impl<B> EraBlockIterator<B> {
    /// An iterator that holds nothing.
    pub fn new() -> (res: EraBlockIterator<B>)
        ensures
            res@ == IteratorState::<B>::empty(),
            res@.valid(),
    {
        EraBlockIterator {
            current_blocks: HashMap::new(),
            current_era: None,
            next_blocks: HashMap::new(),
            next_era: None,
        }
    }

    /// Makes the ERA of a slot the current one, if it is held; else returns which ERA to load.
    pub fn ensure_loaded(&mut self, slot: Slot) -> (res: Option<u64>)
        ensures
            final(self)@ == old(self)@.with_current(era_of(slot)),
            old(self)@.valid() ==> final(self)@.valid(),
            match res {
                Some(era) => era == era_of(slot) && final(self)@.current_era != Some(era),
                None => final(self)@.current_era == Some(era_of(slot) as u64),
            },
    {
        let era: u64 = era_number_for_slot(slot);
        if self.current_era == Some(era) {
            return None;
        }
        if self.next_era == Some(era) {
            let mut blocks: HashMap<u64, B> = HashMap::new();
            std::mem::swap(&mut blocks, &mut self.next_blocks);
            self.current_blocks = blocks;
            self.current_era = self.next_era.take();
            return None;
        }
        Some(era)
    }

    /// Takes the blocks of an ERA as the current ones.
    pub fn load_current(&mut self, era: u64, blocks: HashMap<u64, B>)
        ensures
            final(self)@ == old(self)@.current_loaded(era, blocks@),
            old(self)@.valid() ==> final(self)@.valid(),
    {
        self.current_blocks = blocks;
        self.current_era = Some(era);
    }

    /// Which ERA to load to look ahead at a slot, if it is not held yet.
    pub fn ensure_next_loaded(&self, slot: Slot) -> (res: Option<u64>)
        ensures
            match res {
                Some(era) => era == era_of(slot) && self@.current_era != Some(era)
                    && self@.next_era != Some(era),
                None => self@.current_era == Some(era_of(slot) as u64) || self@.next_era == Some(
                    era_of(slot) as u64,
                ),
            },
    {
        let era: u64 = era_number_for_slot(slot);
        if self.current_era == Some(era) || self.next_era == Some(era) {
            None
        } else {
            Some(era)
        }
    }

    /// Takes the blocks of an ERA as those that are looked at ahead.
    pub fn load_next(&mut self, era: u64, blocks: HashMap<u64, B>)
        ensures
            final(self)@ == old(self)@.next_loaded(era, blocks@),
            old(self)@.valid() ==> final(self)@.valid(),
    {
        self.next_blocks = blocks;
        self.next_era = Some(era);
    }

    /// The block at a slot, if there is one. The slot's ERA becomes the current one.
    pub fn block_at_slot(&mut self, slot: Slot) -> (res: Lookup<'_, B>)
        ensures
            final(self)@ == old(self)@.with_current(era_of(slot)),
            match res {
                Lookup::Block { block } => {
                    let state = old(self)@.with_current(era_of(slot));
                    &&& state.current_era == Some(era_of(slot) as u64)
                    &&& is_block(block, block_in(state.current_blocks, slot))
                    &&& old(self)@.held(era_of(slot)) is Some
                    &&& is_block(block, block_in(old(self)@.held(era_of(slot))->0, slot))
                },
                Lookup::Load { era } => era == era_of(slot) && old(self)@.current_era != Some(era)
                    && old(self)@.next_era != Some(era) && old(self)@.held(era_of(slot)) is None,
            },
    {
        match self.ensure_loaded(slot) {
            Some(era) => Lookup::Load { era },
            None => Lookup::Block { block: self.current_blocks.get(&slot) },
        }
    }

    /// The block at a slot, if there is one. The current ERA stays the current one.
    pub fn peek_next_block(&self, slot: Slot) -> (res: Lookup<'_, B>)
        ensures
            match res {
                Lookup::Block { block } => {
                    let blocks = if self@.current_era == Some(era_of(slot) as u64) {
                        self@.current_blocks
                    } else {
                        self@.next_blocks
                    };
                    &&& self@.current_era == Some(era_of(slot) as u64) || self@.next_era == Some(
                        era_of(slot) as u64,
                    )
                    &&& is_block(block, block_in(blocks, slot))
                    &&& self@.held(era_of(slot)) is Some
                    &&& is_block(block, block_in(self@.held(era_of(slot))->0, slot))
                },
                Lookup::Load { era } => era == era_of(slot) && self@.current_era != Some(era)
                    && self@.next_era != Some(era) && self@.held(era_of(slot)) is None,
            },
    {
        let era: u64 = era_number_for_slot(slot);
        if self.current_era == Some(era) {
            return Lookup::Block { block: self.current_blocks.get(&slot) };
        }
        match self.ensure_next_loaded(slot) {
            Some(missing) => Lookup::Load { era: missing },
            None => Lookup::Block { block: self.next_blocks.get(&slot) },
        }
    }
}

/// An iterator that is handed an archive's blocks holds nothing else, whatever it is asked: this
/// is so at the start, and each operation keeps it.
pub proof fn iterator_follows_its_archive<B>(
    state: IteratorState<B>,
    archive: spec_fn(u64) -> Map<u64, B>,
    era: u64,
)
    requires
        state.follows(archive),
    ensures
        IteratorState::<B>::empty().follows(archive),
        state.with_current(era as int).follows(archive),
        state.current_loaded(era, archive(era)).follows(archive),
        state.next_loaded(era, archive(era)).follows(archive),
{
}

/// A block that is asked for by its slot is the one that the archive has there, once the slot's
/// ERA was loaded where it had to be.
pub proof fn block_is_the_archives<B>(
    state: IteratorState<B>,
    archive: spec_fn(u64) -> Map<u64, B>,
    slot: Slot,
)
    requires
        state.follows(archive),
    ensures
        ({
            let era = era_of(slot) as u64;
            let ready = if state.current_era == Some(era) || state.next_era == Some(era) {
                state.with_current(era as int)
            } else {
                state.current_loaded(era, archive(era))
            };
            &&& ready.current_era == Some(era)
            &&& block_in(ready.current_blocks, slot) == block_in(archive(era), slot)
            &&& block_in(ready.current_blocks, slot) is Some <==> archive(era).contains_key(slot)
            &&& archive(era).contains_key(slot) ==> block_in(ready.current_blocks, slot) == Some(
                archive(era)[slot],
            )
        }),
{
}

/// A look ahead finds the block that the archive has, and leaves the current ERA as it is.
pub proof fn look_ahead_keeps_the_current_era<B>(
    state: IteratorState<B>,
    archive: spec_fn(u64) -> Map<u64, B>,
    slot: Slot,
)
    requires
        state.follows(archive),
        state.current_era != Some(era_of(slot) as u64),
    ensures
        ({
            let era = era_of(slot) as u64;
            let ready = if state.next_era == Some(era) {
                state
            } else {
                state.next_loaded(era, archive(era))
            };
            &&& ready.next_era == Some(era)
            &&& block_in(ready.next_blocks, slot) == block_in(archive(era), slot)
            &&& block_in(ready.next_blocks, slot) is Some <==> archive(era).contains_key(slot)
            &&& archive(era).contains_key(slot) ==> block_in(ready.next_blocks, slot) == Some(
                archive(era)[slot],
            )
            &&& ready.current_era == state.current_era
            &&& ready.current_blocks == state.current_blocks
        }),
{
}

/// An ERA that was looked at ahead becomes the current one without being loaded again.
pub proof fn looked_at_era_is_not_loaded_again<B>(
    state: IteratorState<B>,
    era: u64,
    blocks: Map<u64, B>,
)
    requires
        state.current_era != Some(era),
    ensures
        state.next_loaded(era, blocks).with_current(era as int).current_era == Some(era),
        state.next_loaded(era, blocks).with_current(era as int).current_blocks == blocks,
        state.next_loaded(era, blocks).with_current(era as int).next_era is None,
{
}

/// What was looked at ahead stays there when another ERA is loaded to be the current one, and an
/// ERA that is held already, or that neither of the two is, changes nothing.
pub proof fn what_is_held_stays<B>(state: IteratorState<B>, era: u64, blocks: Map<u64, B>)
    ensures
        state.current_loaded(era, blocks).next_era == state.next_era,
        state.current_loaded(era, blocks).next_blocks == state.next_blocks,
        state.current_loaded(era, blocks).current_era == Some(era),
        state.current_loaded(era, blocks).current_blocks == blocks,
        state.current_era == Some(era) ==> state.with_current(era as int) == state,
        state.next_era != Some(era) ==> state.with_current(era as int) == state,
{
}

/// A block that was found is the one that is held for its slot, and nothing else stands for it.
pub proof fn a_found_block_is_handed_out<B>(block: Option<&B>, found: Option<B>)
    ensures
        is_block(block, found) ==> (block is Some <==> found is Some),
        is_block(block, found) && found is Some ==> *(block->0) == found->0,
{
}

/// An ERA is held just where it is the current one or the one that was looked at ahead, and its
/// blocks are then those that an archive has for it. So a block that is found for a slot is the
/// archive's, and a slot whose ERA is held is never asked to be loaded.
pub proof fn held_blocks_are_the_archives<B>(
    state: IteratorState<B>,
    archive: spec_fn(u64) -> Map<u64, B>,
    slot: Slot,
    block: Option<&B>,
)
    requires
        state.follows(archive),
    ensures
        ({
            let era = era_of(slot) as u64;
            &&& state.held(era as int) is Some <==> state.current_era == Some(era)
                || state.next_era == Some(era)
            &&& state.held(era as int) matches Some(blocks) ==> {
                &&& blocks == archive(era)
                &&& is_block(block, block_in(blocks, slot)) ==> {
                    &&& block is Some <==> archive(era).contains_key(slot)
                    &&& block is Some ==> *(block->0) == archive(era)[slot]
                }
            }
            &&& state.current_loaded(era, archive(era)).held(era as int) == Some(archive(era))
            &&& state.current_era != Some(era) ==> state.next_loaded(era, archive(era)).held(
                era as int,
            ) == Some(archive(era))
        }),
{
}

} // verus!
