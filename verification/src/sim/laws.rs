//! What holds of every run of the engine, whatever the replies.
use vstd::prelude::*;

use crate::hash256::Hash256;
use crate::http::plan::PlanBlockImport;
use crate::http::plan::PlanEntry;
use crate::output::writer::FLUSH_INTERVAL;
use crate::sim::engine::canonical_root;
use crate::sim::engine::first_slot;
use crate::sim::engine::injected_count;
use crate::sim::engine::plan_is_complete;
use crate::sim::engine::selected;
use crate::sim::engine::within;
use crate::sim::engine::Ask;
use crate::sim::engine::BlockSummary;
use crate::sim::engine::EngineConfig;
use crate::sim::engine::EngineState;
use crate::sim::engine::Event;
use crate::sim::engine::Phase;
use crate::types::Slot;

verus! {

/// The state in which a new engine is.
pub open spec fn initial(config: EngineConfig, plan: Map<u64, PlanEntry>) -> EngineState {
    EngineState {
        config,
        plan,
        cache: Map::empty(),
        slot: first_slot(config),
        total_recorded: 0,
        phase: Phase::Starting,
    }
}

/// The state after a series of replies.
pub open spec fn ran(start: EngineState, events: Seq<Event>) -> EngineState
    decreases events.len(),
{
    if events.len() == 0 {
        start
    } else {
        ran(start, events.drop_last()).next(events.last()).0
    }
}

/// What is asked for, step by step, over a series of replies.
pub open spec fn asks(start: EngineState, events: Seq<Event>) -> Seq<Ask>
    decreases events.len(),
{
    if events.len() == 0 {
        Seq::empty()
    } else {
        asks(start, events.drop_last()).push(
            ran(start, events.drop_last()).next(events.last()).1,
        )
    }
}

/// The slots of the records that are written.
pub open spec fn written_slots(asked: Seq<Ask>) -> Seq<Slot>
    decreases asked.len(),
{
    if asked.len() == 0 {
        Seq::empty()
    } else {
        match asked.last() {
            Ask::WriteResult { record, .. } => written_slots(asked.drop_last()).push(record.slot),
            _ => written_slots(asked.drop_last()),
        }
    }
}

/// The slots to which the chain's clock is set.
pub open spec fn clock_slots(asked: Seq<Ask>) -> Seq<Slot>
    decreases asked.len(),
{
    if asked.len() == 0 {
        Seq::empty()
    } else {
        match asked.last() {
            Ask::SetClock { slot } => clock_slots(asked.drop_last()).push(slot),
            _ => clock_slots(asked.drop_last()),
        }
    }
}

/// The slots whose block is fetched.
pub open spec fn fetched_slots(asked: Seq<Ask>) -> Seq<Slot>
    decreases asked.len(),
{
    if asked.len() == 0 {
        Seq::empty()
    } else {
        match asked.last() {
            Ask::FetchBlockAtSlot { slot } => fetched_slots(asked.drop_last()).push(slot),
            _ => fetched_slots(asked.drop_last()),
        }
    }
}

proof fn lemma_ask_source(state: EngineState, index: int, injected: u64)
    requires
        0 <= index,
    ensures
        ({
            let (next, ask) = state.ask_source(index, injected);
            &&& next.config == state.config && next.plan == state.plan && next.cache == state.cache
            &&& next.slot == state.slot && next.total_recorded == state.total_recorded
            &&& ask !is SetClock && ask !is WriteResult && ask !is Finish && ask !is ProcessBlock
            &&& ask matches Ask::Abort { cause, .. } ==> cause !is MissingPlanEntry
            &&& next.phase is Aborted || next.phase is FetchingSource || next.phase is Injecting
                || next.phase is Evaluating
            &&& ask matches Ask::FetchBlockAtSlot { slot } ==> next.phase is FetchingSource
                && state.entry().attestation_sources@[next.phase->FetchingSource_index as int].slot
                == slot && !state.cache.contains_key(slot)
        }),
    decreases state.entry().attestation_sources@.len() - index,
{
    let sources = state.entry().attestation_sources;
    assert(sources.len() == sources@.len());
    if index < sources@.len() {
        lemma_ask_source(state, index + 1, injected);
    }
}

/// The slot whose block the engine waits for.
pub open spec fn awaited(state: EngineState) -> Option<Slot> {
    match state.phase {
        Phase::FetchingImport { index } => {
            let import = state.entry().import_blocks@[index as int];
            if import.canonical {
                Some(import.slot)
            } else {
                None
            }
        },
        Phase::FetchingSource { index, .. } => Some(
            state.entry().attestation_sources@[index as int].slot,
        ),
        _ => None,
    }
}

proof fn lemma_ask_import(state: EngineState, index: int)
    requires
        0 <= index,
    ensures
        ({
            let (next, ask) = state.ask_import(index);
            &&& next.config == state.config && next.plan == state.plan && next.cache == state.cache
            &&& next.slot == state.slot && next.total_recorded == state.total_recorded
            &&& ask !is SetClock && ask !is WriteResult && ask !is Finish
            &&& ask matches Ask::Abort { cause, .. } ==> cause !is MissingPlanEntry
            &&& next.phase !is Starting && next.phase !is SettingClock && next.phase !is Writing
            &&& next.phase !is Flushing && next.phase !is Finished
            &&& ask matches Ask::FetchBlockAtSlot { slot } ==> awaited(next) == Some(slot)
                && !state.cache.contains_key(slot)
            &&& ask matches Ask::ProcessBlock { root } ==> forall|event: Event| #[trigger]
                hands_over_planned(next, event, root)
        }),
{
    let imports = state.entry().import_blocks;
    assert(imports.len() == imports@.len());
    lemma_ask_source(state, 0, 0);
    let (next, ask) = state.ask_import(index);
    if ask is ProcessBlock {
        let import = imports@[index];
        let block = state.cache[import.slot]->0;
        assert forall|event: Event| #[trigger]
            hands_over_planned(next, event, ask->ProcessBlock_root) by {
            assert(is_planned_block(import, block));
            assert(is_found_block(next, event, import, block));
        }
    }
}

/// Whether a block is the planned one.
pub open spec fn is_planned_block(import: PlanBlockImport, block: BlockSummary) -> bool {
    block.root == import.root && block.slot == import.slot
}

/// Whether a block is the one that was found for an import: a canonical one is known by its
/// slot, another came with the last reply.
pub open spec fn is_found_block(
    state: EngineState,
    event: Event,
    import: PlanBlockImport,
    block: BlockSummary,
) -> bool {
    if import.canonical {
        state.cache.contains_key(import.slot) && state.cache[import.slot] == Some(block)
    } else {
        event == (Event::Fetched { block: Some(block) })
    }
}

/// The block with this root, which the chain is handed, is the one that was found for the import
/// that the engine is at, and it has the planned root and the planned slot.
pub open spec fn hands_over_planned(state: EngineState, event: Event, root: Hash256) -> bool {
    &&& state.phase is ProcessingImport
    &&& state.phase->ProcessingImport_index < state.entry().import_blocks@.len()
    &&& {
        let import = state.entry().import_blocks@[state.phase->ProcessingImport_index as int];
        &&& import.root == root
        &&& exists|block: BlockSummary| #[trigger]
            is_planned_block(import, block) && is_found_block(state, event, import, block)
    }
}

/// One step of the engine: the configuration and the plan stay, known blocks stay known, and
/// each kind of request goes with the change that it announces.
proof fn lemma_next(state: EngineState, event: Event)
    requires
        state.valid(),
    ensures
        ({
            let (next, ask) = state.next(event);
            &&& next.config == state.config && next.plan == state.plan
            &&& forall|slot: u64| #[trigger]
                state.cache.contains_key(slot) ==> next.cache.contains_key(slot)
                    && next.cache[slot] == state.cache[slot]
            &&& match ask {
                Ask::WriteResult { record, .. } => {
                    &&& state.phase is Evaluating && next.phase == Phase::Writing
                    &&& record.slot == state.slot && next.slot == state.slot
                    &&& state.slot >= state.config.start_slot
                    &&& next.total_recorded == state.total_recorded + 1
                },
                _ => next.total_recorded == state.total_recorded,
            }
            &&& match ask {
                Ask::SetClock { slot } => {
                    &&& next.phase == Phase::SettingClock && next.slot == slot
                    &&& slot == state.slot + if state.phase == Phase::Starting {
                        0int
                    } else {
                        1
                    }
                    &&& state.phase == Phase::Starting || state.phase is Evaluating || state.phase
                        == Phase::Writing
                },
                _ => {
                    &&& next.phase !is SettingClock
                    &&& next.phase == Phase::Flushing || next.slot == state.slot
                    &&& next.phase == Phase::Flushing ==> next.slot == state.slot
                        + if state.phase == Phase::Starting {
                        0int
                    } else {
                        1
                    }
                },
            }
            &&& next.phase == Phase::Flushing || next.phase == Phase::Finished || next.phase
                == Phase::Aborted || next.phase is SettingClock || (state.phase !is Starting
                && state.phase !is Flushing && state.phase !is Finished && state.phase !is Aborted)
            &&& next.phase !is Starting
            &&& next.phase == Phase::Finished ==> state.phase == Phase::Flushing
            &&& next.phase == Phase::Flushing ==> state.phase == Phase::Starting
                || state.phase is Evaluating || state.phase == Phase::Writing
            &&& ask matches Ask::FetchBlockAtSlot { slot } ==> {
                &&& awaited(next) == Some(slot)
                &&& !next.cache.contains_key(slot)
                &&& state.phase !is Aborted
            }
            &&& ask matches Ask::ProcessBlock { root } ==> hands_over_planned(next, event, root)
            &&& ask matches Ask::Finish { total_recorded } ==> {
                &&& state.phase == Phase::Flushing
                &&& next.phase == Phase::Finished
                &&& total_recorded == state.total_recorded
            }
            &&& state.phase == Phase::Aborted ==> next.phase == Phase::Aborted
            &&& next.phase == Phase::Aborted || (awaited(state) matches Some(slot)
                ==> next.cache.contains_key(slot))
            &&& ask matches Ask::Abort { cause, .. } ==> (cause is MissingPlanEntry
                ==> state.slot < state.config.end_slot && !state.plan.contains_key(state.slot))
        }),
{
    let imports = state.entry().import_blocks;
    let sources = state.entry().attestation_sources;
    assert(imports.len() == imports@.len());
    assert(sources.len() == sources@.len());
    match (state.phase, event) {
        (Phase::SettingClock, Event::Done) => {
            lemma_ask_import(state, 0);
        },
        (Phase::FetchingImport { index }, Event::Fetched { block }) => {
            let import = imports@[index as int];
            lemma_ask_import(state.with_block(import.slot, block), index as int);
            lemma_ask_import(state, index + 1);
            if let Some(found) = block {
                assert(is_planned_block(import, found) == (found.root == import.root && found.slot
                    == import.slot));
            }
        },
        (Phase::ProcessingImport { index }, Event::Processed { imported }) => {
            lemma_ask_import(state, index + 1);
        },
        (Phase::FetchingSource { index, injected }, Event::Fetched { block }) => {
            let source = sources@[index as int];
            lemma_ask_source(state.with_block(source.slot, block), index as int, injected);
        },
        (Phase::Injecting { index, injected, asked }, Event::Applied { outcomes }) => {
            lemma_ask_source(
                state,
                index + 1,
                (injected + injected_count(outcomes@, outcomes@.len() as int)) as u64,
            );
        },
        _ => {},
    }
}

/// What a run has asked for goes with the state that it has reached.
spec fn run_is_sound(state: EngineState, asked: Seq<Ask>) -> bool {
    let written = written_slots(asked);
    let clocks = clock_slots(asked);
    let fetched = fetched_slots(asked);
    let config = state.config;
    &&& state.valid()
    &&& written.len() == state.total_recorded
    &&& forall|i: int| 0 <= i < written.len() ==> #[trigger] written[i] == config.start_slot + i
    &&& forall|i: int|
        0 <= i < clocks.len() ==> #[trigger] clocks[i] == first_slot(config) + i
    &&& match state.phase {
        Phase::Aborted => true,
        Phase::Starting | Phase::Flushing | Phase::Finished => clocks.len() == state.slot
            - first_slot(config),
        _ => clocks.len() == state.slot - first_slot(config) + 1,
    }
    &&& fetched.no_duplicates()
    &&& state.phase == Phase::Aborted || forall|i: int|
        0 <= i < fetched.len() ==> state.cache.contains_key(#[trigger] fetched[i]) || awaited(state)
            == Some(fetched[i])
}

proof fn lemma_run(start: EngineState, events: Seq<Event>)
    requires
        start == initial(start.config, start.plan),
    ensures
        run_is_sound(ran(start, events), asks(start, events)),
        ran(start, events).config == start.config,
        ran(start, events).plan == start.plan,
    decreases events.len(),
{
    if events.len() > 0 {
        let before = ran(start, events.drop_last());
        let asked = asks(start, events.drop_last());
        let (state, ask) = before.next(events.last());
        lemma_run(start, events.drop_last());
        lemma_next(before, events.last());
        before.next_keeps_validity(events.last());
        assert(asks(start, events).drop_last() =~= asked);
        let fetched = fetched_slots(asked);
        let fetched_now = fetched_slots(asks(start, events));
        if ask is FetchBlockAtSlot {
            let slot = ask->FetchBlockAtSlot_slot;
            assert(fetched_now == fetched.push(slot));
            assert forall|i: int| 0 <= i < fetched.len() implies fetched[i] != slot by {
                assert(before.cache.contains_key(fetched[i]) || awaited(before) == Some(
                    fetched[i],
                ));
            }
        } else {
            assert(fetched_now == fetched);
        }
        if state.phase != Phase::Aborted {
            assert forall|i: int| 0 <= i < fetched_now.len() implies state.cache.contains_key(
                #[trigger] fetched_now[i],
            ) || awaited(state) == Some(fetched_now[i]) by {
                if i < fetched.len() {
                    assert(fetched_now[i] == fetched[i]);
                    assert(before.cache.contains_key(fetched[i]) || awaited(before) == Some(
                        fetched[i],
                    ));
                }
            }
        }
    }
}

/// Records are written in slot order, one per slot and none left out, and the first is that of
/// the configuration's start slot.
pub proof fn records_are_consecutive(
    config: EngineConfig,
    plan: Map<u64, PlanEntry>,
    events: Seq<Event>,
)
    ensures
        ({
            let written = written_slots(asks(initial(config, plan), events));
            &&& written.len() == ran(initial(config, plan), events).total_recorded
            &&& forall|i: int|
                0 <= i < written.len() ==> #[trigger] written[i] == config.start_slot + i
        }),
{
    lemma_run(initial(config, plan), events);
}

/// The chain's clock goes through the simulated slots one by one, from the first on.
pub proof fn clock_advances_slot_by_slot(
    config: EngineConfig,
    plan: Map<u64, PlanEntry>,
    events: Seq<Event>,
)
    ensures
        ({
            let clocks = clock_slots(asks(initial(config, plan), events));
            forall|i: int|
                0 <= i < clocks.len() ==> #[trigger] clocks[i] == first_slot(config) + i
        }),
{
    lemma_run(initial(config, plan), events);
}

/// A run that finishes has simulated every slot from the first to the end, and its records are
/// those of the slots from the start slot, with it, to the end slot, without it.
pub proof fn finished_run_is_complete(
    config: EngineConfig,
    plan: Map<u64, PlanEntry>,
    events: Seq<Event>,
)
    requires
        config.start_slot < config.end_slot,
        ran(initial(config, plan), events).phase == Phase::Finished,
    ensures
        ({
            let asked = asks(initial(config, plan), events);
            &&& clock_slots(asked).len() == config.end_slot - first_slot(config)
            &&& written_slots(asked) == Seq::new(
                (config.end_slot - config.start_slot) as nat,
                |i: int| (config.start_slot + i) as u64,
            )
        }),
{
    lemma_run(initial(config, plan), events);
    assert(written_slots(asks(initial(config, plan), events)) =~= Seq::new(
        (config.end_slot - config.start_slot) as nat,
        |i: int| (config.start_slot + i) as u64,
    ));
}

/// What the engine reports at its end is the number of records it has written.
pub proof fn reported_total_is_records_written(
    config: EngineConfig,
    plan: Map<u64, PlanEntry>,
    events: Seq<Event>,
    event: Event,
)
    ensures
        ran(initial(config, plan), events).next(event).1 matches Ask::Finish { total_recorded } ==> {
            total_recorded == written_slots(asks(initial(config, plan), events)).len()
        },
{
    lemma_run(initial(config, plan), events);
    lemma_next(ran(initial(config, plan), events), event);
}

/// No slot's block is fetched twice.
pub proof fn blocks_are_fetched_once(
    config: EngineConfig,
    plan: Map<u64, PlanEntry>,
    events: Seq<Event>,
)
    ensures
        fetched_slots(asks(initial(config, plan), events)).no_duplicates(),
{
    lemma_run(initial(config, plan), events);
}

/// How many records were written since the output was last flushed.
pub open spec fn unflushed(asked: Seq<Ask>) -> nat
    decreases asked.len(),
{
    if asked.len() == 0 {
        0
    } else {
        match asked.last() {
            Ask::WriteResult { flush, .. } => if flush {
                0
            } else {
                unflushed(asked.drop_last()) + 1
            },
            Ask::Flush => 0,
            _ => unflushed(asked.drop_last()),
        }
    }
}

proof fn lemma_flush(state: EngineState, event: Event)
    requires
        state.valid(),
    ensures
        ({
            let (next, ask) = state.next(event);
            &&& ask matches Ask::WriteResult { flush, .. } ==> flush == (next.total_recorded
                % FLUSH_INTERVAL == 0)
            &&& ask is Flush <==> next.phase == Phase::Flushing
        }),
{
    let imports = state.entry().import_blocks;
    let sources = state.entry().attestation_sources;
    assert(imports.len() == imports@.len());
    assert(sources.len() == sources@.len());
    lemma_next(state, event);
    match (state.phase, event) {
        (Phase::SettingClock, Event::Done) => {
            lemma_no_flush_in_imports(state, 0);
        },
        (Phase::FetchingImport { index }, Event::Fetched { block }) => {
            let import = imports@[index as int];
            lemma_no_flush_in_imports(state.with_block(import.slot, block), index as int);
            lemma_no_flush_in_imports(state, index + 1);
        },
        (Phase::ProcessingImport { index }, Event::Processed { imported }) => {
            lemma_no_flush_in_imports(state, index + 1);
        },
        (Phase::FetchingSource { index, injected }, Event::Fetched { block }) => {
            let source = sources@[index as int];
            lemma_no_flush_in_sources(
                state.with_block(source.slot, block),
                index as int,
                injected,
            );
        },
        (Phase::Injecting { index, injected, asked }, Event::Applied { outcomes }) => {
            lemma_no_flush_in_sources(
                state,
                index + 1,
                (injected + injected_count(outcomes@, outcomes@.len() as int)) as u64,
            );
        },
        _ => {},
    }
}

proof fn lemma_no_flush_in_imports(state: EngineState, index: int)
    requires
        0 <= index,
    ensures
        state.ask_import(index).1 !is Flush,
{
    lemma_no_flush_in_sources(state, 0, 0);
}

proof fn lemma_no_flush_in_sources(state: EngineState, index: int, injected: u64)
    requires
        0 <= index,
    ensures
        state.ask_source(index, injected).1 !is Flush,
    decreases state.entry().attestation_sources@.len() - index,
{
    if index < state.entry().attestation_sources@.len() {
        lemma_no_flush_in_sources(state, index + 1, injected);
    }
}

/// So that what was written can be salvaged from a run that is broken off, fewer than a hundred
/// records are ever left unflushed, and none at the end.
pub proof fn few_records_are_unflushed(
    config: EngineConfig,
    plan: Map<u64, PlanEntry>,
    events: Seq<Event>,
)
    ensures
        unflushed(asks(initial(config, plan), events)) < 100,
        ran(initial(config, plan), events).phase == Phase::Finished ==> unflushed(
            asks(initial(config, plan), events),
        ) == 0,
{
    lemma_unflushed(initial(config, plan), events);
}

proof fn lemma_one_record_more(total: u64)
    requires
        total < u64::MAX,
    ensures
        (total + 1) % 100 == 0 || (total + 1) % 100 == total % 100 + 1,
{
}

proof fn lemma_unflushed_step(state: EngineState, event: Event, asked: Seq<Ask>)
    requires
        state.valid(),
        counts_unflushed(state, asked),
    ensures
        counts_unflushed(state.next(event).0, asked.push(state.next(event).1)),
{
    let (next, ask) = state.next(event);
    lemma_next(state, event);
    lemma_flush(state, event);
    assert(asked.push(ask).drop_last() =~= asked);
    if ask is WriteResult {
        lemma_one_record_more(state.total_recorded);
    }
}

/// What is unflushed goes with the number of records.
spec fn counts_unflushed(state: EngineState, asked: Seq<Ask>) -> bool {
    let count = unflushed(asked);
    match state.phase {
        Phase::Flushing | Phase::Finished => count == 0,
        Phase::Aborted => count == 0 || count == state.total_recorded % FLUSH_INTERVAL,
        _ => count == state.total_recorded % FLUSH_INTERVAL,
    }
}

proof fn lemma_unflushed(start: EngineState, events: Seq<Event>)
    requires
        start == initial(start.config, start.plan),
    ensures
        counts_unflushed(ran(start, events), asks(start, events)),
    decreases events.len(),
{
    if events.len() > 0 {
        let before = ran(start, events.drop_last());
        lemma_unflushed(start, events.drop_last());
        lemma_run(start, events.drop_last());
        lemma_unflushed_step(before, events.last(), asks(start, events.drop_last()));
    }
}

/// How much is left to do in the current slot, at most: two steps for each planned block and
/// source, and the clock, the head and the record.
pub open spec fn work_left(state: EngineState) -> int {
    let imports = state.entry().import_blocks@.len() as int;
    let sources = state.entry().attestation_sources@.len() as int;
    match state.phase {
        Phase::Starting => 2 * imports + 2 * sources + 4,
        Phase::SettingClock => 2 * imports + 2 * sources + 3,
        Phase::FetchingImport { index } => 2 * (imports - index) + 2 * sources + 2,
        Phase::ProcessingImport { index } => 2 * (imports - index) + 2 * sources + 1,
        Phase::FetchingSource { index, .. } => 2 * (sources - index) + 2,
        Phase::Injecting { index, .. } => 2 * (sources - index) + 1,
        Phase::Evaluating { .. } => 2,
        Phase::Writing | Phase::Flushing => 1,
        Phase::Finished | Phase::Aborted => 0,
    }
}

proof fn lemma_sources_bring_on(state: EngineState, index: int, injected: u64)
    requires
        0 <= index <= state.entry().attestation_sources@.len(),
    ensures
        ({
            let next = state.ask_source(index, injected).0;
            &&& next.slot == state.slot && next.plan == state.plan
            &&& 0 <= work_left(next) <= 2 * (state.entry().attestation_sources@.len() - index) + 2
            &&& next.phase is FetchingSource || work_left(next) <= 2 * (
            state.entry().attestation_sources@.len() - index) + 1 || index
                == state.entry().attestation_sources@.len()
            &&& next.phase is FetchingSource ==> !state.cache.contains_key(
                state.entry().attestation_sources@[next.phase->FetchingSource_index as int].slot,
            ) && index <= next.phase->FetchingSource_index
        }),
    decreases state.entry().attestation_sources@.len() - index,
{
    let sources = state.entry().attestation_sources;
    assert(sources.len() == sources@.len());
    if index < sources@.len() {
        lemma_sources_bring_on(state, index + 1, injected);
    }
}

proof fn lemma_imports_bring_on(state: EngineState, index: int)
    requires
        0 <= index <= state.entry().import_blocks@.len(),
    ensures
        ({
            let next = state.ask_import(index).0;
            &&& next.slot == state.slot && next.plan == state.plan
            &&& 0 <= work_left(next) <= 2 * (state.entry().import_blocks@.len() - index) + 2
                * state.entry().attestation_sources@.len() + 2
        }),
{
    let imports = state.entry().import_blocks;
    assert(imports.len() == imports@.len());
    lemma_sources_bring_on(state, 0, 0);
}

/// Every run ends: each reply leads to a later slot, of which there are only so many, or leaves
/// less to do in the same slot.
pub proof fn every_reply_brings_on_the_end(state: EngineState, event: Event)
    requires
        state.valid(),
        state.phase != Phase::Finished,
        state.phase != Phase::Aborted,
    ensures
        ({
            let next = state.next(event).0;
            &&& state.slot <= next.slot
            &&& next.slot == state.slot || next.slot <= state.config.end_slot
            &&& next.slot == state.slot ==> 0 <= work_left(next) < work_left(state)
        }),
{
    let imports = state.entry().import_blocks;
    let sources = state.entry().attestation_sources;
    assert(imports.len() == imports@.len());
    assert(sources.len() == sources@.len());
    lemma_next(state, event);
    match (state.phase, event) {
        (Phase::SettingClock, Event::Done) => {
            lemma_imports_bring_on(state, 0);
        },
        (Phase::FetchingImport { index }, Event::Fetched { block }) => {
            let import = imports@[index as int];
            lemma_imports_bring_on(state.with_block(import.slot, block), index as int);
            lemma_imports_bring_on(state, index + 1);
        },
        (Phase::ProcessingImport { index }, Event::Processed { imported }) => {
            lemma_imports_bring_on(state, index + 1);
        },
        (Phase::FetchingSource { index, injected }, Event::Fetched { block }) => {
            let source = sources@[index as int];
            lemma_sources_bring_on(
                state.with_block(source.slot, block),
                index as int,
                injected,
            );
        },
        (Phase::Injecting { index, injected, asked }, Event::Applied { outcomes }) => {
            lemma_sources_bring_on(
                state,
                index + 1,
                (injected + injected_count(outcomes@, outcomes@.len() as int)) as u64,
            );
        },
        _ => {},
    }
}

/// With a plan that covers the simulation, the engine never fails for want of a plan.
pub proof fn complete_plan_suffices(state: EngineState, event: Event)
    requires
        state.valid(),
        plan_is_complete(state.config, state.plan),
    ensures
        state.next(event).1 matches Ask::Abort { cause, .. } ==> cause !is MissingPlanEntry,
{
    lemma_next(state, event);
}

/// Only planned blocks are handed to the chain: a block that is processed was found for the
/// import that the engine is at, and has its root and its slot.
pub proof fn only_planned_blocks_are_processed(state: EngineState, event: Event)
    requires
        state.valid(),
    ensures
        state.next(event).1 matches Ask::ProcessBlock { root } ==> hands_over_planned(
            state.next(event).0,
            event,
            root,
        ),
{
    lemma_next(state, event);
}

/// A record is that of the slot which the engine is at, and is written once its head was
/// evaluated.
pub proof fn recorded_slot_is_the_current_one(state: EngineState, event: Event)
    requires
        state.valid(),
    ensures
        state.next(event).1 matches Ask::WriteResult { record, .. } ==> {
            &&& record.slot == state.slot
            &&& state.config.start_slot <= state.slot < state.config.end_slot
            &&& state.phase is Evaluating
            &&& event is Evaluated
        },
{
    lemma_next(state, event);
}

/// A step keeps the configuration, the plan and every block that is known.
pub proof fn known_blocks_stay_known(state: EngineState, event: Event)
    requires
        state.valid(),
    ensures
        state.next(event).0.config == state.config,
        state.next(event).0.plan == state.plan,
        forall|slot: u64| #[trigger]
            state.cache.contains_key(slot) ==> state.next(event).0.cache.contains_key(slot)
                && state.next(event).0.cache[slot] == state.cache[slot],
{
    lemma_next(state, event);
}

/// A block off the canonical chain that the chain refuses, or that does not exist, is passed
/// over: the engine goes on as if it had been imported.
pub proof fn noncanonical_failure_is_passed_over(state: EngineState, index: usize)
    requires
        state.valid(),
        state.phase == (Phase::ProcessingImport { index }),
        !state.entry().import_blocks@[index as int].canonical,
    ensures
        state.next(Event::Processed { imported: false }) == state.next(
            Event::Processed { imported: true },
        ),
        state.in_phase(Phase::FetchingImport { index }).next(Event::Fetched { block: None })
            == state.next(Event::Processed { imported: true }),
{
    let imports = state.entry().import_blocks@;
    let other = state.in_phase(Phase::FetchingImport { index });
    lemma_phase_is_replaced(other, Phase::ProcessingImport { index }, index + 1);
    assert(other.in_phase(Phase::ProcessingImport { index }) == state);
}

proof fn lemma_phase_is_replaced(state: EngineState, phase: Phase, index: int)
    requires
        0 <= index,
    ensures
        state.in_phase(phase).ask_import(index) == state.ask_import(index),
{
    lemma_phase_is_replaced_in_sources(state, phase, 0, 0);
}

proof fn lemma_phase_is_replaced_in_sources(
    state: EngineState,
    phase: Phase,
    index: int,
    injected: u64,
)
    requires
        0 <= index,
    ensures
        state.in_phase(phase).ask_source(index, injected) == state.ask_source(index, injected),
    decreases state.entry().attestation_sources@.len() - index,
{
    if index < state.entry().attestation_sources@.len() {
        lemma_phase_is_replaced_in_sources(state, phase, index + 1, injected);
    }
}

/// A canonical block that the chain refuses, or that does not exist, ends the simulation.
pub proof fn canonical_failure_is_fatal(state: EngineState, index: usize)
    requires
        state.valid(),
        state.phase == (Phase::ProcessingImport { index }),
        state.entry().import_blocks@[index as int].canonical,
    ensures
        state.next(Event::Processed { imported: false }).0.phase == Phase::Aborted,
        state.in_phase(Phase::FetchingImport { index }).next(
            Event::Fetched { block: None },
        ).0.phase == Phase::Aborted,
{
}

/// An engine that has stopped asks for nothing more.
pub proof fn stopped_engine_stays_stopped(state: EngineState, event: Event)
    requires
        state.phase == Phase::Finished || state.phase == Phase::Aborted,
    ensures
        state.next(event).0 == state.in_phase(Phase::Aborted),
        state.next(event).1 is Abort,
{
}

/// The attestations that are injected are exactly those within the limit, in block order.
pub proof fn selected_are_those_within(slots: Seq<Slot>, max_slot: Option<Slot>, count: int)
    requires
        0 <= count <= slots.len() <= usize::MAX,
    ensures
        ({
            let chosen = selected(slots, max_slot, count);
            &&& forall|i: int, j: int| 0 <= i < j < chosen.len() ==> chosen[i] < chosen[j]
            &&& forall|i: int|
                0 <= i < chosen.len() ==> #[trigger] chosen[i] < count && within(
                    slots[chosen[i] as int],
                    max_slot,
                )
            &&& forall|k: int|
                0 <= k < count && within(#[trigger] slots[k], max_slot) ==> chosen.contains(
                    k as usize,
                )
        }),
    decreases count,
{
    if count > 0 {
        selected_are_those_within(slots, max_slot, count - 1);
        let before = selected(slots, max_slot, count - 1);
        let chosen = selected(slots, max_slot, count);
        assert forall|k: int| 0 <= k < count && within(#[trigger] slots[k], max_slot) implies
            chosen.contains(k as usize) by {
            if k < count - 1 {
                assert(before.contains(k as usize));
                let at = before.index_of(k as usize);
                assert(chosen[at] == k as usize);
            } else {
                assert(chosen[chosen.len() - 1] == k as usize);
            }
        }
    }
}

/// A slot has a block exactly if one of its imports is a canonical block of that slot, and the
/// first of them gives the root.
pub proof fn canonical_root_is_first_match(imports: Seq<PlanBlockImport>, slot: Slot, from: int)
    requires
        0 <= from,
    ensures
        match canonical_root(imports, slot, from) {
            Some(root) => exists|i: int|
                from <= i < imports.len() && (#[trigger] imports[i]).canonical && imports[i].slot
                    == slot && imports[i].root == root && forall|j: int|
                    from <= j < i ==> !((#[trigger] imports[j]).canonical && imports[j].slot
                        == slot),
            None => forall|i: int|
                from <= i < imports.len() ==> !((#[trigger] imports[i]).canonical
                    && imports[i].slot == slot),
        },
    decreases imports.len() - from,
{
    if from < imports.len() {
        canonical_root_is_first_match(imports, slot, from + 1);
        if imports[from].canonical && imports[from].slot == slot {
            assert(imports[from].root == canonical_root(imports, slot, from)->0);
        }
    }
}

} // verus!
