//! What a single reply leads to.
use vstd::prelude::*;

use crate::hash256::root_parsed;
use crate::hash256::RootError;
use crate::http::plan::PlanAttestationSource;
use crate::http::plan::PlanBlockImport;
use crate::http::plan::PlanEntry;
use crate::sim::engine::canonical_root;
use crate::sim::engine::first_slot;
use crate::sim::engine::injected_count;
use crate::sim::engine::is_first_missing;
use crate::sim::engine::plan_is_complete;
use crate::sim::engine::recorded_before;
use crate::sim::engine::reported_source;
use crate::sim::engine::selected;
use crate::sim::engine::within;
use crate::sim::engine::Ask;
use crate::sim::engine::BlockSummary;
use crate::sim::engine::Cause;
use crate::sim::engine::EngineConfig;
use crate::sim::engine::EngineState;
use crate::sim::engine::Event;
use crate::sim::engine::Phase;
use crate::sim::engine::Stage;
use crate::sim::laws::canonical_root_is_first_match;
use crate::sim::laws::selected_are_those_within;
use crate::sim::result::the_confirmed_block_is_reported;
use crate::sim::result::times_are_reported_as_they_are;
use crate::sim::result::what_is_known_is_reported;
use crate::sim::result::HeadReport;
use crate::types::Slot;

verus! {

/// Whether a reply is one to what the engine waits for: nothing but that it is done, a block or
/// that there is none, a verdict, an outcome for each attestation, or an evaluation.
pub open spec fn answers(phase: Phase, event: Event) -> bool {
    match event {
        Event::Done => phase is Starting || phase is SettingClock || phase is Writing
            || phase is Flushing,
        Event::Fetched { .. } => phase is FetchingImport || phase is FetchingSource,
        Event::Processed { .. } => phase is ProcessingImport,
        Event::Applied { outcomes } => phase matches Phase::Injecting { asked, .. } && asked
            == outcomes@.len(),
        Event::Evaluated { .. } => phase is Evaluating,
        Event::Failed => false,
    }
}

/// Whether a slot is one of the sources.
pub open spec fn plans_source(sources: Seq<PlanAttestationSource>, slot: Slot) -> bool {
    exists|i: int| 0 <= i < sources.len() && #[trigger] sources[i].slot == slot
}

/// Whether a run has reason to fail so: a canonical block or the block of a source does not
/// exist, a block is not the planned one, the chain has refused a canonical block, or the plan
/// says nothing of the slot.
pub open spec fn is_reason(state: EngineState, event: Event, next: EngineState, cause: Cause) -> bool {
    let imports = state.entry().import_blocks@;
    match cause {
        Cause::MissingPlanEntry => !state.plan.contains_key(state.slot),
        Cause::CanonicalBlockMissing { slot } => {
            &&& next.cache.contains_key(slot) && next.cache[slot] is None
            &&& exists|i: int|
                0 <= i < imports.len() && (#[trigger] imports[i]).canonical && imports[i].slot
                    == slot
        },
        Cause::RootMismatch { slot, planned_root, fetched_root } => {
            &&& planned_root != fetched_root
            &&& exists|i: int|
                0 <= i < imports.len() && (#[trigger] imports[i]).slot == slot && imports[i].root
                    == planned_root
        },
        Cause::SlotMismatch { root, planned_slot, fetched_slot } => {
            &&& planned_slot != fetched_slot
            &&& exists|i: int|
                0 <= i < imports.len() && (#[trigger] imports[i]).slot == planned_slot
                    && imports[i].root == root
        },
        Cause::CanonicalImportFailed => {
            &&& event matches Event::Processed { imported } && !imported
            &&& state.phase matches Phase::ProcessingImport { index }
                && imports[index as int].canonical
        },
        Cause::SourceBlockMissing { slot } => {
            &&& next.cache.contains_key(slot) && next.cache[slot] is None
            &&& plans_source(state.entry().attestation_sources@, slot)
        },
        Cause::Outside => event is Failed,
        Cause::UnexpectedReply => event !is Failed && !answers(state.phase, event),
    }
}

/// The stage that a cause belongs to, where it does not depend on what was waited for.
pub open spec fn stage_of(cause: Cause) -> Option<Stage> {
    match cause {
        Cause::MissingPlanEntry => Some(Stage::Slot),
        Cause::CanonicalBlockMissing { .. } => Some(Stage::Import),
        Cause::RootMismatch { .. } => Some(Stage::Import),
        Cause::SlotMismatch { .. } => Some(Stage::Import),
        Cause::CanonicalImportFailed => Some(Stage::Import),
        Cause::SourceBlockMissing { .. } => Some(Stage::Attestations),
        Cause::Outside => None,
        Cause::UnexpectedReply => None,
    }
}

proof fn lemma_sources_fail_for_a_reason(
    start: EngineState,
    state: EngineState,
    event: Event,
    index: int,
    injected: u64,
)
    requires
        0 <= index,
        start.entry() == state.entry(),
    ensures
        ({
            let (next, ask) = state.ask_source(index, injected);
            &&& ask is Abort <==> next.phase == Phase::Aborted
            &&& ask matches Ask::Abort { sim_slot, stage, cause } ==> {
                &&& sim_slot == state.slot
                &&& cause is SourceBlockMissing
                &&& is_reason(start, event, next, cause)
                &&& stage_of(cause) == Some(stage)
            }
        }),
    decreases state.entry().attestation_sources@.len() - index,
{
    if index < state.entry().attestation_sources@.len() {
        lemma_sources_fail_for_a_reason(start, state, event, index + 1, injected);
        let source = state.entry().attestation_sources@[index];
        assert(plans_source(state.entry().attestation_sources@, source.slot));
    }
}

proof fn lemma_imports_fail_for_a_reason(
    start: EngineState,
    state: EngineState,
    event: Event,
    index: int,
)
    requires
        0 <= index,
        start.entry() == state.entry(),
    ensures
        ({
            let (next, ask) = state.ask_import(index);
            &&& ask is Abort <==> next.phase == Phase::Aborted
            &&& ask matches Ask::Abort { sim_slot, stage, cause } ==> {
                &&& sim_slot == state.slot
                &&& cause !is CanonicalImportFailed && cause !is MissingPlanEntry
                &&& cause !is Outside && cause !is UnexpectedReply
                &&& is_reason(start, event, next, cause)
                &&& stage_of(cause) == Some(stage)
            }
        }),
{
    lemma_sources_fail_for_a_reason(start, state, event, 0, 0);
    if index < state.entry().import_blocks@.len() {
        let import = state.entry().import_blocks@[index];
        assert(import.slot == import.slot);
    }
}

/// A run fails only where it has a reason to. A reply that answers what was asked for never ends
/// it as an unexpected one; a request that could not be done ends it as such, and a reply that
/// answers something else as unexpected, in the stage that the engine is at. Any other failure
/// is due to the plan or to a block, and the cause says to which. The failure is always that of
/// the current slot.
#[verifier::spinoff_prover]
pub proof fn a_run_fails_only_for_a_reason(state: EngineState, event: Event)
    requires
        state.valid(),
        state.phase != Phase::Finished,
        state.phase != Phase::Aborted,
    ensures
        ({
            let (next, ask) = state.next(event);
            &&& ask is Abort <==> next.phase == Phase::Aborted
            &&& ask matches Ask::Abort { sim_slot, stage, cause } ==> {
                &&& sim_slot == state.slot
                &&& is_reason(state, event, next, cause)
                &&& stage_of(cause) is Some ==> stage_of(cause) == Some(stage)
            }
            &&& event is Failed ==> ask is Abort && ask->cause is Outside
            &&& event !is Failed && !answers(state.phase, event) ==> ask is Abort
                && ask->cause is UnexpectedReply
        }),
{
    let imports = state.entry().import_blocks;
    let sources = state.entry().attestation_sources;
    assert(imports.len() == imports@.len());
    assert(sources.len() == sources@.len());
    match (state.phase, event) {
        (Phase::SettingClock, Event::Done) => {
            lemma_imports_fail_for_a_reason(state, state, event, 0);
        },
        (Phase::FetchingImport { index }, Event::Fetched { block }) => {
            let import = imports@[index as int];
            lemma_imports_fail_for_a_reason(
                state,
                state.with_block(import.slot, block),
                event,
                index as int,
            );
            lemma_imports_fail_for_a_reason(state, state, event, index + 1);
        },
        (Phase::ProcessingImport { index }, Event::Processed { imported }) => {
            lemma_imports_fail_for_a_reason(state, state, event, index + 1);
        },
        (Phase::FetchingSource { index, injected }, Event::Fetched { block }) => {
            let source = sources@[index as int];
            lemma_sources_fail_for_a_reason(
                state,
                state.with_block(source.slot, block),
                event,
                index as int,
                injected,
            );
        },
        (Phase::Injecting { index, injected, asked }, Event::Applied { outcomes }) => {
            lemma_sources_fail_for_a_reason(
                state,
                state,
                event,
                index + 1,
                (injected + injected_count(outcomes@, outcomes@.len() as int)) as u64,
            );
        },
        _ => {},
    }
}

/// What could not be done, or was replied unexpectedly, is reported for what the engine was at:
/// the imports while it waits for a planned block or the verdict on one, the attestations while
/// it waits for a source or for outcomes, the evaluation, the output, or the slot itself.
pub proof fn a_failure_names_what_the_engine_was_at(state: EngineState, event: Event)
    requires
        !answers(state.phase, event),
    ensures
        ({
            let ask = state.next(event).1;
            ask matches Ask::Abort { stage, .. } && {
                &&& stage is Slot <==> state.phase is Starting || state.phase is SettingClock
                &&& stage is Import <==> state.phase is FetchingImport
                    || state.phase is ProcessingImport
                &&& stage is Attestations <==> state.phase is FetchingSource
                    || state.phase is Injecting
                &&& stage is Evaluation <==> state.phase is Evaluating
                &&& stage is Output <==> state.phase is Writing || state.phase is Flushing
                &&& stage is Stopped <==> state.phase is Finished || state.phase is Aborted
            }
        }),
{
}

/// The block that was found for an import is handed to the chain if it has the planned root and
/// the planned slot; if not, the run fails, and says what was planned and what was found.
pub proof fn a_found_block_is_handed_to_the_chain(
    state: EngineState,
    index: usize,
    block: BlockSummary,
)
    requires
        state.valid(),
        state.phase == (Phase::FetchingImport { index }),
    ensures
        ({
            let import = state.entry().import_blocks@[index as int];
            let (next, ask) = state.next(Event::Fetched { block: Some(block) });
            if block.root != import.root {
                ask == (Ask::Abort {
                    sim_slot: state.slot,
                    stage: Stage::Import,
                    cause: Cause::RootMismatch {
                        slot: import.slot,
                        planned_root: import.root,
                        fetched_root: block.root,
                    },
                })
            } else if block.slot != import.slot {
                ask == (Ask::Abort {
                    sim_slot: state.slot,
                    stage: Stage::Import,
                    cause: Cause::SlotMismatch {
                        root: import.root,
                        planned_slot: import.slot,
                        fetched_slot: block.slot,
                    },
                })
            } else {
                &&& ask == (Ask::ProcessBlock { root: block.root })
                &&& next.phase == (Phase::ProcessingImport { index })
            }
        }),
{
}

/// The canonical block of a slot, or that there is none, is known from when it was fetched; what
/// was fetched by its root is not taken for the canonical block of its slot.
pub proof fn what_was_fetched_by_its_slot_is_known(
    state: EngineState,
    index: usize,
    block: Option<BlockSummary>,
)
    requires
        state.valid(),
        state.phase == (Phase::FetchingImport { index }) || (state.phase matches Phase::FetchingSource {
            index: at,
            ..
        } && at == index),
    ensures
        ({
            let next = state.next(Event::Fetched { block }).0;
            let import = state.entry().import_blocks@[index as int];
            let source = state.entry().attestation_sources@[index as int];
            if state.phase is FetchingSource {
                next.cache == state.cache.insert(source.slot, block)
            } else if import.canonical {
                next.cache == state.cache.insert(import.slot, block)
            } else {
                next.cache == state.cache
            }
        }),
{
    let event = Event::Fetched { block };
    if state.phase is FetchingSource {
        let source = state.entry().attestation_sources@[index as int];
        lemma_sources_keep_blocks(
            state.with_block(source.slot, block),
            index as int,
            state.phase->FetchingSource_injected,
        );
    } else {
        let import = state.entry().import_blocks@[index as int];
        lemma_sources_keep_blocks(state.with_block(import.slot, block), 0, 0);
        lemma_sources_keep_blocks(state, 0, 0);
    }
}

proof fn lemma_sources_keep_blocks(state: EngineState, index: int, injected: u64)
    requires
        0 <= index,
    ensures
        state.ask_source(index, injected).0.cache == state.cache,
    decreases state.entry().attestation_sources@.len() - index,
{
    if index < state.entry().attestation_sources@.len() {
        lemma_sources_keep_blocks(state, index + 1, injected);
    }
}

/// A canonical block that does not exist or that the chain refuses, and a source without a
/// block, end the run with that cause.
pub proof fn missing_blocks_are_named(state: EngineState, index: usize)
    requires
        state.valid(),
    ensures
        state.phase == (Phase::FetchingImport { index }) ==> {
            let import = state.entry().import_blocks@[index as int];
            import.canonical ==> state.next(Event::Fetched { block: None }).1 == (Ask::Abort {
                sim_slot: state.slot,
                stage: Stage::Import,
                cause: Cause::CanonicalBlockMissing { slot: import.slot },
            })
        },
        state.phase == (Phase::ProcessingImport { index }) ==> {
            let import = state.entry().import_blocks@[index as int];
            import.canonical ==> state.next(Event::Processed { imported: false }).1 == (Ask::Abort {
                sim_slot: state.slot,
                stage: Stage::Import,
                cause: Cause::CanonicalImportFailed,
            })
        },
        (state.phase matches Phase::FetchingSource { index: at, .. } && at == index) ==> {
            let source = state.entry().attestation_sources@[index as int];
            state.next(Event::Fetched { block: None }).1 == (Ask::Abort {
                sim_slot: state.slot,
                stage: Stage::Attestations,
                cause: Cause::SourceBlockMissing { slot: source.slot },
            })
        },
{
}

/// Whether a slot does not come after a limit, where there is one.
pub open spec fn is_up_to(limit: Option<Slot>, slot: Slot) -> bool {
    limit is Some ==> slot <= limit->0
}

/// Of a source whose block was found, the attestations up to the limit, with it, are injected as
/// of the next slot, in the order of the block; where the source has no limit all are. A source
/// with no such attestation is passed over.
pub proof fn attestations_up_to_the_limit_are_injected(
    state: EngineState,
    index: usize,
    injected: u64,
    block: BlockSummary,
)
    requires
        state.valid(),
        state.phase == (Phase::FetchingSource { index, injected }),
    ensures
        ({
            let source = state.entry().attestation_sources@[index as int];
            let limit = source.max_attestation_slot;
            let slots = block.attestation_slots@;
            let (next, ask) = state.next(Event::Fetched { block: Some(block) });
            if exists|k: int| 0 <= k < slots.len() && #[trigger] is_up_to(limit, slots[k]) {
                ask matches Ask::InjectAttestations { source_slot, inject_slot, attestations } && {
                    &&& source_slot == source.slot
                    &&& inject_slot == state.slot + 1
                    &&& forall|k: int|
                        0 <= k < slots.len() ==> (#[trigger] is_up_to(limit, slots[k])
                            <==> attestations.contains(k as usize))
                    &&& forall|i: int|
                        0 <= i < attestations.len() ==> #[trigger] attestations[i] < slots.len()
                    &&& forall|i: int, j: int|
                        0 <= i < j < attestations.len() ==> attestations[i] < attestations[j]
                    &&& next.phase == (Phase::Injecting {
                        index,
                        injected,
                        asked: attestations.len() as usize,
                    })
                }
            } else {
                next.phase matches Phase::Injecting { index: at, .. } ==> at > index
            }
        }),
{
    let source = state.entry().attestation_sources@[index as int];
    let slots = block.attestation_slots@;
    let limit = source.max_attestation_slot;
    assert(block.attestation_slots.len() == slots.len());
    selected_are_those_within(slots, limit, slots.len() as int);
    let chosen = selected(slots, limit, slots.len() as int);
    let known = state.with_block(source.slot, Some(block));
    assert(known.entry() == state.entry() && known.cache[source.slot] == Some(block));
    let (next, ask) = state.next(Event::Fetched { block: Some(block) });
    assert(ask == known.ask_source(index as int, injected).1);
    assert forall|k: int| 0 <= k < slots.len() implies (#[trigger] is_up_to(limit, slots[k])
        <==> chosen.contains(k as usize)) by {
        assert(within(slots[k], limit) <==> is_up_to(limit, slots[k]));
        if chosen.contains(k as usize) {
            let i = chosen.index_of(k as usize);
            assert(chosen[i] == k);
        }
    }
    if exists|k: int| 0 <= k < slots.len() && #[trigger] is_up_to(limit, slots[k]) {
        let k = choose|k: int| 0 <= k < slots.len() && #[trigger] is_up_to(limit, slots[k]);
        assert(chosen.contains(k as usize));
        assert(ask == (Ask::InjectAttestations {
            source_slot: source.slot,
            inject_slot: (state.slot + 1) as u64,
            attestations: chosen,
        }));
    } else {
        if chosen.len() > 0 {
            let k = chosen[0] as int;
            assert(chosen.contains(k as usize));
            assert(is_up_to(limit, slots[k]));
        }
        lemma_sources_go_on(known, index + 1, injected);
    }
}

proof fn lemma_sources_go_on(state: EngineState, index: int, injected: u64)
    requires
        0 <= index,
    ensures
        state.ask_source(index, injected).0.phase matches Phase::Injecting { index: at, .. } ==> at
            >= index,
    decreases state.entry().attestation_sources@.len() - index,
{
    let sources = state.entry().attestation_sources;
    assert(sources.len() == sources@.len());
    if index < sources@.len() {
        lemma_sources_go_on(state, index + 1, injected);
    }
}

/// Whether an import is the first canonical one of a slot.
pub open spec fn is_first_canonical(imports: Seq<PlanBlockImport>, slot: Slot, i: int) -> bool {
    &&& imports[i].canonical && imports[i].slot == slot
    &&& forall|j: int|
        0 <= j < i ==> !((#[trigger] imports[j]).canonical && imports[j].slot == slot)
}

/// Once its head is evaluated, a slot from the start slot on is recorded, with what the chain
/// says of its head, what was counted, and the time that it took; an earlier slot is left for
/// the next one without a record.
pub proof fn an_evaluated_slot_is_recorded(
    state: EngineState,
    injected: u64,
    head: HeadReport,
    elapsed_micros: u128,
)
    requires
        state.valid(),
        state.phase == (Phase::Evaluating { injected }),
    ensures
        ({
            let (next, ask) = state.next(Event::Evaluated { head, elapsed_micros });
            if state.slot >= state.config.start_slot {
                ask matches Ask::WriteResult { record, flush } && {
                    &&& record.slot == state.slot
                    &&& record.num_attestations_injected == injected
                    &&& elapsed_micros <= u64::MAX ==> record.fcr_eval_duration_us == elapsed_micros
                    &&& elapsed_micros > u64::MAX ==> record.fcr_eval_duration_us == u64::MAX
                    &&& root_parsed(record.head_root) == Ok::<Seq<u8>, RootError>(head.head_root@)
                    &&& record.finalized_epoch == head.finalized_epoch
                    &&& record.justified_epoch == head.justified_epoch
                    &&& head.confirmation matches Some(confirmation) ==> {
                        &&& root_parsed(record.confirmed_root) == Ok::<Seq<u8>, RootError>(
                            confirmation.root@,
                        )
                        &&& confirmation.slot matches Some(slot) ==> record.confirmed_slot == slot
                    }
                    &&& record.has_block <==> exists|i: int|
                        0 <= i < state.entry().import_blocks@.len() && (
                        #[trigger] state.entry().import_blocks@[i]).canonical
                            && state.entry().import_blocks@[i].slot == state.slot
                    &&& record.block_root matches Some(text) ==> exists|i: int|
                        0 <= i < state.entry().import_blocks@.len() && is_first_canonical(
                            state.entry().import_blocks@,
                            state.slot,
                            i,
                        ) && root_parsed(text) == Ok::<Seq<u8>, RootError>(
                            (#[trigger] state.entry().import_blocks@[i]).root@,
                        )
                    &&& state.entry().source_block_slot is Some ==> record.source_block_slot
                        == state.entry().source_block_slot
                    &&& state.entry().source_block_slot is None ==> record.source_block_slot
                        == if state.entry().attestation_sources@.len() > 0 {
                        Some(state.entry().attestation_sources@[0].slot)
                    } else {
                        None
                    }
                    &&& flush <==> (state.slot - state.config.start_slot + 1) % 100 == 0
                    &&& next.total_recorded == state.slot - state.config.start_slot + 1
                }
            } else {
                &&& next.slot == state.slot + 1
                &&& next.total_recorded == state.total_recorded
                &&& ask == if state.slot + 1 < state.config.end_slot {
                    Ask::SetClock { slot: (state.slot + 1) as u64 }
                } else {
                    Ask::Flush
                }
            }
        }),
{
    let facts = state.facts(injected, elapsed_micros);
    the_confirmed_block_is_reported(facts, head);
    what_is_known_is_reported(facts, head);
    times_are_reported_as_they_are(elapsed_micros);
    let imports = state.entry().import_blocks@;
    canonical_root_is_first_match(imports, state.slot, 0);
    if let Some(root) = canonical_root(imports, state.slot, 0) {
        let i = choose|i: int|
            0 <= i < imports.len() && (#[trigger] imports[i]).canonical && imports[i].slot
                == state.slot && imports[i].root == root && forall|j: int|
                0 <= j < i ==> !((#[trigger] imports[j]).canonical && imports[j].slot
                    == state.slot);
        assert(is_first_canonical(imports, state.slot, i));
    }
}

/// What follows one slot is the next: the clock is set to it, or the output is flushed where it
/// is past the end. The run begins with the first slot in the same way, and is over once the
/// output was flushed.
pub proof fn slot_follows_slot(state: EngineState)
    requires
        state.valid(),
    ensures
        state.phase == Phase::Starting ==> state.next(Event::Done).1 == if state.slot
            < state.config.end_slot {
            Ask::SetClock { slot: state.slot }
        } else {
            Ask::Flush
        },
        state.phase == Phase::Writing ==> state.next(Event::Done).1 == if state.slot + 1
            < state.config.end_slot {
            Ask::SetClock { slot: (state.slot + 1) as u64 }
        } else {
            Ask::Flush
        },
        state.phase == Phase::Flushing ==> state.next(Event::Done).1 == (Ask::Finish {
            total_recorded: state.total_recorded,
        }),
{
}

/// The simulation starts one slot after the checkpoint, where that is no later than the first
/// slot to record, and never later than with that slot.
pub proof fn the_first_slot_follows_the_checkpoint(config: EngineConfig)
    ensures
        first_slot(config) <= config.start_slot,
        config.warmup_start_slot < config.start_slot ==> first_slot(config)
            == config.warmup_start_slot + 1,
        config.warmup_start_slot >= config.start_slot ==> first_slot(config) == config.start_slot,
{
}

/// A slot that comes before the first one to record adds no record, each other adds one.
pub proof fn each_slot_from_the_start_on_adds_a_record(config: EngineConfig, slot: int)
    ensures
        recorded_before(config, config.start_slot as int) == 0,
        slot < config.start_slot ==> recorded_before(config, slot + 1) == recorded_before(
            config,
            slot,
        ),
        slot >= config.start_slot ==> recorded_before(config, slot + 1) == recorded_before(
            config,
            slot,
        ) + 1,
{
}

/// A record names as its source the one that the plan names, also where that is none of the
/// sources; where the plan names none, it is that of the first source, if there is a source.
pub proof fn the_named_source_is_reported(entry: PlanEntry)
    ensures
        entry.source_block_slot is Some ==> reported_source(entry) == entry.source_block_slot,
        entry.source_block_slot is None && entry.attestation_sources@.len() > 0
            ==> reported_source(entry) == Some(entry.attestation_sources@[0].slot),
        entry.source_block_slot is None && entry.attestation_sources@.len() == 0
            ==> reported_source(entry) is None,
{
}

/// A plan is complete just where it has an entry for each slot from the first to the end; where
/// it is not, the slot that is reported is the first that has none.
pub proof fn a_plan_needs_its_slots_and_no_others(
    config: EngineConfig,
    plan: Map<u64, PlanEntry>,
    missing: Slot,
)
    ensures
        plan_is_complete(config, plan) <==> forall|slot: u64|
            first_slot(config) <= slot < config.end_slot ==> #[trigger] plan.contains_key(slot),
        is_first_missing(config, plan, missing) ==> {
            &&& first_slot(config) <= missing < config.end_slot
            &&& !plan.contains_key(missing)
            &&& !plan_is_complete(config, plan)
            &&& forall|slot: u64|
                first_slot(config) <= slot < missing ==> #[trigger] plan.contains_key(slot)
        },
{
}

/// Whether a request is the one for what the engine then waits for: the block of the import or of
/// the source at its position, the verdict on the planned block, the outcomes of attestations of
/// the source's block as of the next slot, or the head at the planned slot.
pub open spec fn asks_for_what_is_planned(state: EngineState, ask: Ask) -> bool {
    let entry = state.entry();
    match state.phase {
        Phase::FetchingImport { index } => {
            let import = entry.import_blocks@[index as int];
            &&& index < entry.import_blocks@.len()
            &&& import.canonical ==> ask == (Ask::FetchBlockAtSlot { slot: import.slot })
            &&& !import.canonical ==> ask == (Ask::FetchBlockByRoot { root: import.root })
        },
        Phase::ProcessingImport { index } => {
            &&& index < entry.import_blocks@.len()
            &&& ask == (Ask::ProcessBlock { root: entry.import_blocks@[index as int].root })
        },
        Phase::FetchingSource { index, .. } => {
            &&& index < entry.attestation_sources@.len()
            &&& ask == (Ask::FetchBlockAtSlot {
                slot: entry.attestation_sources@[index as int].slot,
            })
        },
        Phase::Injecting { index, asked, .. } => {
            &&& index < entry.attestation_sources@.len()
            &&& ask matches Ask::InjectAttestations { source_slot, inject_slot, attestations } && {
                &&& source_slot == entry.attestation_sources@[index as int].slot
                &&& inject_slot == state.slot + 1
                &&& attestations.len() == asked
                &&& asked > 0
            }
        },
        Phase::Evaluating { .. } => ask == (Ask::RecomputeHead { slot: entry.eval_slot }),
        Phase::SettingClock => ask == (Ask::SetClock { slot: state.slot }),
        Phase::Writing => ask is WriteResult && ask->record.slot == state.slot,
        Phase::Flushing => ask is Flush,
        Phase::Finished => ask is Finish,
        Phase::Aborted => ask is Abort,
        Phase::Starting => false,
    }
}

/// Whether a source has nothing to inject: its block is known, and has no attestation up to the
/// limit.
pub open spec fn has_nothing_to_inject(state: EngineState, index: int) -> bool {
    let source = state.entry().attestation_sources@[index];
    &&& state.cache.contains_key(source.slot)
    &&& state.cache[source.slot] is Some
    &&& forall|k: int|
        0 <= k < state.cache[source.slot]->0.attestation_slots@.len() ==> !#[trigger] is_up_to(
            source.max_attestation_slot,
            state.cache[source.slot]->0.attestation_slots@[k],
        )
}

/// The position of the import that a phase is at.
pub open spec fn import_at(phase: Phase) -> Option<int> {
    match phase {
        Phase::FetchingImport { index } => Some(index as int),
        Phase::ProcessingImport { index } => Some(index as int),
        _ => None,
    }
}

/// The position of the source that a phase is at, or behind all of them where the head is
/// evaluated.
pub open spec fn source_at(state: EngineState) -> Option<int> {
    match state.phase {
        Phase::FetchingSource { index, .. } => Some(index as int),
        Phase::Injecting { index, .. } => Some(index as int),
        Phase::Evaluating { .. } => Some(state.entry().attestation_sources@.len() as int),
        _ => None,
    }
}

/// The sources from `index` on are gone through one by one.
proof fn lemma_sources_in_turn(state: EngineState, index: int, injected: u64)
    requires
        0 <= index <= state.entry().attestation_sources@.len(),
        state.slot < u64::MAX,
    ensures
        ({
            let (next, ask) = state.ask_source(index, injected);
            &&& asks_for_what_is_planned(next, ask)
            &&& next.slot == state.slot && next.plan == state.plan && next.cache == state.cache
            &&& next.phase is Aborted || source_at(next) is Some
            &&& source_at(next) matches Some(at) ==> {
                &&& index <= at
                &&& forall|i: int| index <= i < at ==> #[trigger] has_nothing_to_inject(state, i)
            }
        }),
    decreases state.entry().attestation_sources@.len() - index,
{
    let sources = state.entry().attestation_sources;
    assert(sources.len() == sources@.len());
    if index < sources@.len() {
        let source = sources@[index];
        if state.cache.contains_key(source.slot) && state.cache[source.slot] is Some {
            let block = state.cache[source.slot]->0;
            let slots = block.attestation_slots@;
            let limit = source.max_attestation_slot;
            assert(block.attestation_slots.len() == slots.len());
            selected_are_those_within(slots, limit, slots.len() as int);
            let chosen = selected(slots, limit, slots.len() as int);
            lemma_selected_len(slots, limit, slots.len() as int);
            if chosen.len() == 0 {
                assert forall|k: int| 0 <= k < slots.len() implies !#[trigger] is_up_to(
                    limit,
                    slots[k],
                ) by {
                    assert(within(slots[k], limit) <==> is_up_to(limit, slots[k]));
                }
                assert(has_nothing_to_inject(state, index));
                lemma_sources_in_turn(state, index + 1, injected);
                let next = state.ask_source(index, injected).0;
                if source_at(next) is Some {
                    assert forall|i: int| index <= i < source_at(next)->0 implies
                        #[trigger] has_nothing_to_inject(state, i) by {}
                }
            }
        }
    }
}

proof fn lemma_selected_len(slots: Seq<Slot>, limit: Option<Slot>, count: int)
    requires
        0 <= count <= slots.len() <= usize::MAX,
    ensures
        selected(slots, limit, count).len() <= count,
    decreases count,
{
    if count > 0 {
        lemma_selected_len(slots, limit, count - 1);
    }
}

/// The imports from `index` on are gone through one by one.
proof fn lemma_imports_in_turn(state: EngineState, index: int)
    requires
        0 <= index <= state.entry().import_blocks@.len(),
        state.slot < u64::MAX,
    ensures
        ({
            let (next, ask) = state.ask_import(index);
            &&& asks_for_what_is_planned(next, ask)
            &&& next.slot == state.slot && next.plan == state.plan && next.cache == state.cache
            &&& index < state.entry().import_blocks@.len() ==> next.phase is Aborted || import_at(
                next.phase,
            ) == Some(index)
            &&& index == state.entry().import_blocks@.len() ==> import_at(next.phase) is None && (
            next.phase is Aborted || source_at(next) is Some) && (source_at(next) matches Some(at)
                ==> forall|i: int| 0 <= i < at ==> #[trigger] has_nothing_to_inject(state, i))
        }),
{
    let imports = state.entry().import_blocks;
    assert(imports.len() == imports@.len());
    lemma_sources_in_turn(state, 0, 0);
}

/// Each request is the one for what the engine then waits for, as the plan of the current slot says.
#[verifier::spinoff_prover]
pub proof fn each_request_is_for_what_is_planned(state: EngineState, event: Event)
    requires
        state.valid(),
    ensures
        asks_for_what_is_planned(state.next(event).0, state.next(event).1),
{
    let imports = state.entry().import_blocks;
    let sources = state.entry().attestation_sources;
    assert(imports.len() == imports@.len());
    assert(sources.len() == sources@.len());
    match (state.phase, event) {
        (Phase::SettingClock, Event::Done) => {
            if state.plan.contains_key(state.slot) {
                lemma_imports_in_turn(state, 0);
            }
        },
        (Phase::FetchingImport { index }, Event::Fetched { block }) => {
            let import = imports@[index as int];
            lemma_imports_in_turn(state.with_block(import.slot, block), index as int);
            lemma_imports_in_turn(state, index + 1);
        },
        (Phase::ProcessingImport { index }, Event::Processed { imported }) => {
            lemma_imports_in_turn(state, index + 1);
        },
        (Phase::FetchingSource { index, injected }, Event::Fetched { block }) => {
            let source = sources@[index as int];
            lemma_sources_in_turn(state.with_block(source.slot, block), index as int, injected);
        },
        (Phase::Injecting { index, injected, asked }, Event::Applied { outcomes }) => {
            lemma_sources_in_turn(
                state,
                index + 1,
                (injected + injected_count(outcomes@, outcomes@.len() as int)) as u64,
            );
        },
        _ => {},
    }
}

/// Nothing that is planned is left out, in a run that goes on: the imports are gone through one by
/// one from the first, the sources after the last of them, and the head is evaluated after the last
/// source. An import is done with once the chain has given its verdict, or where no block was found
/// for one that is not canonical; a source once its attestations have their outcomes, or where it
/// has nothing to inject.
#[verifier::spinoff_prover]
pub proof fn nothing_planned_is_left_out(state: EngineState, event: Event)
    requires
        state.valid(),
        state.next(event).0.phase !is Aborted,
    ensures
        ({
            let next = state.next(event).0;
            let imports = state.entry().import_blocks@.len();
            let done = match state.phase {
                Phase::SettingClock => Some(0int),
                Phase::ProcessingImport { index } => Some(index + 1),
                Phase::FetchingImport { index } => if event == (Event::Fetched { block: None }) {
                    Some(index + 1)
                } else {
                    None
                },
                _ => None,
            };
            &&& state.phase is FetchingImport && done is None ==> next.phase == (
            Phase::ProcessingImport { index: state.phase->FetchingImport_index })
            &&& done matches Some(at) ==> {
                &&& at < imports ==> import_at(next.phase) == Some(at)
                &&& at >= imports ==> source_at(next) is Some && forall|i: int|
                    0 <= i < source_at(next)->0 ==> #[trigger] has_nothing_to_inject(state, i)
            }
            &&& state.phase is FetchingSource ==> source_at(next) is Some && forall|i: int|
                state.phase->FetchingSource_index <= i < source_at(next)->0
                    ==> #[trigger] has_nothing_to_inject(next, i)
            &&& state.phase is Injecting ==> source_at(next) is Some && source_at(next)->0
                > state.phase->Injecting_index && forall|i: int|
                state.phase->Injecting_index < i < source_at(next)->0
                    ==> #[trigger] has_nothing_to_inject(state, i)
        }),
{
    let imports = state.entry().import_blocks;
    let sources = state.entry().attestation_sources;
    assert(imports.len() == imports@.len());
    assert(sources.len() == sources@.len());
    match (state.phase, event) {
        (Phase::SettingClock, Event::Done) => {
            lemma_imports_in_turn(state, 0);
        },
        (Phase::FetchingImport { index }, Event::Fetched { block }) => {
            let import = imports@[index as int];
            lemma_imports_in_turn(state.with_block(import.slot, block), index as int);
            lemma_imports_in_turn(state, index + 1);
        },
        (Phase::ProcessingImport { index }, Event::Processed { imported }) => {
            lemma_imports_in_turn(state, index + 1);
        },
        (Phase::FetchingSource { index, injected }, Event::Fetched { block }) => {
            let source = sources@[index as int];
            let known = state.with_block(source.slot, block);
            lemma_sources_in_turn(known, index as int, injected);
            let next = state.next(event).0;
            assert forall|i: int| index <= i < source_at(next)->0 implies
                #[trigger] has_nothing_to_inject(next, i) by {
                assert(has_nothing_to_inject(known, i));
            }
        },
        (Phase::Injecting { index, injected, asked }, Event::Applied { outcomes }) => {
            lemma_sources_in_turn(
                state,
                index + 1,
                (injected + injected_count(outcomes@, outcomes@.len() as int)) as u64,
            );
        },
        _ => {},
    }
}

} // verus!
