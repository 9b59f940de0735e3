//! The engine: drives the chain through the planned slots, one outside action at a time.
use std::collections::HashMap;
use vstd::prelude::*;

use crate::hash256::Hash256;
use crate::http::plan::AttestationPlan;
use crate::http::plan::PlanAttestationSource;
use crate::http::plan::PlanBlockImport;
use crate::http::plan::PlanEntry;
use crate::output::schema::SlotRecord;
use crate::output::schema::SlotResult;
use crate::output::writer::flush_if_needed;
use crate::output::writer::is_flush_due;
use crate::sim::result::build_slot_result;
use crate::sim::result::micros_since;
use crate::sim::result::reported_micros;
use crate::sim::result::slot_record;
use crate::sim::result::HeadReport;
use crate::sim::result::SlotFacts;
use crate::types::Slot;

verus! {

broadcast use vstd::std_specs::hash::group_hash_axioms;

/// Which slots are simulated and which of them are recorded.
#[derive(Clone, Copy, Debug)]
pub struct EngineConfig {
    /// The first slot to record.
    pub start_slot: Slot,
    /// The slot at which the simulation ends, without it.
    pub end_slot: Slot,
    /// The slot of the checkpoint. The simulation starts one slot later, or with the first slot
    /// to record where that comes no later than the checkpoint.
    pub warmup_start_slot: Slot,
}

impl EngineConfig {
    /// The first slot that is simulated.
    pub fn first_slot(&self) -> (res: Slot)
        ensures
            res == first_slot(*self),
    {
        if self.warmup_start_slot < self.start_slot {
            self.warmup_start_slot + 1
        } else {
            self.start_slot
        }
    }
}

/// What the engine needs to know of a block.
#[derive(Debug)]
pub struct BlockSummary {
    pub root: Hash256,
    pub slot: Slot,
    /// For each attestation in the block, in order, the slot that it is for.
    pub attestation_slots: Vec<Slot>,
}

/// What became of an attestation that was to be injected.
#[derive(Clone, Copy, Debug, PartialEq, Eq, Structural)]
pub enum AttestationOutcome {
    /// Its committee could not be looked up.
    NotIndexed,
    /// Fork choice did not take it.
    Rejected,
    Injected,
}

/// What the engine asks for.
#[derive(Debug)]
pub enum Action {
    /// Set the chain's clock.
    SetClock { slot: Slot },
    /// Fetch the canonical block of a slot.
    FetchBlockAtSlot { slot: Slot },
    /// Fetch a block by its root.
    FetchBlockByRoot { root: Hash256 },
    /// Import the block that was fetched last, or before for its slot, and has this root.
    ProcessBlock { root: Hash256 },
    /// Apply the attestations at these positions in the block of `source_slot` to fork
    /// choice, as of `inject_slot`.
    InjectAttestations { source_slot: Slot, inject_slot: Slot, attestations: Vec<usize> },
    /// Recompute the head as of a slot.
    RecomputeHead { slot: Slot },
    /// Write a record, then flush the output if asked to.
    WriteResult { result: SlotResult, flush: bool },
    /// Flush the output.
    Flush,
    /// The simulation is over.
    Finish { total_recorded: u64 },
    /// The simulation has failed.
    Abort { sim_slot: Slot, stage: Stage, cause: Cause },
}

/// How what the engine asked for turned out.
#[derive(Debug)]
pub enum Event {
    /// It is done, and there is nothing to say about it.
    Done,
    /// The block that was asked for, if there is one.
    Fetched { block: Option<BlockSummary> },
    /// Whether the chain took the block.
    Processed { imported: bool },
    /// One outcome for each attestation.
    Applied { outcomes: Vec<AttestationOutcome> },
    /// What the chain says of its head, and how long that took.
    Evaluated { head: HeadReport, elapsed_micros: u128 },
    /// It could not be done.
    Failed,
}

/// What the engine was at when it failed.
#[derive(Clone, Copy, Debug, PartialEq, Eq, Structural)]
pub enum Stage {
    /// Between slots, or looking up the plan.
    Slot,
    /// Importing the planned blocks.
    Import,
    /// Injecting the planned attestations.
    Attestations,
    /// Evaluating the head.
    Evaluation,
    /// Writing records.
    Output,
    /// The engine had stopped.
    Stopped,
}

/// Why the engine failed.
#[derive(Clone, Copy, Debug)]
pub enum Cause {
    /// The plan does not say what to do in the slot.
    MissingPlanEntry,
    /// There is no canonical block where the plan has one.
    CanonicalBlockMissing { slot: Slot },
    /// The block that was fetched is not the planned one.
    RootMismatch { slot: Slot, planned_root: Hash256, fetched_root: Hash256 },
    /// The block that was fetched is the planned one, but of another slot.
    SlotMismatch { root: Hash256, planned_slot: Slot, fetched_slot: Slot },
    /// The chain did not take a canonical block.
    CanonicalImportFailed,
    /// There is no block where the plan has a source of attestations.
    SourceBlockMissing { slot: Slot },
    /// What was asked for could not be done.
    Outside,
    /// What was replied does not answer what was asked for.
    UnexpectedReply,
}

/// What the engine waits for.
#[derive(Clone, Copy, Debug, PartialEq, Eq, Structural)]
pub enum Phase {
    /// To be started.
    Starting,
    SettingClock,
    /// The block for the import at `index`.
    FetchingImport { index: usize },
    /// The chain's verdict on the import at `index`.
    ProcessingImport { index: usize },
    /// The block for the source at `index`; `injected` attestations are in already.
    FetchingSource { index: usize, injected: u64 },
    /// The outcomes of `asked` attestations from the source at `index`.
    Injecting { index: usize, injected: u64, asked: usize },
    Evaluating { injected: u64 },
    Writing,
    Flushing,
    Finished,
    Aborted,
}

/// An `Action` with its vectors and texts as sequences.
pub enum Ask {
    SetClock { slot: Slot },
    FetchBlockAtSlot { slot: Slot },
    FetchBlockByRoot { root: Hash256 },
    ProcessBlock { root: Hash256 },
    InjectAttestations { source_slot: Slot, inject_slot: Slot, attestations: Seq<usize> },
    RecomputeHead { slot: Slot },
    WriteResult { record: SlotRecord, flush: bool },
    Flush,
    Finish { total_recorded: u64 },
    Abort { sim_slot: Slot, stage: Stage, cause: Cause },
}

impl View for Action {
    type V = Ask;

    open spec fn view(&self) -> Ask {
        match *self {
            Action::SetClock { slot } => Ask::SetClock { slot },
            Action::FetchBlockAtSlot { slot } => Ask::FetchBlockAtSlot { slot },
            Action::FetchBlockByRoot { root } => Ask::FetchBlockByRoot { root },
            Action::ProcessBlock { root } => Ask::ProcessBlock { root },
            Action::InjectAttestations { source_slot, inject_slot, attestations } =>
                Ask::InjectAttestations {
                source_slot,
                inject_slot,
                attestations: attestations@,
            },
            Action::RecomputeHead { slot } => Ask::RecomputeHead { slot },
            Action::WriteResult { result, flush } => Ask::WriteResult { record: result@, flush },
            Action::Flush => Ask::Flush,
            Action::Finish { total_recorded } => Ask::Finish { total_recorded },
            Action::Abort { sim_slot, stage, cause } => Ask::Abort { sim_slot, stage, cause },
        }
    }
}

/// The engine's state.
pub struct EngineState {
    pub config: EngineConfig,
    pub plan: Map<u64, PlanEntry>,
    /// The blocks that were fetched by slot, and the slots that have none.
    pub cache: Map<u64, Option<BlockSummary>>,
    pub slot: Slot,
    pub total_recorded: u64,
    pub phase: Phase,
}

/// The first slot that is simulated: the one after the checkpoint, or the first to be recorded
/// where that comes no later than the checkpoint.
pub open spec fn first_slot(config: EngineConfig) -> Slot {
    if config.warmup_start_slot < config.start_slot {
        (config.warmup_start_slot + 1) as u64
    } else {
        config.start_slot
    }
}

/// How many slots before `slot` are recorded.
pub open spec fn recorded_before(config: EngineConfig, slot: int) -> int {
    if slot > config.start_slot {
        slot - config.start_slot
    } else {
        0
    }
}

/// Whether the plan says what to do in each slot of the simulation.
pub open spec fn plan_is_complete(config: EngineConfig, plan: Map<u64, PlanEntry>) -> bool {
    forall|slot: u64|
        first_slot(config) <= slot < config.end_slot ==> #[trigger] plan.contains_key(slot)
}

/// The root of the first canonical block of `slot` among the imports.
pub open spec fn canonical_root(
    imports: Seq<PlanBlockImport>,
    slot: Slot,
    from: int,
) -> Option<Hash256>
    decreases imports.len() - from,
{
    if from < 0 || from >= imports.len() {
        None
    } else if imports[from].canonical && imports[from].slot == slot {
        Some(imports[from].root)
    } else {
        canonical_root(imports, slot, from + 1)
    }
}

/// The slot that a record names as the source of its attestations.
pub open spec fn reported_source(entry: PlanEntry) -> Option<Slot> {
    match entry.source_block_slot {
        Some(slot) => Some(slot),
        None => if entry.attestation_sources@.len() > 0 {
            Some(entry.attestation_sources@[0].slot)
        } else {
            None
        },
    }
}

/// Whether an attestation for `slot` is injected from a source with this limit.
pub open spec fn within(slot: Slot, max_slot: Option<Slot>) -> bool {
    match max_slot {
        Some(max_slot) => slot <= max_slot,
        None => true,
    }
}

/// The positions, among the first `count`, of the attestations within the limit.
pub open spec fn selected(slots: Seq<Slot>, max_slot: Option<Slot>, count: int) -> Seq<usize>
    decreases count,
{
    if count <= 0 {
        Seq::empty()
    } else if within(slots[count - 1], max_slot) {
        selected(slots, max_slot, count - 1).push((count - 1) as usize)
    } else {
        selected(slots, max_slot, count - 1)
    }
}

/// How many of the first `count` outcomes are that the attestation is in.
pub open spec fn injected_count(outcomes: Seq<AttestationOutcome>, count: int) -> nat
    decreases count,
{
    if count <= 0 {
        0
    } else {
        injected_count(outcomes, count - 1) + if outcomes[count - 1]
            == AttestationOutcome::Injected {
            1nat
        } else {
            0
        }
    }
}

impl EngineState {
    /// The state that waits for `phase`.
    pub open spec fn in_phase(self, phase: Phase) -> EngineState {
        EngineState { phase, ..self }
    }

    /// The state at another slot.
    pub open spec fn at_slot(self, slot: Slot) -> EngineState {
        EngineState { slot, ..self }
    }

    /// The state after a block, or that there is none, became known for a slot.
    pub open spec fn with_block(self, slot: Slot, block: Option<BlockSummary>) -> EngineState {
        EngineState { cache: self.cache.insert(slot, block), ..self }
    }

    /// The plan for the current slot.
    pub open spec fn entry(self) -> PlanEntry {
        self.plan[self.slot]
    }

    /// What must hold in every state: the current slot is one of the simulation while it is
    /// worked on, positions lie in its plan, what is fetched is not known yet, and every slot
    /// from the first to be recorded to the current one has a record.
    pub open spec fn valid(self) -> bool {
        let has_entry = self.plan.contains_key(self.slot);
        let running = self.slot < self.config.end_slot;
        &&& first_slot(self.config) <= self.slot
        &&& match self.phase {
            Phase::Writing => self.total_recorded == recorded_before(
                self.config,
                self.slot as int,
            ) + 1,
            Phase::Aborted => recorded_before(self.config, self.slot as int)
                <= self.total_recorded <= recorded_before(self.config, self.slot as int) + 1,
            _ => self.total_recorded == recorded_before(self.config, self.slot as int),
        }
        &&& match self.phase {
            Phase::Starting => self.slot == first_slot(self.config),
            Phase::SettingClock => running,
            Phase::FetchingImport { index } => {
                &&& running && has_entry
                &&& index < self.entry().import_blocks@.len()
                &&& self.entry().import_blocks@[index as int].canonical
                    ==> !self.cache.contains_key(self.entry().import_blocks@[index as int].slot)
            },
            Phase::ProcessingImport { index } => {
                running && has_entry && index < self.entry().import_blocks@.len()
            },
            Phase::FetchingSource { index, .. } => {
                &&& running && has_entry
                &&& index < self.entry().attestation_sources@.len()
                &&& !self.cache.contains_key(
                    self.entry().attestation_sources@[index as int].slot,
                )
            },
            Phase::Injecting { index, .. } => {
                running && has_entry && index < self.entry().attestation_sources@.len()
            },
            Phase::Evaluating { .. } => running && has_entry,
            Phase::Writing => running && self.config.start_slot <= self.slot,
            Phase::Flushing | Phase::Finished => {
                &&& !running
                &&& self.slot == self.config.end_slot || self.slot == first_slot(self.config)
            },
            Phase::Aborted => true,
        }
    }

    /// Whether the count of attestations that the reply adds to can hold them.
    pub open spec fn count_fits(self, event: Event) -> bool {
        match (self.phase, event) {
            (Phase::Injecting { injected, .. }, Event::Applied { outcomes }) => injected
                + outcomes@.len() <= u64::MAX,
            _ => true,
        }
    }

    /// What the engine is at.
    pub open spec fn stage(self) -> Stage {
        match self.phase {
            Phase::Starting | Phase::SettingClock => Stage::Slot,
            Phase::FetchingImport { .. } | Phase::ProcessingImport { .. } => Stage::Import,
            Phase::FetchingSource { .. } | Phase::Injecting { .. } => Stage::Attestations,
            Phase::Evaluating { .. } => Stage::Evaluation,
            Phase::Writing | Phase::Flushing => Stage::Output,
            Phase::Finished | Phase::Aborted => Stage::Stopped,
        }
    }

    /// Gives up for `cause`.
    pub open spec fn abort(self, stage: Stage, cause: Cause) -> (EngineState, Ask) {
        (self.in_phase(Phase::Aborted), Ask::Abort { sim_slot: self.slot, stage, cause })
    }

    /// Goes on with the current slot, or to the end where it is past the last.
    pub open spec fn enter_slot(self) -> (EngineState, Ask) {
        if self.slot < self.config.end_slot {
            (self.in_phase(Phase::SettingClock), Ask::SetClock { slot: self.slot })
        } else {
            (self.in_phase(Phase::Flushing), Ask::Flush)
        }
    }

    /// Goes on with the import at `index`, for which `block` was found: only the planned block
    /// itself is handed to the chain.
    pub open spec fn check_import(self, index: int, block: BlockSummary) -> (EngineState, Ask) {
        let import = self.entry().import_blocks@[index];
        if block.root != import.root {
            self.abort(
                Stage::Import,
                Cause::RootMismatch {
                    slot: import.slot,
                    planned_root: import.root,
                    fetched_root: block.root,
                },
            )
        } else if block.slot != import.slot {
            self.abort(
                Stage::Import,
                Cause::SlotMismatch {
                    root: import.root,
                    planned_slot: import.slot,
                    fetched_slot: block.slot,
                },
            )
        } else {
            (
                self.in_phase(Phase::ProcessingImport { index: index as usize }),
                Ask::ProcessBlock { root: import.root },
            )
        }
    }

    /// Goes on with the imports from `index` on, and with the sources after the last.
    pub open spec fn ask_import(self, index: int) -> (EngineState, Ask) {
        let imports = self.entry().import_blocks@;
        if index < 0 || index >= imports.len() {
            self.ask_source(0, 0)
        } else {
            let import = imports[index];
            let waiting = self.in_phase(Phase::FetchingImport { index: index as usize });
            if !import.canonical {
                (waiting, Ask::FetchBlockByRoot { root: import.root })
            } else if !self.cache.contains_key(import.slot) {
                (waiting, Ask::FetchBlockAtSlot { slot: import.slot })
            } else {
                match self.cache[import.slot] {
                    None => self.abort(
                        Stage::Import,
                        Cause::CanonicalBlockMissing { slot: import.slot },
                    ),
                    Some(block) => self.check_import(index, block),
                }
            }
        }
    }

    /// Goes on with the sources from `index` on, and with the head after the last.
    pub open spec fn ask_source(self, index: int, injected: u64) -> (EngineState, Ask)
        decreases self.entry().attestation_sources@.len() - index,
    {
        let sources = self.entry().attestation_sources@;
        if index < 0 || index >= sources.len() {
            (
                self.in_phase(Phase::Evaluating { injected }),
                Ask::RecomputeHead { slot: self.entry().eval_slot },
            )
        } else {
            let source = sources[index];
            if !self.cache.contains_key(source.slot) {
                (
                    self.in_phase(Phase::FetchingSource { index: index as usize, injected }),
                    Ask::FetchBlockAtSlot { slot: source.slot },
                )
            } else {
                match self.cache[source.slot] {
                    None => self.abort(
                        Stage::Attestations,
                        Cause::SourceBlockMissing { slot: source.slot },
                    ),
                    Some(block) => {
                        let attestations = selected(
                            block.attestation_slots@,
                            source.max_attestation_slot,
                            block.attestation_slots@.len() as int,
                        );
                        if attestations.len() == 0 {
                            self.ask_source(index + 1, injected)
                        } else {
                            (
                                self.in_phase(
                                    Phase::Injecting {
                                        index: index as usize,
                                        injected,
                                        asked: attestations.len() as usize,
                                    },
                                ),
                                Ask::InjectAttestations {
                                    source_slot: source.slot,
                                    inject_slot: (self.slot + 1) as u64,
                                    attestations,
                                },
                            )
                        }
                    },
                }
            }
        }
    }

    /// What the engine does with a reply to the import at `index`.
    pub open spec fn import_fetched(self, index: int, block: Option<BlockSummary>) -> (
        EngineState,
        Ask,
    ) {
        let import = self.entry().import_blocks@[index];
        if import.canonical {
            self.with_block(import.slot, block).ask_import(index)
        } else {
            match block {
                Some(block) => self.check_import(index, block),
                None => self.ask_import(index + 1),
            }
        }
    }

    /// What the engine does with the chain's verdict on the import at `index`.
    pub open spec fn import_processed(self, index: int, imported: bool) -> (EngineState, Ask) {
        if !imported && self.entry().import_blocks@[index].canonical {
            self.abort(Stage::Import, Cause::CanonicalImportFailed)
        } else {
            self.ask_import(index + 1)
        }
    }

    /// What is known of the current slot when its head is evaluated.
    pub open spec fn facts(self, injected: u64, elapsed_micros: u128) -> SlotFacts {
        SlotFacts {
            slot: self.slot,
            block_root: canonical_root(self.entry().import_blocks@, self.slot, 0),
            source_block_slot: reported_source(self.entry()),
            num_attestations_injected: injected,
            fcr_eval_duration_us: reported_micros(elapsed_micros),
        }
    }

    /// What the engine does once the head is evaluated: a slot to be recorded is.
    pub open spec fn evaluated(self, injected: u64, head: HeadReport, elapsed_micros: u128) -> (
        EngineState,
        Ask,
    ) {
        if self.slot >= self.config.start_slot {
            let total_recorded = (self.total_recorded + 1) as u64;
            (
                EngineState { total_recorded, phase: Phase::Writing, ..self },
                Ask::WriteResult {
                    record: slot_record(self.facts(injected, elapsed_micros), head),
                    flush: is_flush_due(total_recorded),
                },
            )
        } else {
            self.at_slot((self.slot + 1) as u64).enter_slot()
        }
    }

    /// What the engine does with a reply: the state after it, and what is asked for next.
    pub open spec fn next(self, event: Event) -> (EngineState, Ask) {
        match (self.phase, event) {
            (Phase::Starting, Event::Done) => self.enter_slot(),
            (Phase::SettingClock, Event::Done) => if self.plan.contains_key(self.slot) {
                self.ask_import(0)
            } else {
                self.abort(Stage::Slot, Cause::MissingPlanEntry)
            },
            (Phase::FetchingImport { index }, Event::Fetched { block }) => self.import_fetched(
                index as int,
                block,
            ),
            (Phase::ProcessingImport { index }, Event::Processed { imported }) =>
                self.import_processed(index as int, imported),
            (Phase::FetchingSource { index, injected }, Event::Fetched { block }) => {
                self.with_block(
                    self.entry().attestation_sources@[index as int].slot,
                    block,
                ).ask_source(index as int, injected)
            },
            (Phase::Injecting { index, injected, asked }, Event::Applied { outcomes }) => {
                if outcomes@.len() == asked {
                    self.ask_source(
                        index + 1,
                        (injected + injected_count(outcomes@, outcomes@.len() as int)) as u64,
                    )
                } else {
                    self.abort(self.stage(), Cause::UnexpectedReply)
                }
            },
            (Phase::Evaluating { injected }, Event::Evaluated { head, elapsed_micros }) =>
                self.evaluated(injected, head, elapsed_micros),
            (Phase::Writing, Event::Done) => self.at_slot((self.slot + 1) as u64).enter_slot(),
            (Phase::Flushing, Event::Done) => (
                self.in_phase(Phase::Finished),
                Ask::Finish { total_recorded: self.total_recorded },
            ),
            (_, Event::Failed) => self.abort(self.stage(), Cause::Outside),
            _ => self.abort(self.stage(), Cause::UnexpectedReply),
        }
    }
}

proof fn lemma_entry_lengths(entry: PlanEntry)
    ensures
        entry.import_blocks@.len() <= usize::MAX,
        entry.attestation_sources@.len() <= usize::MAX,
{
    assert(entry.import_blocks.len() == entry.import_blocks@.len());
    assert(entry.attestation_sources.len() == entry.attestation_sources@.len());
}

impl EngineState {
    proof fn lemma_ask_source(self, index: int, injected: u64)
        requires
            first_slot(self.config) <= self.slot < self.config.end_slot,
            self.plan.contains_key(self.slot),
            self.total_recorded == recorded_before(self.config, self.slot as int),
            0 <= index,
        ensures
            self.ask_source(index, injected).0.valid(),
        decreases self.entry().attestation_sources@.len() - index,
    {
        lemma_entry_lengths(self.entry());
        if index < self.entry().attestation_sources@.len() {
            self.lemma_ask_source(index + 1, injected);
        }
    }

    proof fn lemma_ask_import(self, index: int)
        requires
            first_slot(self.config) <= self.slot < self.config.end_slot,
            self.plan.contains_key(self.slot),
            self.total_recorded == recorded_before(self.config, self.slot as int),
            0 <= index,
        ensures
            self.ask_import(index).0.valid(),
    {
        lemma_entry_lengths(self.entry());
        self.lemma_ask_source(0, 0);
    }

    /// Whatever the reply, a valid state is followed by a valid one.
    pub proof fn next_keeps_validity(self, event: Event)
        requires
            self.valid(),
        ensures
            self.next(event).0.valid(),
    {
        let slot = self.slot;
        lemma_entry_lengths(self.entry());
        match (self.phase, event) {
            (Phase::SettingClock, Event::Done) => {
                if self.plan.contains_key(slot) {
                    self.lemma_ask_import(0);
                }
            },
            (Phase::FetchingImport { index }, Event::Fetched { block }) => {
                let import = self.entry().import_blocks@[index as int];
                self.with_block(import.slot, block).lemma_ask_import(index as int);
                self.lemma_ask_import(index + 1);
            },
            (Phase::ProcessingImport { index }, Event::Processed { imported }) => {
                self.lemma_ask_import(index + 1);
            },
            (Phase::FetchingSource { index, injected }, Event::Fetched { block }) => {
                let source = self.entry().attestation_sources@[index as int];
                self.with_block(source.slot, block).lemma_ask_source(index as int, injected);
            },
            (Phase::Injecting { index, injected, asked }, Event::Applied { outcomes }) => {
                self.lemma_ask_source(
                    index + 1,
                    (injected + injected_count(outcomes@, outcomes@.len() as int)) as u64,
                );
            },
            _ => {},
        }
    }
}

/// The engine.
pub struct Engine {
    config: EngineConfig,
    plan: AttestationPlan,
    block_cache: HashMap<u64, Option<BlockSummary>>,
    slot: Slot,
    total_recorded: u64,
    phase: Phase,
}

impl View for Engine {
    type V = EngineState;

    closed spec fn view(&self) -> EngineState {
        EngineState {
            config: self.config,
            plan: self.plan@,
            cache: self.block_cache@,
            slot: self.slot,
            total_recorded: self.total_recorded,
            phase: self.phase,
        }
    }
}

/// The first slot of the simulation that the plan says nothing about.
pub open spec fn is_first_missing(
    config: EngineConfig,
    plan: Map<u64, PlanEntry>,
    slot: Slot,
) -> bool {
    &&& first_slot(config) <= slot < config.end_slot
    &&& !plan.contains_key(slot)
    &&& forall|before: u64|
        first_slot(config) <= before < slot ==> #[trigger] plan.contains_key(before)
}

impl Engine {
    /// An engine that is to be started, for a plan that covers the whole simulation; else the
    /// first slot that the plan says nothing about.
    pub fn new(config: EngineConfig, plan: AttestationPlan) -> (res: Result<Engine, Slot>)
        ensures
            match res {
                Ok(engine) => {
                    &&& plan_is_complete(config, plan@)
                    &&& engine@ == (EngineState {
                        config,
                        plan: plan@,
                        cache: Map::empty(),
                        slot: first_slot(config),
                        total_recorded: 0,
                        phase: Phase::Starting,
                    })
                    &&& engine@.valid()
                },
                Err(slot) => is_first_missing(config, plan@, slot),
            },
    {
        let first: Slot = config.first_slot();
        let mut sim_slot: Slot = first;
        while sim_slot < config.end_slot
            invariant
                first == first_slot(config),
                first <= sim_slot,
                forall|before: u64|
                    first <= before < sim_slot ==> #[trigger] plan@.contains_key(before),
            decreases config.end_slot - sim_slot,
        {
            if !plan.contains_key(&sim_slot) {
                return Err(sim_slot);
            }
            sim_slot = sim_slot + 1;
        }
        Ok(
            Engine {
                config,
                plan,
                block_cache: HashMap::new(),
                slot: first,
                total_recorded: 0,
                phase: Phase::Starting,
            },
        )
    }

    fn abort(&mut self, stage: Stage, cause: Cause) -> (res: Action)
        ensures
            (final(self)@, res@) == old(self)@.abort(stage, cause),
    {
        self.phase = Phase::Aborted;
        Action::Abort { sim_slot: self.slot, stage, cause }
    }

    fn enter_slot(&mut self) -> (res: Action)
        ensures
            (final(self)@, res@) == old(self)@.enter_slot(),
    {
        if self.slot < self.config.end_slot {
            self.phase = Phase::SettingClock;
            Action::SetClock { slot: self.slot }
        } else {
            self.phase = Phase::Flushing;
            Action::Flush
        }
    }

    fn source_at(&self, index: usize) -> (res: Option<PlanAttestationSource>)
        requires
            self@.plan.contains_key(self@.slot),
        ensures
            res == if index < self@.entry().attestation_sources@.len() {
                Some(self@.entry().attestation_sources@[index as int])
            } else {
                None
            },
            res is Some ==> index < usize::MAX,
    {
        match self.plan.get(&self.slot) {
            Some(entry) => if index < entry.attestation_sources.len() {
                Some(entry.attestation_sources[index])
            } else {
                None
            },
            None => None,
        }
    }

    fn import_at(&self, index: usize) -> (res: Option<PlanBlockImport>)
        requires
            self@.plan.contains_key(self@.slot),
        ensures
            res == if index < self@.entry().import_blocks@.len() {
                Some(self@.entry().import_blocks@[index as int])
            } else {
                None
            },
            res is Some ==> index < usize::MAX,
    {
        match self.plan.get(&self.slot) {
            Some(entry) => if index < entry.import_blocks.len() {
                Some(entry.import_blocks[index])
            } else {
                None
            },
            None => None,
        }
    }

    fn eval_slot(&self) -> (res: Slot)
        requires
            self@.plan.contains_key(self@.slot),
        ensures
            res == self@.entry().eval_slot,
    {
        match self.plan.get(&self.slot) {
            Some(entry) => entry.eval_slot,
            None => self.slot,
        }
    }

    fn ask_source(&mut self, from: usize, injected: u64) -> (res: Action)
        requires
            old(self)@.plan.contains_key(old(self)@.slot),
            old(self)@.slot < u64::MAX,
            from <= old(self)@.entry().attestation_sources@.len(),
        ensures
            (final(self)@, res@) == old(self)@.ask_source(from as int, injected),
    {
        let mut index: usize = from;
        loop
            invariant
                *self == *old(self),
                self@.plan.contains_key(self@.slot),
                self@.slot < u64::MAX,
                from <= index <= self@.entry().attestation_sources@.len(),
                self@.ask_source(from as int, injected) == self@.ask_source(
                    index as int,
                    injected,
                ),
            decreases self@.entry().attestation_sources@.len() - index,
        {
            let source = match self.source_at(index) {
                Some(source) => source,
                None => {
                    let slot = self.eval_slot();
                    self.phase = Phase::Evaluating { injected };
                    return Action::RecomputeHead { slot };
                },
            };
            let attestations = match self.block_cache.get(&source.slot) {
                None => {
                    self.phase = Phase::FetchingSource { index, injected };
                    return Action::FetchBlockAtSlot { slot: source.slot };
                },
                Some(None) => {
                    return self.abort(
                        Stage::Attestations,
                        Cause::SourceBlockMissing { slot: source.slot },
                    );
                },
                Some(Some(block)) => select_attestations(
                    &block.attestation_slots,
                    source.max_attestation_slot,
                ),
            };
            if attestations.len() > 0 {
                let asked = attestations.len();
                self.phase = Phase::Injecting { index, injected, asked };
                return Action::InjectAttestations {
                    source_slot: source.slot,
                    inject_slot: self.slot + 1,
                    attestations,
                };
            }
            index = index + 1;
        }
    }

    /// Hands the block that was found for an import to the chain, if it is the planned one.
    fn check_import(
        &mut self,
        index: usize,
        import: PlanBlockImport,
        root: Hash256,
        slot: Slot,
    ) -> (res: Action)
        requires
            index < old(self)@.entry().import_blocks@.len(),
            import == old(self)@.entry().import_blocks@[index as int],
        ensures
            forall|block: BlockSummary|
                block.root == root && block.slot == slot ==> (final(self)@, res@) == old(
                    self,
                )@.check_import(index as int, block),
    {
        if root != import.root {
            return self.abort(
                Stage::Import,
                Cause::RootMismatch {
                    slot: import.slot,
                    planned_root: import.root,
                    fetched_root: root,
                },
            );
        }
        if slot != import.slot {
            return self.abort(
                Stage::Import,
                Cause::SlotMismatch {
                    root: import.root,
                    planned_slot: import.slot,
                    fetched_slot: slot,
                },
            );
        }
        self.phase = Phase::ProcessingImport { index };
        Action::ProcessBlock { root: import.root }
    }

    fn ask_import(&mut self, index: usize) -> (res: Action)
        requires
            old(self)@.plan.contains_key(old(self)@.slot),
            old(self)@.slot < u64::MAX,
        ensures
            (final(self)@, res@) == old(self)@.ask_import(index as int),
    {
        let import = match self.import_at(index) {
            Some(import) => import,
            None => {
                return self.ask_source(0, 0);
            },
        };
        if !import.canonical {
            self.phase = Phase::FetchingImport { index };
            return Action::FetchBlockByRoot { root: import.root };
        }
        match self.block_cache.get(&import.slot) {
            None => {
                self.phase = Phase::FetchingImport { index };
                Action::FetchBlockAtSlot { slot: import.slot }
            },
            Some(None) => self.abort(
                Stage::Import,
                Cause::CanonicalBlockMissing { slot: import.slot },
            ),
            Some(Some(block)) => {
                let root = block.root;
                let slot = block.slot;
                self.check_import(index, import, root, slot)
            },
        }
    }

    fn import_fetched(&mut self, index: usize, block: Option<BlockSummary>) -> (res: Action)
        requires
            old(self)@.plan.contains_key(old(self)@.slot),
            old(self)@.slot < u64::MAX,
            index < old(self)@.entry().import_blocks@.len(),
        ensures
            (final(self)@, res@) == old(self)@.import_fetched(index as int, block),
    {
        let import = match self.import_at(index) {
            Some(import) => import,
            None => {
                return self.ask_source(0, 0);
            },
        };
        if import.canonical {
            self.block_cache.insert(import.slot, block);
            return self.ask_import(index);
        }
        match block {
            Some(block) => self.check_import(index, import, block.root, block.slot),
            None => self.ask_import(index + 1),
        }
    }

    fn import_processed(&mut self, index: usize, imported: bool) -> (res: Action)
        requires
            old(self)@.plan.contains_key(old(self)@.slot),
            old(self)@.slot < u64::MAX,
            index < old(self)@.entry().import_blocks@.len(),
        ensures
            (final(self)@, res@) == old(self)@.import_processed(index as int, imported),
    {
        let import = match self.import_at(index) {
            Some(import) => import,
            None => {
                return self.ask_source(0, 0);
            },
        };
        if !imported && import.canonical {
            return self.abort(Stage::Import, Cause::CanonicalImportFailed);
        }
        self.ask_import(index + 1)
    }

    fn facts(&self, injected: u64, elapsed_micros: u128) -> (res: SlotFacts)
        requires
            self@.plan.contains_key(self@.slot),
        ensures
            res == self@.facts(injected, elapsed_micros),
    {
        let (block_root, source_block_slot) = match self.plan.get(&self.slot) {
            Some(entry) => (
                canonical_import_root(&entry.import_blocks, self.slot),
                match entry.source_block_slot {
                    Some(slot) => Some(slot),
                    None => if entry.attestation_sources.len() > 0 {
                        Some(entry.attestation_sources[0].slot)
                    } else {
                        None
                    },
                },
            ),
            None => (None, None),
        };
        SlotFacts {
            slot: self.slot,
            block_root,
            source_block_slot,
            num_attestations_injected: injected,
            fcr_eval_duration_us: micros_since(elapsed_micros),
        }
    }

    fn evaluated(&mut self, injected: u64, head: &HeadReport, elapsed_micros: u128) -> (res: Action)
        requires
            old(self)@.plan.contains_key(old(self)@.slot),
            old(self)@.slot < u64::MAX,
            old(self)@.total_recorded < u64::MAX,
        ensures
            (final(self)@, res@) == old(self)@.evaluated(injected, *head, elapsed_micros),
    {
        if self.slot >= self.config.start_slot {
            let facts = self.facts(injected, elapsed_micros);
            let result = build_slot_result(&facts, head);
            self.total_recorded = self.total_recorded + 1;
            self.phase = Phase::Writing;
            return Action::WriteResult { result, flush: flush_if_needed(self.total_recorded) };
        }
        self.slot = self.slot + 1;
        self.enter_slot()
    }

    fn stage(&self) -> (res: Stage)
        ensures
            res == self@.stage(),
    {
        match self.phase {
            Phase::Starting | Phase::SettingClock => Stage::Slot,
            Phase::FetchingImport { .. } | Phase::ProcessingImport { .. } => Stage::Import,
            Phase::FetchingSource { .. } | Phase::Injecting { .. } => Stage::Attestations,
            Phase::Evaluating { .. } => Stage::Evaluation,
            Phase::Writing | Phase::Flushing => Stage::Output,
            Phase::Finished | Phase::Aborted => Stage::Stopped,
        }
    }

    /// Whether the count of attestations that the reply adds to can hold them.
    pub fn count_fits(&self, event: &Event) -> (res: bool)
        ensures
            res == self@.count_fits(*event),
    {
        match (self.phase, event) {
            (Phase::Injecting { injected, .. }, Event::Applied { outcomes }) => outcomes.len() as u64
                <= u64::MAX - injected,
            _ => true,
        }
    }

    /// Takes the reply to what was asked for last, and asks for what comes next. The first
    /// reply, which starts the engine, is `Event::Done`.
    pub fn step(&mut self, event: Event) -> (res: Action)
        requires
            old(self)@.valid(),
            old(self)@.count_fits(event),
        ensures
            (final(self)@, res@) == old(self)@.next(event),
            final(self)@.valid(),
    {
        proof {
            self@.next_keeps_validity(event);
            lemma_entry_lengths(self@.entry());
        }
        match (self.phase, event) {
            (Phase::Starting, Event::Done) => self.enter_slot(),
            (Phase::SettingClock, Event::Done) => if self.plan.contains_key(&self.slot) {
                self.ask_import(0)
            } else {
                self.abort(Stage::Slot, Cause::MissingPlanEntry)
            },
            (Phase::FetchingImport { index }, Event::Fetched { block }) => self.import_fetched(
                index,
                block,
            ),
            (Phase::ProcessingImport { index }, Event::Processed { imported }) =>
                self.import_processed(index, imported),
            (Phase::FetchingSource { index, injected }, Event::Fetched { block }) => {
                if let Some(source) = self.source_at(index) {
                    self.block_cache.insert(source.slot, block);
                }
                self.ask_source(index, injected)
            },
            (Phase::Injecting { index, injected, asked }, Event::Applied { outcomes }) => {
                if outcomes.len() == asked {
                    let count = count_injected(&outcomes);
                    self.ask_source(index + 1, injected + count)
                } else {
                    let stage = self.stage();
                    self.abort(stage, Cause::UnexpectedReply)
                }
            },
            (Phase::Evaluating { injected }, Event::Evaluated { head, elapsed_micros }) =>
                self.evaluated(injected, &head, elapsed_micros),
            (Phase::Writing, Event::Done) => {
                self.slot = self.slot + 1;
                self.enter_slot()
            },
            (Phase::Flushing, Event::Done) => {
                self.phase = Phase::Finished;
                Action::Finish { total_recorded: self.total_recorded }
            },
            (_, Event::Failed) => {
                let stage = self.stage();
                self.abort(stage, Cause::Outside)
            },
            _ => {
                let stage = self.stage();
                self.abort(stage, Cause::UnexpectedReply)
            },
        }
    }
}

/// The positions of the attestations within the limit.
pub fn select_attestations(slots: &Vec<Slot>, max_slot: Option<Slot>) -> (res: Vec<usize>)
    ensures
        res@ == selected(slots@, max_slot, slots@.len() as int),
{
    let mut res: Vec<usize> = Vec::new();
    let mut i: usize = 0;
    while i < slots.len()
        invariant
            0 <= i <= slots@.len(),
            res@ == selected(slots@, max_slot, i as int),
        decreases slots@.len() - i,
    {
        let keep = match max_slot {
            Some(max_slot) => slots[i] <= max_slot,
            None => true,
        };
        if keep {
            res.push(i);
        }
        i = i + 1;
    }
    res
}

/// How many attestations are in.
pub fn count_injected(outcomes: &Vec<AttestationOutcome>) -> (res: u64)
    ensures
        res == injected_count(outcomes@, outcomes@.len() as int),
        res <= outcomes@.len(),
{
    let mut count: u64 = 0;
    let mut i: usize = 0;
    while i < outcomes.len()
        invariant
            0 <= i <= outcomes@.len(),
            count == injected_count(outcomes@, i as int),
            count <= i,
        decreases outcomes@.len() - i,
    {
        if outcomes[i] == AttestationOutcome::Injected {
            count = count + 1;
        }
        i = i + 1;
    }
    count
}

/// The root of the first canonical block of `slot` among the imports.
pub fn canonical_import_root(imports: &Vec<PlanBlockImport>, slot: Slot) -> (res: Option<Hash256>)
    ensures
        res == canonical_root(imports@, slot, 0),
{
    let mut i: usize = 0;
    while i < imports.len()
        invariant
            0 <= i <= imports@.len(),
            canonical_root(imports@, slot, 0) == canonical_root(imports@, slot, i as int),
        decreases imports@.len() - i,
    {
        if imports[i].canonical && imports[i].slot == slot {
            return Some(imports[i].root);
        }
        i = i + 1;
    }
    None
}

/// What an action asks for is what it says: each kind of action is one kind of request, with the
/// same slots, roots and positions, and with the record that its result stands for.
pub proof fn an_action_asks_for_what_it_says(action: Action)
    ensures
        match action {
            Action::SetClock { slot } => action@ == (Ask::SetClock { slot }),
            Action::FetchBlockAtSlot { slot } => action@ == (Ask::FetchBlockAtSlot { slot }),
            Action::FetchBlockByRoot { root } => action@ == (Ask::FetchBlockByRoot { root }),
            Action::ProcessBlock { root } => action@ == (Ask::ProcessBlock { root }),
            Action::InjectAttestations { source_slot, inject_slot, attestations } => {
                &&& action@ matches Ask::InjectAttestations {
                    source_slot: source,
                    inject_slot: inject,
                    attestations: positions,
                } && source == source_slot && inject == inject_slot && positions == attestations@
            },
            Action::RecomputeHead { slot } => action@ == (Ask::RecomputeHead { slot }),
            Action::WriteResult { result, flush } => action@ matches Ask::WriteResult {
                record,
                flush: flushed,
            } && record == result@ && flushed == flush,
            Action::Flush => action@ is Flush,
            Action::Finish { total_recorded } => action@ == (Ask::Finish { total_recorded }),
            Action::Abort { sim_slot, stage, cause } => action@ == (Ask::Abort {
                sim_slot,
                stage,
                cause,
            }),
        },
{
}

} // verus!
