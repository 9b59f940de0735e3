//! What must be had before a simulation can start, in the order in which it is asked for.
use vstd::prelude::*;

use crate::config::Config;
use crate::hash256::root_text;
use crate::hash256::Hash256;
use crate::http::fetcher::addresses_of_blocks_name_the_block;
use crate::http::fetcher::addresses_of_states_name_the_slot;
use crate::http::fetcher::block_by_root_url_text;
use crate::http::fetcher::genesis_url_text;
use crate::http::fetcher::state_url_text;
use crate::http::fetcher::BeaconFetcher;
use crate::http::fetcher::Request;
use crate::http::plan::a_plan_says_what_was_sent;
use crate::http::plan::addresses_of_plans_name_the_slots;
use crate::http::plan::attestation_plan;
use crate::http::plan::plan_failure;
use crate::http::plan::plan_holds;
use crate::http::plan::plan_url;
use crate::http::plan::plan_url_text;
use crate::http::plan::PlanEntryWire;
use crate::http::plan::PlanError;
use crate::http::plan::PlanResponse;
use crate::http::without_trailing_slashes;
use crate::sim::engine::first_slot;
use crate::sim::engine::plan_is_complete;
use crate::sim::engine::BlockSummary;
use crate::sim::engine::Engine;
use crate::sim::engine::EngineConfig;
use crate::sim::engine::EngineState;
use crate::sim::engine::Phase;
use crate::text;
use crate::types::Slot;

verus! {

/// What is asked for to prepare a simulation.
#[derive(Debug)]
pub enum BootAction {
    /// Fetch the state that the simulation starts from, and find the root of its latest block.
    FetchCheckpointState { request: Request },
    /// Fetch that block.
    FetchCheckpointBlock { request: Request },
    FetchGenesisState { request: Request },
    /// Build a chain from the two states and the block.
    BuildChain { byzantine_threshold: u64 },
    FetchPlan { url: String },
    /// Create the file that the records are written to.
    OpenOutput,
    /// The simulation can start.
    Ready,
    /// The simulation cannot start.
    Fail { error: BootError },
}

/// How what was asked for turned out.
#[derive(Debug)]
pub enum BootEvent {
    CheckpointState { block_root: Hash256 },
    /// Whether the block was found.
    CheckpointBlock { found: bool },
    Plan { response: PlanResponse },
    /// It is done, and there is nothing to say about it.
    Done,
    /// It could not be done.
    Failed,
}

/// What is waited for.
#[derive(Clone, Copy, Debug, PartialEq, Eq, Structural)]
pub enum BootPhase {
    CheckpointState,
    CheckpointBlock,
    GenesisState,
    Chain,
    Plan,
    Output,
    /// Nothing: all was had.
    Ready,
    /// Nothing: something was not had.
    Failed,
}

/// Why a simulation cannot start.
#[derive(Clone, Copy, Debug)]
pub enum BootError {
    /// What was waited for could not be done.
    Outside { phase: BootPhase },
    /// The latest block of the state that the simulation starts from was not found.
    CheckpointBlockMissing { root: Hash256 },
    BadPlan { cause: PlanError },
    /// The plan says nothing about this slot, nor need it about later ones.
    IncompletePlan { sim_slot: Slot },
    /// What was replied does not answer what was asked for.
    UnexpectedReply,
}

/// What is asked for, with addresses by their characters.
pub enum BootAsk {
    FetchCheckpointState { url: Seq<char>, may_be_absent: bool },
    FetchCheckpointBlock { url: Seq<char>, may_be_absent: bool },
    FetchGenesisState { url: Seq<char>, may_be_absent: bool },
    BuildChain { byzantine_threshold: u64 },
    FetchPlan { url: Seq<char> },
    OpenOutput,
    Ready,
    Fail { error: BootError },
}

impl View for BootAction {
    type V = BootAsk;

    open spec fn view(&self) -> BootAsk {
        match self {
            BootAction::FetchCheckpointState { request } => BootAsk::FetchCheckpointState {
                url: request.url@,
                may_be_absent: request.may_be_absent,
            },
            BootAction::FetchCheckpointBlock { request } => BootAsk::FetchCheckpointBlock {
                url: request.url@,
                may_be_absent: request.may_be_absent,
            },
            BootAction::FetchGenesisState { request } => BootAsk::FetchGenesisState {
                url: request.url@,
                may_be_absent: request.may_be_absent,
            },
            BootAction::BuildChain { byzantine_threshold } => BootAsk::BuildChain {
                byzantine_threshold: *byzantine_threshold,
            },
            BootAction::FetchPlan { url } => BootAsk::FetchPlan { url: url@ },
            BootAction::OpenOutput => BootAsk::OpenOutput,
            BootAction::Ready => BootAsk::Ready,
            BootAction::Fail { error } => BootAsk::Fail { error: *error },
        }
    }
}

/// Whether a plan has an entry for a slot.
pub open spec fn is_planned(entries: Seq<PlanEntryWire>, slot: Slot) -> bool {
    exists|k: int| 0 <= k < entries.len() && #[trigger] entries[k].sim_slot == slot
}

/// Whether a slot is the first of a simulation that a plan has no entry for.
pub open spec fn is_first_unplanned(
    config: EngineConfig,
    entries: Seq<PlanEntryWire>,
    slot: Slot,
) -> bool {
    &&& first_slot(config) <= slot < config.end_slot
    &&& !is_planned(entries, slot)
    &&& forall|before: u64|
        first_slot(config) <= before < slot ==> #[trigger] is_planned(entries, before)
}

/// Whether an engine is to be started with the plan that a response holds.
pub open spec fn starts_with(
    engine: EngineState,
    config: EngineConfig,
    response: PlanResponse,
) -> bool {
    &&& engine.valid()
    &&& engine.config == config
    &&& engine.phase == Phase::Starting
    &&& engine.slot == first_slot(config)
    &&& engine.total_recorded == 0
    &&& engine.cache == Map::<u64, Option<BlockSummary>>::empty()
    &&& plan_holds(engine.plan, response.entries@, response.entries@.len() as int)
    &&& plan_is_complete(config, engine.plan)
}

/// How far the preparation of a simulation is.
pub struct BootState {
    pub beacon_node_url: Seq<char>,
    pub config: EngineConfig,
    pub byzantine_threshold: u64,
    pub phase: BootPhase,
    /// The root of the latest block of the state that the simulation starts from, once known.
    pub checkpoint_root: Option<Hash256>,
    /// The engine, once the plan was had.
    pub engine: Option<EngineState>,
}

impl BootState {
    /// The address that request paths are appended to.
    pub open spec fn base(self) -> Seq<char> {
        without_trailing_slashes(self.beacon_node_url)
    }

    /// There is an engine, with a plan for the whole simulation, once the plan was had and not
    /// before; and the root of the block is known once it is asked for.
    pub open spec fn valid(self) -> bool {
        &&& self.phase == BootPhase::CheckpointBlock ==> self.checkpoint_root is Some
        &&& (self.phase == BootPhase::Output || self.phase == BootPhase::Ready)
            ==> self.engine is Some
        &&& self.engine is Some ==> {
            &&& self.phase == BootPhase::Output || self.phase == BootPhase::Ready || self.phase
                == BootPhase::Failed
            &&& self.engine->0.valid()
            &&& self.engine->0.config == self.config
            &&& self.engine->0.phase == Phase::Starting
            &&& plan_is_complete(self.config, self.engine->0.plan)
        }
    }

    pub open spec fn in_phase(self, phase: BootPhase) -> BootState {
        BootState { phase, ..self }
    }

    /// The preparation has failed.
    pub open spec fn failed(self, error: BootError) -> (BootState, BootAsk) {
        (self.in_phase(BootPhase::Failed), BootAsk::Fail { error })
    }

    /// Whether an event leads from this state to another, with another thing asked for.
    pub open spec fn steps_to(self, event: BootEvent, next: BootState, ask: BootAsk) -> bool {
        match (self.phase, event) {
            (BootPhase::Ready, _) => (next, ask) == self.failed(BootError::UnexpectedReply),
            (BootPhase::Failed, _) => (next, ask) == self.failed(BootError::UnexpectedReply),
            (phase, BootEvent::Failed) => (next, ask) == self.failed(BootError::Outside { phase }),
            (BootPhase::CheckpointState, BootEvent::CheckpointState { block_root }) => {
                &&& next == (BootState {
                    phase: BootPhase::CheckpointBlock,
                    checkpoint_root: Some(block_root),
                    ..self
                })
                &&& ask == (BootAsk::FetchCheckpointBlock {
                    url: block_by_root_url_text(self.base(), block_root@),
                    may_be_absent: true,
                })
            },
            (BootPhase::CheckpointBlock, BootEvent::CheckpointBlock { found }) => if found {
                &&& next == self.in_phase(BootPhase::GenesisState)
                &&& ask == (BootAsk::FetchGenesisState {
                    url: genesis_url_text(self.base()),
                    may_be_absent: false,
                })
            } else {
                (next, ask) == self.failed(
                    BootError::CheckpointBlockMissing { root: self.checkpoint_root->0 },
                )
            },
            (BootPhase::GenesisState, BootEvent::Done) => {
                &&& next == self.in_phase(BootPhase::Chain)
                &&& ask == (BootAsk::BuildChain { byzantine_threshold: self.byzantine_threshold })
            },
            (BootPhase::Chain, BootEvent::Done) => {
                &&& next == self.in_phase(BootPhase::Plan)
                &&& ask == (BootAsk::FetchPlan {
                    url: plan_url_text(
                        self.beacon_node_url,
                        first_slot(self.config),
                        self.config.end_slot,
                    ),
                })
            },
            (BootPhase::Plan, BootEvent::Plan { response }) => match plan_failure(response) {
                Some(cause) => (next, ask) == self.failed(BootError::BadPlan { cause }),
                None => {
                    ||| {
                        &&& next.engine is Some
                        &&& next == (BootState {
                            phase: BootPhase::Output,
                            engine: next.engine,
                            ..self
                        })
                        &&& starts_with(next.engine->0, self.config, response)
                        &&& ask == BootAsk::OpenOutput
                    }
                    ||| exists|sim_slot: Slot| #[trigger]
                        is_first_unplanned(self.config, response.entries@, sim_slot) && (next, ask)
                            == self.failed(BootError::IncompletePlan { sim_slot })
                },
            },
            (BootPhase::Output, BootEvent::Done) => {
                &&& next == self.in_phase(BootPhase::Ready)
                &&& ask == BootAsk::Ready
            },
            _ => (next, ask) == self.failed(BootError::UnexpectedReply),
        }
    }
}

/// Prepares a simulation, one outside action at a time.
pub struct Bootstrap {
    beacon_node_url: String,
    config: EngineConfig,
    byzantine_threshold: u64,
    phase: BootPhase,
    checkpoint_root: Option<Hash256>,
    engine: Option<Engine>,
}

impl View for Bootstrap {
    type V = BootState;

    closed spec fn view(&self) -> BootState {
        BootState {
            beacon_node_url: self.beacon_node_url@,
            config: self.config,
            byzantine_threshold: self.byzantine_threshold,
            phase: self.phase,
            checkpoint_root: self.checkpoint_root,
            engine: match self.engine {
                Some(engine) => Some(engine@),
                None => None,
            },
        }
    }
}

/// The slots that a command line asks to simulate.
pub open spec fn slots_of(config: Config) -> EngineConfig {
    EngineConfig {
        start_slot: config.start_slot->0,
        end_slot: config.end_slot->0,
        warmup_start_slot: config.warmup_start_slot->0,
    }
}

impl Bootstrap {
    /// The preparation of the simulation that a command line asks for, and what it asks for
    /// first: the state that the simulation starts from.
    pub fn new(config: &Config) -> (res: (Bootstrap, BootAction))
        requires
            !config.manifest_json,
            config.failure() is None,
        ensures
            res.0@ == (BootState {
                beacon_node_url: config.beacon_node_url->0@,
                config: slots_of(*config),
                byzantine_threshold: config.byzantine_threshold,
                phase: BootPhase::CheckpointState,
                checkpoint_root: None,
                engine: None,
            }),
            res.0@.valid(),
            res.1@ == (BootAsk::FetchCheckpointState {
                url: state_url_text(res.0@.base(), config.warmup_start_slot->0),
                may_be_absent: false,
            }),
    {
        let slots = EngineConfig {
            start_slot: config.start_slot(),
            end_slot: config.end_slot(),
            warmup_start_slot: config.warmup_start_slot(),
        };
        let fetcher = BeaconFetcher::new(config.beacon_node_url());
        let request = fetcher.fetch_checkpoint_state(slots.warmup_start_slot);
        let bootstrap = Bootstrap {
            beacon_node_url: config.beacon_node_url().to_owned(),
            config: slots,
            byzantine_threshold: config.byzantine_threshold,
            phase: BootPhase::CheckpointState,
            checkpoint_root: None,
            engine: None,
        };
        (bootstrap, BootAction::FetchCheckpointState { request })
    }

    fn fail(&mut self, error: BootError) -> (res: BootAction)
        ensures
            (final(self)@, res@) == old(self)@.failed(error),
    {
        self.phase = BootPhase::Failed;
        BootAction::Fail { error }
    }

    fn take_plan(&mut self, response: &PlanResponse) -> (res: BootAction)
        requires
            old(self)@.valid(),
            old(self)@.phase == BootPhase::Plan,
        ensures
            final(self)@.valid(),
            old(self)@.steps_to(
                BootEvent::Plan { response: *response },
                final(self)@,
                res@,
            ),
    {
        let plan = match attestation_plan(response) {
            Ok(plan) => plan,
            Err(cause) => {
                return self.fail(BootError::BadPlan { cause });
            },
        };
        let ghost entries = response.entries@;
        assert forall|slot: u64| #[trigger] is_planned(entries, slot) <==> plan@.contains_key(
            slot,
        ) by {}
        match Engine::new(self.config, plan) {
            Ok(engine) => {
                self.engine = Some(engine);
                self.phase = BootPhase::Output;
                BootAction::OpenOutput
            },
            Err(sim_slot) => {
                assert(is_first_unplanned(self.config, entries, sim_slot));
                self.fail(BootError::IncompletePlan { sim_slot })
            },
        }
    }

    /// Takes how the last thing that was asked for turned out, and says what is asked for next.
    pub fn step(&mut self, event: BootEvent) -> (res: BootAction)
        requires
            old(self)@.valid(),
        ensures
            final(self)@.valid(),
            old(self)@.steps_to(event, final(self)@, res@),
    {
        match (self.phase, event) {
            (BootPhase::Ready, _) => self.fail(BootError::UnexpectedReply),
            (BootPhase::Failed, _) => self.fail(BootError::UnexpectedReply),
            (phase, BootEvent::Failed) => self.fail(BootError::Outside { phase }),
            (BootPhase::CheckpointState, BootEvent::CheckpointState { block_root }) => {
                let fetcher = BeaconFetcher::new(self.beacon_node_url.as_str());
                let request = fetcher.fetch_block_by_root_optional(&block_root);
                self.checkpoint_root = Some(block_root);
                self.phase = BootPhase::CheckpointBlock;
                BootAction::FetchCheckpointBlock { request }
            },
            (BootPhase::CheckpointBlock, BootEvent::CheckpointBlock { found }) => {
                if found {
                    let fetcher = BeaconFetcher::new(self.beacon_node_url.as_str());
                    self.phase = BootPhase::GenesisState;
                    BootAction::FetchGenesisState { request: fetcher.fetch_genesis_state() }
                } else {
                    let root = self.checkpoint_root.unwrap();
                    self.fail(BootError::CheckpointBlockMissing { root })
                }
            },
            (BootPhase::GenesisState, BootEvent::Done) => {
                self.phase = BootPhase::Chain;
                BootAction::BuildChain { byzantine_threshold: self.byzantine_threshold }
            },
            (BootPhase::Chain, BootEvent::Done) => {
                self.phase = BootPhase::Plan;
                let url = plan_url(
                    self.beacon_node_url.as_str(),
                    self.config.first_slot(),
                    self.config.end_slot,
                );
                BootAction::FetchPlan { url }
            },
            (BootPhase::Plan, BootEvent::Plan { response }) => self.take_plan(&response),
            (BootPhase::Output, BootEvent::Done) => {
                self.phase = BootPhase::Ready;
                BootAction::Ready
            },
            _ => self.fail(BootError::UnexpectedReply),
        }
    }

    /// The engine, once all was had.
    pub fn into_engine(self) -> (res: Option<Engine>)
        requires
            self@.valid(),
        ensures
            match res {
                Some(engine) => self@.phase == BootPhase::Ready && engine@ == self@.engine->0,
                None => self@.phase != BootPhase::Ready,
            },
    {
        if self.phase == BootPhase::Ready {
            self.engine
        } else {
            None
        }
    }
}

/// How many things were had when a phase begins.
pub open spec fn things_had(phase: BootPhase) -> int {
    match phase {
        BootPhase::CheckpointState => 0,
        BootPhase::CheckpointBlock => 1,
        BootPhase::GenesisState => 2,
        BootPhase::Chain => 3,
        BootPhase::Plan => 4,
        BootPhase::Output => 5,
        BootPhase::Ready => 6,
        BootPhase::Failed => -1,
    }
}

/// Each step has one thing more, in the one order, or fails for good: a simulation can start
/// only after all was had.
pub proof fn all_is_had_in_order(state: BootState, event: BootEvent, next: BootState, ask: BootAsk)
    requires
        state.steps_to(event, next, ask),
    ensures
        ask is Fail <==> next.phase == BootPhase::Failed,
        !(ask is Fail) ==> things_had(next.phase) == things_had(state.phase) + 1,
        ask is Ready <==> next.phase == BootPhase::Ready,
        state.phase == BootPhase::Failed ==> next.phase == BootPhase::Failed,
{
}

/// The output file is created only once a plan was had that can be read and has an entry
/// for each slot of the simulation; and such a plan is never refused.
pub proof fn output_waits_for_a_complete_plan(
    state: BootState,
    response: PlanResponse,
    next: BootState,
    ask: BootAsk,
)
    requires
        state.valid(),
        state.phase == BootPhase::Plan,
        state.steps_to(BootEvent::Plan { response }, next, ask),
    ensures
        ask is OpenOutput <==> plan_failure(response) is None && forall|slot: u64|
            first_slot(state.config) <= slot < state.config.end_slot ==> #[trigger] is_planned(
                response.entries@,
                slot,
            ),
{
    if ask is OpenOutput {
        let plan = next.engine->0.plan;
        assert forall|slot: u64|
            first_slot(state.config) <= slot < state.config.end_slot implies #[trigger] is_planned(
            response.entries@,
            slot,
        ) by {
            assert(plan.contains_key(slot));
        }
    }
}

/// What is asked for last before a simulation starts is the output file: no other step creates
/// it.
pub proof fn only_a_plan_opens_the_output(
    state: BootState,
    event: BootEvent,
    next: BootState,
    ask: BootAsk,
)
    requires
        state.steps_to(event, next, ask),
        ask is OpenOutput,
    ensures
        state.phase == BootPhase::Plan,
        event is Plan,
        next.phase == BootPhase::Output,
{
}

/// Whether an event is a reply to what is waited for.
pub open spec fn answers(phase: BootPhase, event: BootEvent) -> bool {
    match event {
        BootEvent::CheckpointState { .. } => phase is CheckpointState,
        BootEvent::CheckpointBlock { .. } => phase is CheckpointBlock,
        BootEvent::Plan { .. } => phase is Plan,
        BootEvent::Done => phase is GenesisState || phase is Chain || phase is Output,
        BootEvent::Failed => false,
    }
}

/// A preparation fails only for a reason, and says which: what was asked for could not be done, and
/// it is named; a reply does not answer what was asked for; the block does not exist, and its root
/// is named; the plan cannot be read, and what is wrong with it is named; or the plan has no entry
/// for a slot, and the first such slot is named.
pub proof fn a_preparation_fails_only_for_a_reason(
    state: BootState,
    event: BootEvent,
    next: BootState,
    ask: BootAsk,
)
    requires
        state.valid(),
        state.phase != BootPhase::Ready,
        state.phase != BootPhase::Failed,
        state.steps_to(event, next, ask),
    ensures
        event is Failed ==> ask is Fail && ask->error == (BootError::Outside { phase: state.phase }),
        event !is Failed && !answers(state.phase, event) ==> ask is Fail
            && ask->error is UnexpectedReply,
        ask matches BootAsk::Fail { error } ==> match error {
            BootError::Outside { phase } => event is Failed && phase == state.phase,
            BootError::UnexpectedReply => event !is Failed && !answers(state.phase, event),
            BootError::CheckpointBlockMissing { root } => {
                &&& event matches BootEvent::CheckpointBlock { found } && !found
                &&& state.checkpoint_root == Some(root)
            },
            BootError::BadPlan { cause } => event matches BootEvent::Plan { response }
                && plan_failure(response) == Some(cause),
            BootError::IncompletePlan { sim_slot } => event matches BootEvent::Plan { response } && {
                &&& plan_failure(response) is None
                &&& first_slot(state.config) <= sim_slot < state.config.end_slot
                &&& forall|k: int|
                    0 <= k < response.entries@.len() ==> (#[trigger] response.entries@[k]).sim_slot
                        != sim_slot
                &&& forall|slot: u64|
                    first_slot(state.config) <= slot < sim_slot ==> #[trigger] is_planned(
                        response.entries@,
                        slot,
                    )
            },
        },
{
    if let BootAsk::Fail { error: BootError::IncompletePlan { sim_slot } } = ask {
        if let BootEvent::Plan { response } = event {
            assert(is_first_unplanned(state.config, response.entries@, sim_slot));
            assert forall|k: int| 0 <= k < response.entries@.len() implies (
            #[trigger] response.entries@[k]).sim_slot != sim_slot by {
                assert(!is_planned(response.entries@, sim_slot));
                assert(response.entries@[k].sim_slot == response.entries@[k].sim_slot);
            }
        }
    }
}

/// What is asked for next is what the last reply calls for: the latest block of the state by the
/// root that was found, the genesis state once that block was found, a chain with the threshold
/// that was given, a plan from the first slot to the end, and the output. All but the chain and
/// the output lie below the orchestrator's address.
pub proof fn each_reply_calls_for_the_next_request(
    state: BootState,
    event: BootEvent,
    next: BootState,
    ask: BootAsk,
)
    requires
        state.valid(),
        state.steps_to(event, next, ask),
        answers(state.phase, event),
    ensures
        event matches BootEvent::CheckpointState { block_root } ==> {
            &&& ask matches BootAsk::FetchCheckpointBlock { url, may_be_absent } && may_be_absent
                && text::starts_with(url, without_trailing_slashes(state.beacon_node_url))
                && text::ends_with(url, root_text(block_root@))
            &&& next.checkpoint_root == Some(block_root)
        },
        event matches BootEvent::CheckpointBlock { found } ==> {
            &&& found <==> ask is FetchGenesisState
            &&& ask matches BootAsk::FetchGenesisState { url, may_be_absent } ==> !may_be_absent
                && text::starts_with(url, without_trailing_slashes(state.beacon_node_url))
        },
        state.phase is GenesisState ==> ask == (BootAsk::BuildChain {
            byzantine_threshold: state.byzantine_threshold,
        }),
        state.phase is Chain ==> ask is FetchPlan && forall|from: Slot, to: Slot|
            ask->FetchPlan_url == #[trigger] plan_url_text(state.beacon_node_url, from, to) <==> {
                &&& to == state.config.end_slot
                &&& state.config.warmup_start_slot < state.config.start_slot ==> from
                    == state.config.warmup_start_slot + 1
                &&& state.config.warmup_start_slot >= state.config.start_slot ==> from
                    == state.config.start_slot
            },
        state.phase is Output ==> ask is Ready && next.engine == state.engine,
        ask is Fail || next.engine is None || next.phase is Output || next.phase is Ready,
{
    let base = without_trailing_slashes(state.beacon_node_url);
    if let BootEvent::CheckpointState { block_root } = event {
        addresses_of_blocks_name_the_block(base, 0, block_root@, base, 0, block_root@);
    }
    if event is CheckpointBlock {
        addresses_of_states_name_the_slot(base, 0, base, 0);
    }
    if state.phase is Chain {
        let first = first_slot(state.config);
        let end = state.config.end_slot;
        assert forall|from: Slot, to: Slot|
            ask->FetchPlan_url == #[trigger] plan_url_text(
                state.beacon_node_url,
                from,
                to,
            ) implies from == first && to == end by {
            addresses_of_plans_name_the_slots(
                state.beacon_node_url,
                first,
                end,
                state.beacon_node_url,
                from,
                to,
            );
        }
    }
}

/// What a run is asked to do does not change while it is prepared.
pub proof fn a_preparation_keeps_what_was_asked_for(
    state: BootState,
    event: BootEvent,
    next: BootState,
    ask: BootAsk,
)
    requires
        state.steps_to(event, next, ask),
    ensures
        next.beacon_node_url == state.beacon_node_url,
        next.config == state.config,
        next.byzantine_threshold == state.byzantine_threshold,
{
}

/// The engine that is handed over is to be started at the first slot of the simulation, with no
/// record written, no block known, and a plan that says what the orchestrator sent and has an
/// entry for each slot.
pub proof fn the_engine_starts_with_the_plan(
    engine: EngineState,
    config: EngineConfig,
    response: PlanResponse,
)
    requires
        starts_with(engine, config, response),
    ensures
        engine.config == config,
        engine.phase is Starting,
        engine.slot == first_slot(config),
        engine.total_recorded == 0,
        forall|slot: u64| !#[trigger] engine.cache.contains_key(slot),
        forall|slot: u64|
            first_slot(config) <= slot < config.end_slot ==> #[trigger] engine.plan.contains_key(
                slot,
            ),
        forall|slot: u64| #[trigger]
            engine.plan.contains_key(slot) <==> is_planned(response.entries@, slot),
{
    a_plan_says_what_was_sent(engine.plan, response.entries@);
}

/// The slots of a run are those of the command line.
pub proof fn the_slots_are_those_of_the_command_line(config: Config)
    ensures
        config.start_slot matches Some(slot) ==> slots_of(config).start_slot == slot,
        config.end_slot matches Some(slot) ==> slots_of(config).end_slot == slot,
        config.warmup_start_slot matches Some(slot) ==> slots_of(config).warmup_start_slot == slot,
{
}

/// What an action asks for is what it says.
pub proof fn a_boot_action_asks_for_what_it_says(action: BootAction)
    ensures
        match action {
            BootAction::FetchCheckpointState { request } => action@ == (
            BootAsk::FetchCheckpointState {
                url: request.url@,
                may_be_absent: request.may_be_absent,
            }),
            BootAction::FetchCheckpointBlock { request } => action@ == (
            BootAsk::FetchCheckpointBlock {
                url: request.url@,
                may_be_absent: request.may_be_absent,
            }),
            BootAction::FetchGenesisState { request } => action@ == (BootAsk::FetchGenesisState {
                url: request.url@,
                may_be_absent: request.may_be_absent,
            }),
            BootAction::BuildChain { byzantine_threshold } => action@ == (BootAsk::BuildChain {
                byzantine_threshold,
            }),
            BootAction::FetchPlan { url } => action@ == (BootAsk::FetchPlan { url: url@ }),
            BootAction::OpenOutput => action@ is OpenOutput,
            BootAction::Ready => action@ is Ready,
            BootAction::Fail { error } => action@ == (BootAsk::Fail { error }),
        },
{
}

} // verus!
