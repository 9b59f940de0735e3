use std::collections::HashMap;
use std::path::PathBuf;

use fcr_simulator::config::{Config, Network};
use fcr_simulator::hash256::Hash256;
use fcr_simulator::http::plan::{
    AttestationPlan, PlanAttestationSource, PlanBlockImport, PlanBlockImportWire, PlanEntry,
    PlanEntryWire, PlanError, PlanResponse,
};
use fcr_simulator::output::schema::SlotResult;
use fcr_simulator::output::writer::{flush_if_needed, record_line};
use fcr_simulator::sim::bootstrap::{BootAction, BootError, BootEvent, BootPhase, Bootstrap};
use fcr_simulator::sim::engine::{
    canonical_import_root, count_injected, select_attestations, Action, AttestationOutcome,
    BlockSummary, Cause, Engine, EngineConfig, Event, Stage,
};
use fcr_simulator::sim::result::{
    build_slot_result, micros_since, Confirmation, HeadReport, SlotFacts,
};

fn root(byte: u8) -> Hash256 {
    Hash256 { bytes: [byte; 32] }
}

fn root_text(byte: u8) -> String {
    format!("0x{}", format!("{byte:02x}").repeat(32))
}

fn import(slot: u64, byte: u8, canonical: bool) -> PlanBlockImport {
    PlanBlockImport { slot, root: root(byte), canonical }
}

fn source(slot: u64, max_attestation_slot: Option<u64>) -> PlanAttestationSource {
    PlanAttestationSource { slot, max_attestation_slot }
}

fn entry(
    slot: u64,
    import_blocks: Vec<PlanBlockImport>,
    attestation_sources: Vec<PlanAttestationSource>,
) -> PlanEntry {
    PlanEntry { eval_slot: slot + 1, import_blocks, attestation_sources, source_block_slot: None }
}

fn config(warmup_start_slot: u64, start_slot: u64, end_slot: u64) -> EngineConfig {
    EngineConfig { start_slot, end_slot, warmup_start_slot }
}

fn head(confirmation: Option<Confirmation>) -> HeadReport {
    HeadReport { head_root: root(0xee), finalized_epoch: 3, justified_epoch: 4, confirmation }
}

#[derive(Clone)]
struct FakeBlock {
    root: Hash256,
    slot: u64,
    attestation_slots: Vec<u64>,
}

/// A chain and a beacon node, and what was asked of them.
#[derive(Default)]
struct World {
    by_slot: HashMap<u64, FakeBlock>,
    by_root: Vec<FakeBlock>,
    rejects: Vec<Hash256>,
    clock: Vec<u64>,
    fetched: Vec<u64>,
    fetched_roots: Vec<Hash256>,
    processed: Vec<Hash256>,
    injected: Vec<(u64, u64, Vec<usize>)>,
    evaluated: Vec<u64>,
    written: Vec<SlotResult>,
    flushed: usize,
}

fn summary(block: &FakeBlock) -> BlockSummary {
    BlockSummary {
        root: block.root,
        slot: block.slot,
        attestation_slots: block.attestation_slots.clone(),
    }
}

impl World {
    fn perform(&mut self, action: Action) -> Result<Event, Action> {
        Ok(match action {
            Action::SetClock { slot } => {
                self.clock.push(slot);
                Event::Done
            }
            Action::FetchBlockAtSlot { slot } => {
                self.fetched.push(slot);
                Event::Fetched { block: self.by_slot.get(&slot).map(summary) }
            }
            Action::FetchBlockByRoot { root } => {
                self.fetched_roots.push(root);
                Event::Fetched {
                    block: self.by_root.iter().find(|block| block.root == root).map(summary),
                }
            }
            Action::ProcessBlock { root } => {
                self.processed.push(root);
                Event::Processed { imported: !self.rejects.contains(&root) }
            }
            Action::InjectAttestations { source_slot, inject_slot, attestations } => {
                let outcomes = vec![AttestationOutcome::Injected; attestations.len()];
                self.injected.push((source_slot, inject_slot, attestations));
                Event::Applied { outcomes }
            }
            Action::RecomputeHead { slot } => {
                self.evaluated.push(slot);
                Event::Evaluated { head: head(None), elapsed_micros: 17 }
            }
            Action::WriteResult { result, flush } => {
                self.written.push(result);
                self.flushed += flush as usize;
                Event::Done
            }
            Action::Flush => {
                self.flushed += 1;
                Event::Done
            }
            other => return Err(other),
        })
    }

    fn run(&mut self, engine: &mut Engine) -> Action {
        let mut event = Event::Done;
        loop {
            assert!(engine.count_fits(&event));
            match self.perform(engine.step(event)) {
                Ok(next) => event = next,
                Err(last) => return last,
            }
        }
    }
}

fn block(slot: u64, byte: u8, attestation_slots: &[u64]) -> FakeBlock {
    FakeBlock { root: root(byte), slot, attestation_slots: attestation_slots.to_vec() }
}

fn small_plan() -> AttestationPlan {
    HashMap::from([
        (6, entry(6, vec![import(6, 6, true)], vec![source(7, Some(6))])),
        (7, entry(7, vec![import(7, 7, true), import(7, 0x77, false)], vec![source(7, None)])),
        (8, entry(8, vec![], vec![])),
    ])
}

fn small_world() -> World {
    World {
        by_slot: HashMap::from([(6, block(6, 6, &[5])), (7, block(7, 7, &[5, 6, 7, 6]))]),
        by_root: vec![block(7, 0x77, &[])],
        ..World::default()
    }
}

#[test]
fn a_run_goes_through_its_slots() {
    let mut engine = Engine::new(config(5, 7, 9), small_plan()).unwrap();
    let mut world = small_world();
    let last = world.run(&mut engine);
    assert!(matches!(last, Action::Finish { total_recorded: 2 }));
    assert_eq!(world.clock, vec![6, 7, 8]);
    assert_eq!(world.evaluated, vec![7, 8, 9]);
    assert_eq!(world.fetched, vec![6, 7]);
    assert_eq!(world.fetched_roots, vec![root(0x77)]);
    assert_eq!(world.processed, vec![root(6), root(7), root(0x77)]);
    assert_eq!(world.injected, vec![(7, 7, vec![0, 1, 3]), (7, 8, vec![0, 1, 2, 3])]);
    assert_eq!(world.flushed, 1);

    assert_eq!(world.written.len(), 2);
    let seven = &world.written[0];
    assert_eq!(seven.slot, 7);
    assert!(seven.has_block);
    assert_eq!(seven.block_root, Some(root_text(7)));
    assert_eq!(seven.source_block_slot, Some(7));
    assert_eq!(seven.num_attestations_injected, 4);
    assert_eq!(seven.fcr_eval_duration_us, 17);
    let eight = &world.written[1];
    assert_eq!(eight.slot, 8);
    assert!(!eight.has_block);
    assert!(eight.is_missed_slot);
    assert_eq!(eight.block_root, None);
    assert_eq!(eight.source_block_slot, None);
    assert_eq!(eight.num_attestations_injected, 0);

    let after = engine.step(Event::Done);
    assert!(matches!(after, Action::Abort { stage: Stage::Stopped, .. }));
}

#[test]
fn a_run_without_slots_only_flushes() {
    let mut engine = Engine::new(config(5, 6, 6), HashMap::new()).unwrap();
    let mut world = World::default();
    assert!(matches!(world.run(&mut engine), Action::Finish { total_recorded: 0 }));
    assert_eq!(world.flushed, 1);
    assert!(world.clock.is_empty());
}

#[test]
fn the_start_slot_is_recorded_though_it_is_the_checkpoints() {
    let plan: AttestationPlan = (5..9).map(|slot| (slot, entry(slot, vec![], vec![]))).collect();
    let mut engine = Engine::new(config(5, 5, 9), plan).unwrap();
    let mut world = World::default();
    assert!(matches!(world.run(&mut engine), Action::Finish { total_recorded: 4 }));
    assert_eq!(world.clock, vec![5, 6, 7, 8]);
    let slots: Vec<u64> = world.written.iter().map(|result| result.slot).collect();
    assert_eq!(slots, vec![5, 6, 7, 8]);
    match Engine::new(config(5, 5, 9), HashMap::new()) {
        Err(slot) => assert_eq!(slot, 5),
        Ok(_) => panic!(),
    }
}

#[test]
fn first_simulated_slot() {
    assert_eq!(config(5, 7, 9).first_slot(), 6);
    assert_eq!(config(5, 6, 9).first_slot(), 6);
    assert_eq!(config(5, 5, 9).first_slot(), 5);
    assert_eq!(config(u64::MAX, 5, 9).first_slot(), 5);
}

#[test]
fn work_of_a_slot_is_done_in_order() {
    let mut engine = Engine::new(config(5, 7, 9), small_plan()).unwrap();
    let mut world = small_world();
    let mut order = Vec::new();
    let mut event = Event::Done;
    loop {
        let action = engine.step(event);
        order.push(match &action {
            Action::SetClock { slot } => format!("clock {slot}"),
            Action::FetchBlockAtSlot { slot } => format!("fetch {slot}"),
            Action::FetchBlockByRoot { .. } => "fetch by root".to_string(),
            Action::ProcessBlock { root } => format!("process {:02x}", root.bytes[0]),
            Action::InjectAttestations { source_slot, .. } => format!("inject {source_slot}"),
            Action::RecomputeHead { slot } => format!("head {slot}"),
            Action::WriteResult { result, .. } => format!("record {}", result.slot),
            Action::Flush => "flush".to_string(),
            Action::Finish { .. } => "finish".to_string(),
            Action::Abort { .. } => "abort".to_string(),
        });
        match world.perform(action) {
            Ok(next) => event = next,
            Err(_) => break,
        }
    }
    assert_eq!(
        order,
        vec![
            "clock 6", "fetch 6", "process 06", "fetch 7", "inject 7", "head 7",
            "clock 7", "process 07", "fetch by root", "process 77", "inject 7", "head 8",
            "record 7", "clock 8", "head 9", "record 8", "flush", "finish",
        ]
    );
}

#[test]
fn records_are_flushed_every_hundred() {
    let plan = (1..=250).map(|slot| (slot, entry(slot, vec![], vec![]))).collect();
    let mut engine = Engine::new(config(0, 1, 251), plan).unwrap();
    let mut world = World::default();
    assert!(matches!(world.run(&mut engine), Action::Finish { total_recorded: 250 }));
    let slots: Vec<u64> = world.written.iter().map(|result| result.slot).collect();
    assert_eq!(slots, (1..=250).collect::<Vec<u64>>());
    assert_eq!(world.flushed, 3);
    assert!(flush_if_needed(100));
    assert!(flush_if_needed(0));
    assert!(!flush_if_needed(101));
}

#[test]
fn incomplete_plan_is_refused() {
    let mut plan = small_plan();
    plan.remove(&7);
    match Engine::new(config(5, 7, 9), plan) {
        Err(slot) => assert_eq!(slot, 7),
        Ok(_) => panic!(),
    }
}

fn abort_of(world: &mut World, plan: AttestationPlan) -> (u64, Stage, Cause) {
    let mut engine = Engine::new(config(5, 7, 9), plan).unwrap();
    match world.run(&mut engine) {
        Action::Abort { sim_slot, stage, cause } => (sim_slot, stage, cause),
        other => panic!("{other:?}"),
    }
}

#[test]
fn missing_canonical_block_is_fatal() {
    let mut world = small_world();
    world.by_slot.remove(&6);
    let (slot, stage, cause) = abort_of(&mut world, small_plan());
    assert_eq!((slot, stage), (6, Stage::Import));
    assert!(matches!(cause, Cause::CanonicalBlockMissing { slot: 6 }));
}

#[test]
fn missing_noncanonical_block_is_passed_over() {
    let mut world = small_world();
    world.by_root.clear();
    let mut engine = Engine::new(config(5, 7, 9), small_plan()).unwrap();
    assert!(matches!(world.run(&mut engine), Action::Finish { total_recorded: 2 }));
    assert_eq!(world.processed, vec![root(6), root(7)]);
}

#[test]
fn only_canonical_failures_are_fatal() {
    let mut world = small_world();
    world.rejects.push(root(0x77));
    let mut engine = Engine::new(config(5, 7, 9), small_plan()).unwrap();
    assert!(matches!(world.run(&mut engine), Action::Finish { .. }));

    let mut world = small_world();
    world.rejects.push(root(7));
    let (slot, stage, cause) = abort_of(&mut world, small_plan());
    assert_eq!((slot, stage), (7, Stage::Import));
    assert!(matches!(cause, Cause::CanonicalImportFailed));
}

#[test]
fn other_blocks_than_the_planned_are_refused() {
    let mut world = small_world();
    world.by_slot.insert(6, block(6, 0x99, &[]));
    let (_, stage, cause) = abort_of(&mut world, small_plan());
    assert_eq!(stage, Stage::Import);
    match cause {
        Cause::RootMismatch { slot, planned_root, fetched_root } => {
            assert_eq!(slot, 6);
            assert_eq!(planned_root, root(6));
            assert_eq!(fetched_root, root(0x99));
        }
        other => panic!("{other:?}"),
    }
    let mut world = small_world();
    world.by_root = vec![block(6, 0x77, &[])];
    let (_, _, cause) = abort_of(&mut world, small_plan());
    match cause {
        Cause::SlotMismatch { root: found, planned_slot, fetched_slot } => {
            assert_eq!(found, root(0x77));
            assert_eq!((planned_slot, fetched_slot), (7, 6));
        }
        other => panic!("{other:?}"),
    }
}

#[test]
fn missing_source_block_is_fatal() {
    let mut plan = small_plan();
    plan.insert(8, entry(8, vec![], vec![source(9, None)]));
    let (slot, stage, cause) = abort_of(&mut small_world(), plan);
    assert_eq!((slot, stage), (8, Stage::Attestations));
    assert!(matches!(cause, Cause::SourceBlockMissing { slot: 9 }));
}

#[test]
fn failures_outside_and_wrong_replies_stop_the_engine() {
    let mut engine = Engine::new(config(5, 7, 9), small_plan()).unwrap();
    assert!(matches!(engine.step(Event::Done), Action::SetClock { slot: 6 }));
    assert!(matches!(
        engine.step(Event::Failed),
        Action::Abort { sim_slot: 6, stage: Stage::Slot, cause: Cause::Outside }
    ));
    let mut engine = Engine::new(config(5, 7, 9), small_plan()).unwrap();
    engine.step(Event::Done);
    engine.step(Event::Done);
    assert!(matches!(
        engine.step(Event::Done),
        Action::Abort { stage: Stage::Import, cause: Cause::UnexpectedReply, .. }
    ));
}

#[test]
fn attestations_are_selected_by_their_slots() {
    let slots = vec![5, 6, 7, 6];
    assert_eq!(select_attestations(&slots, None), vec![0, 1, 2, 3]);
    assert_eq!(select_attestations(&slots, Some(6)), vec![0, 1, 3]);
    assert_eq!(select_attestations(&slots, Some(4)), Vec::<usize>::new());
}

#[test]
fn only_injected_attestations_count() {
    let outcomes = vec![
        AttestationOutcome::Injected,
        AttestationOutcome::Rejected,
        AttestationOutcome::NotIndexed,
        AttestationOutcome::Injected,
    ];
    assert_eq!(count_injected(&outcomes), 2);
    assert_eq!(count_injected(&vec![]), 0);
}

#[test]
fn canonical_root_of_a_slot() {
    let imports = vec![
        import(6, 1, true),
        import(7, 2, false),
        import(7, 3, true),
        import(7, 4, true),
    ];
    assert_eq!(canonical_import_root(&imports, 7), Some(root(3)));
    assert_eq!(canonical_import_root(&imports, 6), Some(root(1)));
    assert_eq!(canonical_import_root(&imports, 8), None);
}

fn facts(slot: u64, block_root: Option<Hash256>) -> SlotFacts {
    SlotFacts {
        slot,
        block_root,
        source_block_slot: Some(slot + 1),
        num_attestations_injected: 12,
        fcr_eval_duration_us: 99,
    }
}

fn confirmed(byte: u8, slot: Option<u64>) -> Option<Confirmation> {
    Some(Confirmation { root: root(byte), slot })
}

#[test]
fn record_of_a_confirmed_block() {
    let result = build_slot_result(&facts(64, Some(root(1))), &head(confirmed(1, Some(64))));
    assert_eq!(result.slot, 64);
    assert_eq!(result.epoch, 2);
    assert!(result.has_block);
    assert_eq!(result.block_root, Some(root_text(1)));
    assert_eq!(result.head_root, root_text(0xee));
    assert_eq!(result.confirmed_root, root_text(1));
    assert_eq!(result.confirmed_slot, 64);
    assert_eq!(result.confirmation_delay_slots, 1);
    assert!(result.fast_confirmed);
    assert!(result.strict_one_slot_confirmed);
    assert_eq!(result.finalized_epoch, 3);
    assert_eq!(result.justified_epoch, 4);
    assert_eq!(result.source_block_slot, Some(65));
    assert_eq!(result.num_attestations_injected, 12);
    assert!(result.is_epoch_boundary);
    assert!(!result.is_missed_slot);
    assert_eq!(result.fcr_eval_duration_us, 99);
}

#[test]
fn records_of_other_confirmations() {
    let other = build_slot_result(&facts(65, Some(root(1))), &head(confirmed(2, Some(65))));
    assert!(other.fast_confirmed);
    assert!(!other.strict_one_slot_confirmed);
    assert!(!other.is_epoch_boundary);
    let late = build_slot_result(&facts(65, Some(root(1))), &head(confirmed(1, Some(60))));
    assert!(!late.fast_confirmed);
    assert!(!late.strict_one_slot_confirmed);
    assert_eq!(late.confirmation_delay_slots, 6);
    let unknown = build_slot_result(&facts(65, None), &head(confirmed(1, None)));
    assert_eq!(unknown.confirmed_slot, 0);
    assert_eq!(unknown.confirmation_delay_slots, 66);
    assert!(unknown.is_missed_slot);
    let off = build_slot_result(&facts(0, Some(root(0))), &head(None));
    assert_eq!(off.confirmed_root, root_text(0));
    assert!(!off.fast_confirmed);
    assert!(!off.strict_one_slot_confirmed);
    let future = build_slot_result(&facts(5, None), &head(confirmed(1, Some(9))));
    assert_eq!(future.confirmation_delay_slots, 0);
    let last = build_slot_result(&facts(u64::MAX, None), &head(confirmed(1, Some(u64::MAX))));
    assert_eq!(last.confirmation_delay_slots, 0);
    assert!(last.fast_confirmed);
    assert!(!last.strict_one_slot_confirmed);
}

#[test]
fn long_evaluations_are_capped() {
    assert_eq!(micros_since(5), 5);
    assert_eq!(micros_since(u64::MAX as u128), u64::MAX);
    assert_eq!(micros_since(u64::MAX as u128 + 1), u64::MAX);
}

#[test]
fn record_lines_end_with_a_line_break() {
    assert_eq!(record_line(b"{}".to_vec()), b"{}\n".to_vec());
}

fn run_config() -> Config {
    Config {
        beacon_node_url: Some("http://node/".to_string()),
        start_slot: Some(7),
        end_slot: Some(9),
        warmup_start_slot: Some(5),
        network: Some(Network::Mainnet),
        byzantine_threshold: 33,
        attestation_source_mode: None,
        lookahead_cap: None,
        output: Some(PathBuf::from("out")),
        manifest_json: false,
    }
}

fn wire(sim_slot: u64) -> PlanEntryWire {
    PlanEntryWire {
        sim_slot,
        eval_slot: sim_slot + 1,
        import_blocks: vec![],
        attestation_sources: vec![],
        source_block_slot: None,
    }
}

fn bootstrap_at_plan() -> Bootstrap {
    let (mut bootstrap, first) = Bootstrap::new(&run_config());
    match first {
        BootAction::FetchCheckpointState { request } => {
            assert_eq!(request.url, "http://node/eth/v2/debug/beacon/states/5");
            assert!(!request.may_be_absent);
        }
        other => panic!("{other:?}"),
    }
    match bootstrap.step(BootEvent::CheckpointState { block_root: root(5) }) {
        BootAction::FetchCheckpointBlock { request } => {
            let url = format!("http://node/eth/v2/beacon/blocks/{}", root_text(5));
            assert_eq!(request.url, url);
            assert!(request.may_be_absent);
        }
        other => panic!("{other:?}"),
    }
    match bootstrap.step(BootEvent::CheckpointBlock { found: true }) {
        BootAction::FetchGenesisState { request } => {
            assert_eq!(request.url, "http://node/eth/v2/debug/beacon/states/genesis");
            assert!(!request.may_be_absent);
        }
        other => panic!("{other:?}"),
    }
    assert!(matches!(
        bootstrap.step(BootEvent::Done),
        BootAction::BuildChain { byzantine_threshold: 33 }
    ));
    match bootstrap.step(BootEvent::Done) {
        BootAction::FetchPlan { url } => {
            assert_eq!(url, "http://node/fcr-sim/v1/plan?from=6&to=9");
        }
        other => panic!("{other:?}"),
    }
    bootstrap
}

#[test]
fn a_simulation_is_prepared_in_order() {
    let mut bootstrap = bootstrap_at_plan();
    let response = PlanResponse { version: Some(2), entries: vec![wire(8), wire(6), wire(7)] };
    assert!(matches!(bootstrap.step(BootEvent::Plan { response }), BootAction::OpenOutput));
    assert!(matches!(bootstrap.step(BootEvent::Done), BootAction::Ready));
    let mut engine = bootstrap.into_engine().unwrap();
    let mut world = World::default();
    assert!(matches!(world.run(&mut engine), Action::Finish { total_recorded: 2 }));
    assert_eq!(world.clock, vec![6, 7, 8]);
}

#[test]
fn the_plan_is_asked_for_from_the_first_simulated_slot() {
    let mut config = run_config();
    config.start_slot = Some(5);
    assert_eq!(config.validate(), Ok(()));
    let (mut bootstrap, _) = Bootstrap::new(&config);
    bootstrap.step(BootEvent::CheckpointState { block_root: root(5) });
    bootstrap.step(BootEvent::CheckpointBlock { found: true });
    bootstrap.step(BootEvent::Done);
    match bootstrap.step(BootEvent::Done) {
        BootAction::FetchPlan { url } => {
            assert_eq!(url, "http://node/fcr-sim/v1/plan?from=5&to=9");
        }
        other => panic!("{other:?}"),
    }
    let response = PlanResponse { version: Some(2), entries: vec![wire(6), wire(7), wire(8)] };
    assert!(matches!(
        bootstrap.step(BootEvent::Plan { response }),
        BootAction::Fail { error: BootError::IncompletePlan { sim_slot: 5 } }
    ));
}

#[test]
fn plans_that_do_not_serve_are_refused() {
    let mut bootstrap = bootstrap_at_plan();
    let response = PlanResponse { version: Some(2), entries: vec![wire(8), wire(6)] };
    assert!(matches!(
        bootstrap.step(BootEvent::Plan { response }),
        BootAction::Fail { error: BootError::IncompletePlan { sim_slot: 7 } }
    ));
    let mut bootstrap = bootstrap_at_plan();
    let response = PlanResponse { version: Some(1), entries: vec![] };
    assert!(matches!(
        bootstrap.step(BootEvent::Plan { response }),
        BootAction::Fail {
            error: BootError::BadPlan { cause: PlanError::UnsupportedVersion { version: 1 } }
        }
    ));
    assert!(bootstrap.into_engine().is_none());
}

#[test]
fn bad_import_root_refuses_a_plan() {
    let mut bootstrap = bootstrap_at_plan();
    let mut bad = wire(6);
    bad.import_blocks.push(PlanBlockImportWire {
        slot: 6,
        root: "0x".to_string(),
        canonical: true,
    });
    let response = PlanResponse { version: Some(2), entries: vec![bad] };
    assert!(matches!(
        bootstrap.step(BootEvent::Plan { response }),
        BootAction::Fail {
            error: BootError::BadPlan { cause: PlanError::InvalidImportRoot { .. } }
        }
    ));
}

#[test]
fn failures_end_the_preparation() {
    let (mut bootstrap, _) = Bootstrap::new(&run_config());
    assert!(matches!(
        bootstrap.step(BootEvent::Failed),
        BootAction::Fail { error: BootError::Outside { phase: BootPhase::CheckpointState } }
    ));
    assert!(matches!(
        bootstrap.step(BootEvent::Done),
        BootAction::Fail { error: BootError::UnexpectedReply }
    ));
    let (mut bootstrap, _) = Bootstrap::new(&run_config());
    bootstrap.step(BootEvent::CheckpointState { block_root: root(5) });
    match bootstrap.step(BootEvent::CheckpointBlock { found: false }) {
        BootAction::Fail { error: BootError::CheckpointBlockMissing { root: missing } } => {
            assert_eq!(missing, root(5));
        }
        other => panic!("{other:?}"),
    }
    let (mut bootstrap, _) = Bootstrap::new(&run_config());
    assert!(matches!(
        bootstrap.step(BootEvent::Done),
        BootAction::Fail { error: BootError::UnexpectedReply }
    ));
}
