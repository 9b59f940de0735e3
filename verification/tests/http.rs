use fcr_simulator::beacon::state_fetcher::{
    cached_or_fetch, fetch_beacon_block_by_root, fetch_beacon_state, fetch_genesis_state,
    CacheAction, CacheEvent, CacheState,
};
use fcr_simulator::download::{Download, DownloadAction, DownloadEvent};
use fcr_simulator::hash256::{parse_hex_hash, parse_root, Hash256, HexBytesError, RootError};
use fcr_simulator::http::fetcher::{read_reply, BeaconFetcher};
use fcr_simulator::http::plan::{
    attestation_plan, plan_url, PlanAttestationSourceWire, PlanBlockImportWire, PlanEntryWire,
    PlanError, PlanResponse,
};
use fcr_simulator::http::slot::{
    slot_instruction, slot_url, AttestationError, PlanAttestationDataWire, PlanAttestationWire,
    PlanBlockImportWire as SlotImportWire, PlanCheckpointWire, SlotInstructionError,
    SlotInstructionWire, SlotResponse,
};
use fcr_simulator::http::{base_url, read_success_body, refused, trim_body, BodyUse};
use fcr_simulator::retry::{after_attempt, RetryStep, MAX_RETRIES};

fn root_text(byte: u8) -> String {
    format!("0x{}", format!("{byte:02x}").repeat(32))
}

fn root(byte: u8) -> Hash256 {
    Hash256 { bytes: [byte; 32] }
}

#[test]
fn base_address_has_no_slash_at_its_end() {
    assert_eq!(base_url("http://node:1/"), "http://node:1");
    assert_eq!(base_url("http://node:1///"), "http://node:1");
    assert_eq!(base_url("http://node:1"), "http://node:1");
    assert_eq!(base_url("///"), "");
    assert_eq!(base_url(&base_url("a/b//")), "a/b");
}

#[test]
fn short_bodies_are_kept_whole() {
    assert_eq!(trim_body(""), "");
    let body = "a".repeat(512);
    assert_eq!(trim_body(&body), body);
}

#[test]
fn long_bodies_are_cut_between_characters() {
    assert_eq!(trim_body(&"a".repeat(513)), "a".repeat(512));
    let body = format!("{}é", "a".repeat(511));
    assert_eq!(trim_body(&body), "a".repeat(511));
    let body = format!("{}é and more", "a".repeat(510));
    assert_eq!(trim_body(&body), format!("{}é", "a".repeat(510)));
    assert_eq!(trim_body(&"😀".repeat(200)), "😀".repeat(128));
}

#[test]
fn replies_are_read_by_their_status() {
    assert_eq!(read_success_body(200), BodyUse::Read);
    assert_eq!(read_success_body(299), BodyUse::Read);
    assert_eq!(read_success_body(199), BodyUse::Refuse);
    assert_eq!(read_success_body(300), BodyUse::Refuse);
    assert_eq!(read_success_body(404), BodyUse::Refuse);

    let fetcher = BeaconFetcher::new("http://node/");
    let state = fetcher.fetch_checkpoint_state(5);
    let block = fetcher.fetch_block_at_slot(5);
    assert_eq!(read_reply(&state, 404), BodyUse::Refuse);
    assert_eq!(read_reply(&block, 404), BodyUse::Absent);
    assert_eq!(read_reply(&block, 204), BodyUse::Read);
    assert_eq!(read_reply(&block, 500), BodyUse::Refuse);
}

#[test]
fn refusals_keep_what_fits_of_the_body() {
    let error = refused(503, "http://node/x", &"b".repeat(600));
    assert_eq!(error.status, 503);
    assert_eq!(error.url, "http://node/x");
    assert_eq!(error.body, "b".repeat(512));
}

#[test]
fn addresses_of_states_and_blocks() {
    let fetcher = BeaconFetcher::new("http://node//");
    assert_eq!(
        fetcher.fetch_checkpoint_state(123).url,
        "http://node/eth/v2/debug/beacon/states/123"
    );
    assert_eq!(
        fetcher.fetch_genesis_state().url,
        "http://node/eth/v2/debug/beacon/states/genesis"
    );
    assert_eq!(
        fetcher.fetch_block_at_slot(9).url,
        "http://node/eth/v2/beacon/blocks/9"
    );
    assert_eq!(
        fetcher.fetch_block_by_root_optional(&root(0xAB)).url,
        format!("http://node/eth/v2/beacon/blocks/{}", root_text(0xab))
    );
    assert_eq!(plan_url("http://node/", 6, 20), "http://node/fcr-sim/v1/plan?from=6&to=20");
    assert_eq!(
        slot_url("http://node/", 8, 5),
        "http://node/fcr-sim/v1/slot/8?warmup_start_slot=5"
    );
}

#[test]
fn a_block_that_must_exist() {
    let fetcher = BeaconFetcher::new("http://node");
    assert_eq!(fetcher.fetch_block_by_root(root(1), Some(7u8)).unwrap(), 7);
    assert_eq!(fetcher.fetch_block_by_root(root(1), None::<u8>).unwrap_err().root, root(1));
}

#[test]
fn a_root_in_an_address_reads_back() {
    let fetcher = BeaconFetcher::new("");
    let mut bytes = [0u8; 32];
    for (i, byte) in bytes.iter_mut().enumerate() {
        *byte = (i * 37 % 256) as u8;
    }
    let root = Hash256 { bytes };
    let url = fetcher.fetch_block_by_root_optional(&root).url;
    let text = url.strip_prefix("/eth/v2/beacon/blocks/").unwrap();
    assert_eq!(parse_root(text).unwrap(), root);
    assert_eq!(parse_hex_hash(text).unwrap(), root);
}

#[test]
fn kept_files_have_their_names() {
    let state = fetch_beacon_state("http://node/", 64);
    assert_eq!(state.directory, "states");
    assert_eq!(state.filename, "state-64.ssz");
    assert_eq!(state.url, "http://node/eth/v2/debug/beacon/states/64");
    assert_eq!(state.label, "beacon state at slot 64");
    let genesis = fetch_genesis_state("http://node");
    assert_eq!(genesis.directory, "states");
    assert_eq!(genesis.filename, "state-genesis.ssz");
    assert_eq!(genesis.url, "http://node/eth/v2/debug/beacon/states/genesis");
    assert_eq!(genesis.label, "genesis beacon state");
    let block = fetch_beacon_block_by_root("http://node", &root(3));
    assert_eq!(block.directory, "blocks");
    assert_eq!(block.filename, format!("block-{}.ssz", root_text(3)));
    assert_eq!(block.url, format!("http://node/eth/v2/beacon/blocks/{}", root_text(3)));
    assert_eq!(block.label, format!("beacon block at root {}", root_text(3)));
}

/// What is done for a kept file: what it holds, how many requests were sent for it, and how
/// things turn out.
struct KeptWorld {
    file: Option<Vec<u8>>,
    requests: u32,
    status: u16,
    body: Vec<u8>,
    has_directory: bool,
    storable: bool,
}

impl KeptWorld {
    fn perform(&mut self, state: &CacheState, action: &CacheAction) -> CacheEvent {
        match action {
            CacheAction::Read => CacheEvent::FileRead { bytes: self.file.clone().unwrap() },
            CacheAction::Fetch => {
                self.requests += 1;
                CacheEvent::Replied { status: self.status }
            }
            CacheAction::TakeBody => CacheEvent::Body {
                bytes: self.body.clone(),
                has_directory: self.has_directory,
            },
            CacheAction::StoreByRename | CacheAction::StoreDirectly => {
                assert_eq!(matches!(action, CacheAction::StoreByRename), self.has_directory);
                match state {
                    CacheState::Storing { body } if self.storable => {
                        self.file = Some(body.clone());
                        CacheEvent::Stored
                    }
                    _ => CacheEvent::Failed,
                }
            }
            other => panic!("{other:?}"),
        }
    }

    /// The bytes, or the status of a refusal.
    fn call(&mut self) -> Result<Vec<u8>, Option<u16>> {
        let event = CacheEvent::Looked { exists: self.file.is_some() };
        let (mut state, mut action) = cached_or_fetch(CacheState::Looking, event);
        loop {
            match action {
                CacheAction::Answer { bytes } => return Ok(bytes),
                CacheAction::Refused { status } => return Err(Some(status)),
                CacheAction::Fail => return Err(None),
                _ => {}
            }
            let event = self.perform(&state, &action);
            (state, action) = cached_or_fetch(state, event);
        }
    }
}

#[test]
fn kept_files_are_fetched_once() {
    for has_directory in [true, false] {
        let mut world = KeptWorld {
            file: None,
            requests: 0,
            status: 404,
            body: vec![1, 2, 3],
            has_directory,
            storable: true,
        };
        assert_eq!(world.call(), Err(Some(404)));
        assert_eq!((world.requests, world.file.clone()), (1, None));

        world.status = 200;
        world.storable = false;
        assert_eq!(world.call(), Err(None));
        assert_eq!((world.requests, world.file.clone()), (2, None));

        world.storable = true;
        assert_eq!(world.call(), Ok(vec![1, 2, 3]));
        assert_eq!((world.requests, world.file.clone()), (3, Some(vec![1, 2, 3])));

        world.body = vec![4];
        assert_eq!(world.call(), Ok(vec![1, 2, 3]));
        assert_eq!((world.requests, world.file.clone()), (3, Some(vec![1, 2, 3])));
    }
}

#[test]
fn kept_files_that_cannot_be_had() {
    let fails = |state, event| matches!(cached_or_fetch(state, event).1, CacheAction::Fail);
    assert!(fails(CacheState::Reading, CacheEvent::Failed));
    assert!(fails(CacheState::Fetching, CacheEvent::Failed));
    assert!(fails(CacheState::TakingBody, CacheEvent::Failed));
    assert!(fails(CacheState::Storing { body: vec![1] }, CacheEvent::Failed));
    assert!(fails(CacheState::Over, CacheEvent::Stored));
}

/// Runs a download whose attempts get these replies. Gives what the file holds, the requests,
/// the waits, and whether the download has worked.
fn run_download(replies: &[(u16, &[u8], bool)]) -> (Option<Vec<u8>>, Vec<String>, Vec<u64>, bool) {
    let mut download = Download::new("http://a/b".to_string(), MAX_RETRIES);
    let (mut file, mut requests, mut waits) = (None, Vec::new(), Vec::new());
    let mut event = DownloadEvent::Done;
    loop {
        let reply = replies[download.attempt as usize - 1];
        event = match download.step(event) {
            DownloadAction::Request { url } => {
                requests.push(url);
                DownloadEvent::Replied { status: reply.0 }
            }
            DownloadAction::TakeBody => DownloadEvent::Body { bytes: reply.1.to_vec() },
            DownloadAction::Store { body } => {
                if reply.2 {
                    file = Some(body);
                    DownloadEvent::Done
                } else {
                    DownloadEvent::Failed
                }
            }
            DownloadAction::Wait { secs } => {
                waits.push(secs);
                DownloadEvent::Done
            }
            DownloadAction::Finish => return (file, requests, waits, true),
            DownloadAction::GiveUp { attempts } => {
                assert_eq!(attempts, 3);
                assert!(matches!(download.step(DownloadEvent::Done), DownloadAction::Nothing));
                return (file, requests, waits, false);
            }
            DownloadAction::Nothing => panic!("the download is over"),
        };
    }
}

#[test]
fn downloads_end_at_their_first_success() {
    let requests = |count| vec!["http://a/b".to_string(); count];
    assert_eq!(
        run_download(&[(200, &[1, 2], true)]),
        (Some(vec![1, 2]), requests(1), vec![], true)
    );
    assert_eq!(
        run_download(&[(503, &[9], true), (206, &[3], true)]),
        (Some(vec![3]), requests(2), vec![5], true)
    );
    assert_eq!(
        run_download(&[(200, &[9], false), (404, &[9], true), (200, &[], true)]),
        (Some(vec![]), requests(3), vec![5, 10], true)
    );
    assert_eq!(
        run_download(&[(404, &[9], true), (404, &[9], true), (500, &[9], true)]),
        (None, requests(3), vec![5, 10], false)
    );
}

#[test]
fn failed_steps_end_an_attempt() {
    let mut download = Download::new("u".to_string(), 2);
    assert!(matches!(download.step(DownloadEvent::Done), DownloadAction::Request { .. }));
    assert!(matches!(download.step(DownloadEvent::Failed), DownloadAction::Wait { secs: 5 }));
    assert!(matches!(download.step(DownloadEvent::Done), DownloadAction::Request { .. }));
    let reply = DownloadEvent::Replied { status: 200 };
    assert!(matches!(download.step(reply), DownloadAction::TakeBody));
    let last = download.step(DownloadEvent::Failed);
    assert!(matches!(last, DownloadAction::GiveUp { attempts: 2 }));
}

#[test]
fn downloads_are_tried_again() {
    let waits = |attempt| after_attempt(attempt, MAX_RETRIES, false);
    assert_eq!(waits(1), RetryStep::Wait { secs: 5, attempt: 2 });
    assert_eq!(waits(2), RetryStep::Wait { secs: 10, attempt: 3 });
    assert_eq!(waits(3), RetryStep::GiveUp { attempts: 3 });
    assert_eq!(after_attempt(3, MAX_RETRIES, true), RetryStep::Done);
    assert_eq!(after_attempt(1, 1, false), RetryStep::GiveUp { attempts: 1 });
    let last = after_attempt(u32::MAX - 1, u32::MAX, false);
    assert_eq!(last, RetryStep::Wait { secs: 21474836470, attempt: u32::MAX });
}

fn entry(sim_slot: u64, import_root: &str) -> PlanEntryWire {
    PlanEntryWire {
        sim_slot,
        eval_slot: sim_slot + 1,
        import_blocks: vec![PlanBlockImportWire {
            slot: sim_slot,
            root: import_root.to_string(),
            canonical: true,
        }],
        attestation_sources: vec![PlanAttestationSourceWire {
            slot: sim_slot + 1,
            max_attestation_slot: Some(sim_slot),
        }],
        source_block_slot: Some(sim_slot + 1),
    }
}

#[test]
fn plan_holds_its_entries() {
    let response = PlanResponse {
        version: Some(2),
        entries: vec![entry(7, &root_text(1)), entry(6, &root_text(2))],
    };
    let plan = attestation_plan(&response).unwrap();
    assert_eq!(plan.len(), 2);
    let seven = plan.get(&7).unwrap();
    assert_eq!(seven.eval_slot, 8);
    assert_eq!(seven.import_blocks.len(), 1);
    assert_eq!(seven.import_blocks[0].slot, 7);
    assert_eq!(seven.import_blocks[0].root, root(1));
    assert!(seven.import_blocks[0].canonical);
    assert_eq!(seven.attestation_sources[0].slot, 8);
    assert_eq!(seven.attestation_sources[0].max_attestation_slot, Some(7));
    assert_eq!(seven.source_block_slot, Some(8));
    assert_eq!(plan.get(&6).unwrap().import_blocks[0].root, root(2));
}

#[test]
fn plans_that_cannot_be_read_are_refused() {
    let plan = |version, entries| attestation_plan(&PlanResponse { version, entries }).unwrap_err();
    assert_eq!(plan(None, vec![]), PlanError::MissingVersion);
    assert_eq!(plan(Some(1), vec![]), PlanError::UnsupportedVersion { version: 1 });
    assert_eq!(plan(Some(3), vec![]), PlanError::UnsupportedVersion { version: 3 });
    assert_eq!(
        plan(Some(2), vec![entry(7, "0x12")]),
        PlanError::InvalidImportRoot {
            sim_slot: 7,
            slot: 7,
            cause: RootError::WrongLength { hex_chars: 2 }
        }
    );
    let twice = vec![entry(7, &root_text(1)), entry(7, &root_text(1))];
    assert_eq!(plan(Some(2), twice), PlanError::DuplicateSimSlot { sim_slot: 7 });
    let empty = PlanResponse { version: Some(2), entries: vec![] };
    assert!(attestation_plan(&empty).unwrap().is_empty());
}

fn attestation() -> PlanAttestationWire {
    PlanAttestationWire {
        aggregation_bits: "0x0f01".to_string(),
        committee_bits: Some("0x01".to_string()),
        data: PlanAttestationDataWire {
            slot: 7,
            index: 3,
            beacon_block_root: root_text(4),
            source: PlanCheckpointWire { epoch: 1, root: root_text(5) },
            target: PlanCheckpointWire { epoch: 2, root: root_text(6) },
        },
    }
}

fn slot_response(sim_slot: u64, attestation: PlanAttestationWire) -> SlotResponse {
    SlotResponse {
        version: Some(3),
        slot: SlotInstructionWire {
            sim_slot,
            eval_slot: sim_slot + 1,
            import_blocks: vec![SlotImportWire {
                slot: sim_slot,
                root: root_text(9),
                canonical: false,
            }],
            attestations: vec![attestation],
        },
    }
}

#[test]
fn slot_instruction_is_read() {
    let instruction = slot_instruction(8, &slot_response(8, attestation())).unwrap();
    assert_eq!(instruction.sim_slot, 8);
    assert_eq!(instruction.eval_slot, 9);
    assert_eq!(instruction.import_blocks[0].root, root(9));
    assert!(!instruction.import_blocks[0].canonical);
    let read = &instruction.attestations[0];
    assert_eq!(read.aggregation_bits, vec![0x0f, 0x01]);
    assert_eq!(read.committee_bits, Some(vec![0x01]));
    assert_eq!(read.data.slot, 7);
    assert_eq!(read.data.index, 3);
    assert_eq!(read.data.beacon_block_root, root(4));
    assert_eq!(read.data.source.epoch, 1);
    assert_eq!(read.data.source.root, root(5));
    assert_eq!(read.data.target.epoch, 2);
    assert_eq!(read.data.target.root, root(6));
}

#[test]
fn slot_instructions_that_cannot_be_read_are_refused() {
    let mut response = slot_response(8, attestation());
    response.version = None;
    assert_eq!(
        slot_instruction(8, &response).unwrap_err(),
        SlotInstructionError::MissingVersion
    );
    response.version = Some(2);
    assert_eq!(
        slot_instruction(8, &response).unwrap_err(),
        SlotInstructionError::UnsupportedVersion { version: 2 }
    );
    response.version = Some(3);
    assert_eq!(
        slot_instruction(9, &response).unwrap_err(),
        SlotInstructionError::SimSlotMismatch { requested: 9, got: 8 }
    );
    response.slot.import_blocks[0].root = "zz".to_string();
    let cause = RootError::WrongLength { hex_chars: 2 };
    assert_eq!(
        slot_instruction(8, &response).unwrap_err(),
        SlotInstructionError::InvalidImportRoot { sim_slot: 8, slot: 8, cause }
    );
}

fn attestation_failure(attestation: PlanAttestationWire) -> AttestationError {
    match slot_instruction(8, &slot_response(8, attestation)) {
        Err(SlotInstructionError::InvalidAttestation { cause }) => cause,
        other => panic!("{other:?}"),
    }
}

#[test]
fn attestations_that_cannot_be_read_are_refused() {
    let odd = HexBytesError::OddLength;
    let short = RootError::WrongLength { hex_chars: 0 };
    let mut bad = attestation();
    bad.aggregation_bits = "0x1".to_string();
    assert_eq!(
        attestation_failure(bad),
        AttestationError::InvalidAggregationBits { cause: odd }
    );
    let mut bad = attestation();
    bad.committee_bits = Some("1".to_string());
    assert_eq!(
        attestation_failure(bad),
        AttestationError::InvalidCommitteeBits { cause: odd }
    );
    let mut bad = attestation();
    bad.data.beacon_block_root = String::new();
    assert_eq!(
        attestation_failure(bad),
        AttestationError::InvalidBeaconBlockRoot { cause: short }
    );
    let mut bad = attestation();
    bad.data.source.root = String::new();
    assert_eq!(attestation_failure(bad), AttestationError::InvalidSource { cause: short });
    let mut bad = attestation();
    bad.data.target.root = String::new();
    assert_eq!(attestation_failure(bad), AttestationError::InvalidTarget { cause: short });
    let mut without = attestation();
    without.committee_bits = None;
    let instruction = slot_instruction(8, &slot_response(8, without)).unwrap();
    assert_eq!(instruction.attestations[0].committee_bits, None);
}
