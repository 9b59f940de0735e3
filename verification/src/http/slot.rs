//! Slot instructions: what to import and which attestations to apply in one slot, sent slot
//! by slot.
use vstd::prelude::*;
use vstd::string::StringExecFns;

use crate::hash256::hex_bytes_parsed;
use crate::hash256::parse_hex_bytes;
use crate::hash256::parse_root;
use crate::hash256::root_parsed;
use crate::hash256::roots_equal_by_bytes;
use crate::hash256::Hash256;
use crate::hash256::HexBytesError;
use crate::hash256::RootError;
use crate::http::base_url;
use crate::http::trailing_slashes_make_no_difference;
use crate::http::without_trailing_slashes;
use crate::text::between;
use crate::text::decimal;
use crate::text::ends_with;
use crate::text::is_digit;
use crate::text::lemma_three_parts;
use crate::text::lemma_two_numbers;
use crate::text::push_decimal;
use crate::text::starts_with;
use crate::types::Epoch;
use crate::types::Slot;

verus! {

/// The one version of slot instructions that is understood.
pub const SLOT_INSTRUCTION_VERSION: u64 = 3;

/// What to do in one simulated slot.
#[derive(Debug)]
pub struct SlotInstruction {
    pub sim_slot: Slot,
    pub eval_slot: Slot,
    pub import_blocks: Vec<PlanBlockImport>,
    pub attestations: Vec<PlanAttestation>,
}

/// A block to import.
#[derive(Clone, Copy, Debug)]
pub struct PlanBlockImport {
    pub slot: Slot,
    pub root: Hash256,
    pub canonical: bool,
}

/// An attestation to apply.
#[derive(Debug)]
pub struct PlanAttestation {
    pub aggregation_bits: Vec<u8>,
    pub committee_bits: Option<Vec<u8>>,
    pub data: PlanAttestationData,
}

/// What an attestation attests.
#[derive(Clone, Copy, Debug)]
pub struct PlanAttestationData {
    pub slot: Slot,
    pub index: u64,
    pub beacon_block_root: Hash256,
    pub source: PlanCheckpoint,
    pub target: PlanCheckpoint,
}

/// A checkpoint that an attestation names.
#[derive(Clone, Copy, Debug)]
pub struct PlanCheckpoint {
    pub epoch: Epoch,
    pub root: Hash256,
}

/// A slot instruction as the orchestrator sends it.
#[derive(Debug)]
pub struct SlotResponse {
    pub version: Option<u64>,
    pub slot: SlotInstructionWire,
}

/// The slot of a slot instruction as the orchestrator sends it.
#[derive(Debug)]
pub struct SlotInstructionWire {
    pub sim_slot: u64,
    pub eval_slot: u64,
    pub import_blocks: Vec<PlanBlockImportWire>,
    pub attestations: Vec<PlanAttestationWire>,
}

/// A block to import as the orchestrator sends it.
#[derive(Debug)]
pub struct PlanBlockImportWire {
    pub slot: u64,
    pub root: String,
    pub canonical: bool,
}

/// An attestation as the orchestrator sends it.
#[derive(Debug)]
pub struct PlanAttestationWire {
    pub aggregation_bits: String,
    pub committee_bits: Option<String>,
    pub data: PlanAttestationDataWire,
}

/// What an attestation attests, as the orchestrator sends it.
#[derive(Debug)]
pub struct PlanAttestationDataWire {
    pub slot: u64,
    pub index: u64,
    pub beacon_block_root: String,
    pub source: PlanCheckpointWire,
    pub target: PlanCheckpointWire,
}

/// A checkpoint as the orchestrator sends it.
#[derive(Debug)]
pub struct PlanCheckpointWire {
    pub epoch: u64,
    pub root: String,
}

/// Why an attestation cannot be read.
#[allow(inconsistent_fields)]
#[derive(Clone, Copy, Debug, PartialEq, Eq, Structural)]
pub enum AttestationError {
    InvalidAggregationBits { cause: HexBytesError },
    InvalidCommitteeBits { cause: HexBytesError },
    InvalidBeaconBlockRoot { cause: RootError },
    InvalidSource { cause: RootError },
    InvalidTarget { cause: RootError },
}

/// Why a slot instruction is refused.
#[allow(inconsistent_fields)]
#[derive(Clone, Copy, Debug, PartialEq, Eq, Structural)]
pub enum SlotInstructionError {
    MissingVersion,
    UnsupportedVersion { version: u64 },
    SimSlotMismatch { requested: Slot, got: u64 },
    InvalidImportRoot { sim_slot: Slot, slot: u64, cause: RootError },
    InvalidAttestation { cause: AttestationError },
}

/// The address of the instruction for `sim_slot` in a run that starts at
/// `warmup_start_slot`.
pub open spec fn slot_url_text(
    beacon_node_url: Seq<char>,
    sim_slot: Slot,
    warmup_start_slot: Slot,
) -> Seq<char> {
    without_trailing_slashes(beacon_node_url) + "/fcr-sim/v1/slot/"@ + decimal(sim_slot as nat)
        + "?warmup_start_slot="@ + decimal(warmup_start_slot as nat)
}

/// The address of the instruction for `sim_slot` in a run that starts at
/// `warmup_start_slot`.
pub fn slot_url(beacon_node_url: &str, sim_slot: Slot, warmup_start_slot: Slot) -> (res: String)
    ensures
        res@ == slot_url_text(beacon_node_url@, sim_slot, warmup_start_slot),
{
    let mut url = base_url(beacon_node_url);
    url.append("/fcr-sim/v1/slot/");
    push_decimal(&mut url, sim_slot);
    url.append("?warmup_start_slot=");
    push_decimal(&mut url, warmup_start_slot);
    url
}

/// `checkpoint` is what `wire` says.
pub open spec fn checkpoint_matches(wire: PlanCheckpointWire, checkpoint: PlanCheckpoint) -> bool {
    &&& checkpoint.epoch == wire.epoch
    &&& root_parsed(wire.root@) == Ok::<Seq<u8>, RootError>(checkpoint.root@)
}

/// `data` is what `wire` says.
pub open spec fn data_matches(wire: PlanAttestationDataWire, data: PlanAttestationData) -> bool {
    &&& data.slot == wire.slot
    &&& data.index == wire.index
    &&& root_parsed(wire.beacon_block_root@) == Ok::<Seq<u8>, RootError>(data.beacon_block_root@)
    &&& checkpoint_matches(wire.source, data.source)
    &&& checkpoint_matches(wire.target, data.target)
}

/// `attestation` is what `wire` says.
pub open spec fn attestation_matches(
    wire: PlanAttestationWire,
    attestation: PlanAttestation,
) -> bool {
    &&& hex_bytes_parsed(wire.aggregation_bits@) == Ok::<Seq<u8>, HexBytesError>(
        attestation.aggregation_bits@,
    )
    &&& match (wire.committee_bits, attestation.committee_bits) {
        (None, None) => true,
        (Some(text), Some(bits)) => hex_bytes_parsed(text@) == Ok::<Seq<u8>, HexBytesError>(bits@),
        _ => false,
    }
    &&& data_matches(wire.data, attestation.data)
}

/// `block` is what `wire` says.
pub open spec fn import_matches(wire: PlanBlockImportWire, block: PlanBlockImport) -> bool {
    &&& block.slot == wire.slot
    &&& block.canonical == wire.canonical
    &&& root_parsed(wire.root@) == Ok::<Seq<u8>, RootError>(block.root@)
}

/// Why what an attestation attests cannot be read: its parts are taken in the order block,
/// source, target.
pub open spec fn data_failure(wire: PlanAttestationDataWire) -> Option<AttestationError> {
    match root_parsed(wire.beacon_block_root@) {
        Err(cause) => Some(AttestationError::InvalidBeaconBlockRoot { cause }),
        Ok(_) => match root_parsed(wire.source.root@) {
            Err(cause) => Some(AttestationError::InvalidSource { cause }),
            Ok(_) => match root_parsed(wire.target.root@) {
                Err(cause) => Some(AttestationError::InvalidTarget { cause }),
                Ok(_) => None,
            },
        },
    }
}

/// Why an attestation cannot be read: its bits are taken before what it attests.
pub open spec fn attestation_failure(wire: PlanAttestationWire) -> Option<AttestationError> {
    match hex_bytes_parsed(wire.aggregation_bits@) {
        Err(cause) => Some(AttestationError::InvalidAggregationBits { cause }),
        Ok(_) => match wire.committee_bits {
            Some(text) => match hex_bytes_parsed(text@) {
                Err(cause) => Some(AttestationError::InvalidCommitteeBits { cause }),
                Ok(_) => data_failure(wire.data),
            },
            None => data_failure(wire.data),
        },
    }
}

/// The error for the first import, from position `from` on, whose root cannot be read.
pub open spec fn import_failure(
    sim_slot: Slot,
    imports: Seq<PlanBlockImportWire>,
    from: int,
) -> Option<SlotInstructionError>
    decreases imports.len() - from,
{
    if from < 0 || from >= imports.len() {
        None
    } else {
        match root_parsed(imports[from].root@) {
            Err(cause) => Some(
                SlotInstructionError::InvalidImportRoot {
                    sim_slot,
                    slot: imports[from].slot,
                    cause,
                },
            ),
            Ok(_) => import_failure(sim_slot, imports, from + 1),
        }
    }
}

/// The error for the first attestation, from position `from` on, that cannot be read.
pub open spec fn attestations_failure(
    attestations: Seq<PlanAttestationWire>,
    from: int,
) -> Option<SlotInstructionError>
    decreases attestations.len() - from,
{
    if from < 0 || from >= attestations.len() {
        None
    } else {
        match attestation_failure(attestations[from]) {
            Some(cause) => Some(SlotInstructionError::InvalidAttestation { cause }),
            None => attestations_failure(attestations, from + 1),
        }
    }
}

/// Why a response is no instruction for `sim_slot`, if it is none: version, slot, imports and
/// attestations are looked at in this order.
pub open spec fn instruction_failure(
    sim_slot: Slot,
    response: SlotResponse,
) -> Option<SlotInstructionError> {
    match response.version {
        None => Some(SlotInstructionError::MissingVersion),
        Some(version) => if version != SLOT_INSTRUCTION_VERSION {
            Some(SlotInstructionError::UnsupportedVersion { version })
        } else if response.slot.sim_slot != sim_slot {
            Some(
                SlotInstructionError::SimSlotMismatch {
                    requested: sim_slot,
                    got: response.slot.sim_slot,
                },
            )
        } else {
            match import_failure(sim_slot, response.slot.import_blocks@, 0) {
                Some(e) => Some(e),
                None => attestations_failure(response.slot.attestations@, 0),
            }
        },
    }
}

/// `instruction` is what `wire` says, its blocks and attestations in the same order.
pub open spec fn instruction_matches(
    wire: SlotInstructionWire,
    instruction: SlotInstruction,
) -> bool {
    &&& instruction.sim_slot == wire.sim_slot
    &&& instruction.eval_slot == wire.eval_slot
    &&& instruction.import_blocks@.len() == wire.import_blocks@.len()
    &&& forall|i: int|
        0 <= i < wire.import_blocks@.len() ==> import_matches(
            #[trigger] wire.import_blocks@[i],
            instruction.import_blocks@[i],
        )
    &&& instruction.attestations@.len() == wire.attestations@.len()
    &&& forall|i: int|
        0 <= i < wire.attestations@.len() ==> attestation_matches(
            #[trigger] wire.attestations@[i],
            instruction.attestations@[i],
        )
}

/// Reads a checkpoint.
pub fn parse_checkpoint(checkpoint: &PlanCheckpointWire) -> (res: Result<PlanCheckpoint, RootError>)
    ensures
        match res {
            Ok(parsed) => checkpoint_matches(*checkpoint, parsed),
            Err(cause) => root_parsed(checkpoint.root@) == Err::<Seq<u8>, RootError>(cause),
        },
{
    match parse_root(checkpoint.root.as_str()) {
        Ok(root) => Ok(PlanCheckpoint { epoch: checkpoint.epoch, root }),
        Err(cause) => Err(cause),
    }
}

/// Reads what an attestation attests.
pub fn parse_attestation_data(data: &PlanAttestationDataWire) -> (res: Result<
    PlanAttestationData,
    AttestationError,
>)
    ensures
        match res {
            Ok(parsed) => data_failure(*data) is None && data_matches(*data, parsed),
            Err(e) => data_failure(*data) == Some(e),
        },
{
    let beacon_block_root = match parse_root(data.beacon_block_root.as_str()) {
        Ok(root) => root,
        Err(cause) => {
            return Err(AttestationError::InvalidBeaconBlockRoot { cause });
        },
    };
    let source = match parse_checkpoint(&data.source) {
        Ok(checkpoint) => checkpoint,
        Err(cause) => {
            return Err(AttestationError::InvalidSource { cause });
        },
    };
    let target = match parse_checkpoint(&data.target) {
        Ok(checkpoint) => checkpoint,
        Err(cause) => {
            return Err(AttestationError::InvalidTarget { cause });
        },
    };
    Ok(
        PlanAttestationData {
            slot: data.slot,
            index: data.index,
            beacon_block_root,
            source,
            target,
        },
    )
}

/// Reads an attestation.
pub fn parse_attestation(attestation: &PlanAttestationWire) -> (res: Result<
    PlanAttestation,
    AttestationError,
>)
    ensures
        match res {
            Ok(parsed) => attestation_failure(*attestation) is None && attestation_matches(
                *attestation,
                parsed,
            ),
            Err(e) => attestation_failure(*attestation) == Some(e),
        },
{
    let aggregation_bits = match parse_hex_bytes(attestation.aggregation_bits.as_str()) {
        Ok(bits) => bits,
        Err(cause) => {
            return Err(AttestationError::InvalidAggregationBits { cause });
        },
    };
    let committee_bits = match &attestation.committee_bits {
        Some(text) => match parse_hex_bytes(text.as_str()) {
            Ok(bits) => Some(bits),
            Err(cause) => {
                return Err(AttestationError::InvalidCommitteeBits { cause });
            },
        },
        None => None,
    };
    match parse_attestation_data(&attestation.data) {
        Ok(data) => Ok(PlanAttestation { aggregation_bits, committee_bits, data }),
        Err(e) => Err(e),
    }
}

fn instruction_imports(sim_slot: Slot, wires: &Vec<PlanBlockImportWire>) -> (res: Result<
    Vec<PlanBlockImport>,
    SlotInstructionError,
>)
    ensures
        match res {
            Ok(imports) => {
                &&& import_failure(sim_slot, wires@, 0) is None
                &&& imports@.len() == wires@.len()
                &&& forall|i: int|
                    0 <= i < wires@.len() ==> import_matches(#[trigger] wires@[i], imports@[i])
            },
            Err(e) => import_failure(sim_slot, wires@, 0) == Some(e),
        },
{
    let mut imports: Vec<PlanBlockImport> = Vec::new();
    let mut i: usize = 0;
    while i < wires.len()
        invariant
            0 <= i <= wires@.len(),
            imports@.len() == i,
            forall|j: int| 0 <= j < i ==> import_matches(#[trigger] wires@[j], imports@[j]),
            import_failure(sim_slot, wires@, 0) == import_failure(sim_slot, wires@, i as int),
        decreases wires@.len() - i,
    {
        let wire = &wires[i];
        match parse_root(wire.root.as_str()) {
            Ok(root) => {
                imports.push(
                    PlanBlockImport { slot: wire.slot, root, canonical: wire.canonical },
                );
            },
            Err(cause) => {
                return Err(
                    SlotInstructionError::InvalidImportRoot { sim_slot, slot: wire.slot, cause },
                );
            },
        }
        i = i + 1;
    }
    Ok(imports)
}

fn instruction_attestations(wires: &Vec<PlanAttestationWire>) -> (res: Result<
    Vec<PlanAttestation>,
    SlotInstructionError,
>)
    ensures
        match res {
            Ok(attestations) => {
                &&& attestations_failure(wires@, 0) is None
                &&& attestations@.len() == wires@.len()
                &&& forall|i: int|
                    0 <= i < wires@.len() ==> attestation_matches(
                        #[trigger] wires@[i],
                        attestations@[i],
                    )
            },
            Err(e) => attestations_failure(wires@, 0) == Some(e),
        },
{
    let mut attestations: Vec<PlanAttestation> = Vec::new();
    let mut i: usize = 0;
    while i < wires.len()
        invariant
            0 <= i <= wires@.len(),
            attestations@.len() == i,
            forall|j: int|
                0 <= j < i ==> attestation_matches(#[trigger] wires@[j], attestations@[j]),
            attestations_failure(wires@, 0) == attestations_failure(wires@, i as int),
        decreases wires@.len() - i,
    {
        match parse_attestation(&wires[i]) {
            Ok(attestation) => {
                attestations.push(attestation);
            },
            Err(cause) => {
                return Err(SlotInstructionError::InvalidAttestation { cause });
            },
        }
        i = i + 1;
    }
    Ok(attestations)
}

/// The instruction for `sim_slot` that a response holds.
pub fn slot_instruction(sim_slot: Slot, response: &SlotResponse) -> (res: Result<
    SlotInstruction,
    SlotInstructionError,
>)
    ensures
        match res {
            Ok(instruction) => {
                &&& instruction_failure(sim_slot, *response) is None
                &&& instruction_matches(response.slot, instruction)
            },
            Err(e) => instruction_failure(sim_slot, *response) == Some(e),
        },
{
    match response.version {
        None => {
            return Err(SlotInstructionError::MissingVersion);
        },
        Some(version) => {
            if version != SLOT_INSTRUCTION_VERSION {
                return Err(SlotInstructionError::UnsupportedVersion { version });
            }
        },
    }
    let slot = &response.slot;
    if slot.sim_slot != sim_slot {
        return Err(
            SlotInstructionError::SimSlotMismatch { requested: sim_slot, got: slot.sim_slot },
        );
    }
    let import_blocks = match instruction_imports(sim_slot, &slot.import_blocks) {
        Ok(imports) => imports,
        Err(e) => {
            return Err(e);
        },
    };
    let attestations = match instruction_attestations(&slot.attestations) {
        Ok(attestations) => attestations,
        Err(e) => {
            return Err(e);
        },
    };
    Ok(
        SlotInstruction {
            sim_slot: slot.sim_slot,
            eval_slot: slot.eval_slot,
            import_blocks,
            attestations,
        },
    )
}

/// Which responses are instructions for `sim_slot`: those of the known version, for that slot,
/// in which every root and every bit string can be read.
pub proof fn instruction_accepted_iff(sim_slot: Slot, response: SlotResponse)
    ensures
        instruction_failure(sim_slot, response) is None <==> {
            &&& response.version == Some(SLOT_INSTRUCTION_VERSION)
            &&& response.slot.sim_slot == sim_slot
            &&& forall|i: int|
                0 <= i < response.slot.import_blocks@.len() ==> root_parsed(
                    #[trigger] response.slot.import_blocks@[i].root@,
                ) is Ok
            &&& forall|i: int|
                0 <= i < response.slot.attestations@.len() ==> attestation_failure(
                    #[trigger] response.slot.attestations@[i],
                ) is None
        },
{
    lemma_import_failure(sim_slot, response.slot.import_blocks@, 0);
    lemma_attestations_failure(response.slot.attestations@, 0);
}

proof fn lemma_import_failure(sim_slot: Slot, imports: Seq<PlanBlockImportWire>, from: int)
    requires
        0 <= from,
    ensures
        import_failure(sim_slot, imports, from) is None <==> forall|i: int|
            from <= i < imports.len() ==> root_parsed(#[trigger] imports[i].root@) is Ok,
    decreases imports.len() - from,
{
    if from < imports.len() {
        lemma_import_failure(sim_slot, imports, from + 1);
        assert(root_parsed(imports[from].root@) is Ok || root_parsed(imports[from].root@) is Err);
    }
}

proof fn lemma_attestations_failure(attestations: Seq<PlanAttestationWire>, from: int)
    requires
        0 <= from,
    ensures
        attestations_failure(attestations, from) is None <==> forall|i: int|
            from <= i < attestations.len() ==> attestation_failure(
                #[trigger] attestations[i],
            ) is None,
    decreases attestations.len() - from,
{
    if from < attestations.len() {
        lemma_attestations_failure(attestations, from + 1);
        assert(attestation_failure(attestations[from]) is None || attestation_failure(
            attestations[from],
        ) is Some);
    }
}

/// A block to import is decoded as it was sent: its slot and whether it is canonical are those
/// that were sent, and its root is the one that the text stands for. So two that differ in
/// whether they are canonical are decoded to two that do.
pub proof fn instructed_imports_are_decoded_as_sent(
    wire: PlanBlockImportWire,
    block: PlanBlockImport,
    other: PlanBlockImportWire,
    other_block: PlanBlockImport,
)
    requires
        import_matches(wire, block),
        import_matches(other, other_block),
    ensures
        block.slot == wire.slot,
        wire.canonical <==> block.canonical,
        root_parsed(wire.root@) == Ok::<Seq<u8>, RootError>(block.root@),
        wire.canonical != other.canonical ==> block.canonical != other_block.canonical,
        wire.slot == other.slot && wire.root@ == other.root@ && wire.canonical == other.canonical
            ==> block == other_block,
{
    if wire.root@ == other.root@ {
        roots_equal_by_bytes(block.root, other_block.root);
    }
}

/// A checkpoint is decoded as it was sent.
pub proof fn checkpoints_are_decoded_as_sent(wire: PlanCheckpointWire, checkpoint: PlanCheckpoint)
    requires
        checkpoint_matches(wire, checkpoint),
    ensures
        checkpoint.epoch == wire.epoch,
        root_parsed(wire.root@) == Ok::<Seq<u8>, RootError>(checkpoint.root@),
{
}

/// An attestation is decoded as it was sent: its bits are the bytes that the texts stand for, the
/// committees' just where they were sent, and what it attests has the slot, the index, the block
/// and, each in its place, the two checkpoints that were sent.
pub proof fn attestations_are_decoded_as_sent(
    wire: PlanAttestationWire,
    attestation: PlanAttestation,
)
    requires
        attestation_matches(wire, attestation),
    ensures
        hex_bytes_parsed(wire.aggregation_bits@) == Ok::<Seq<u8>, HexBytesError>(
            attestation.aggregation_bits@,
        ),
        wire.committee_bits is Some <==> attestation.committee_bits is Some,
        wire.committee_bits is Some ==> hex_bytes_parsed(wire.committee_bits->0@) == Ok::<
            Seq<u8>,
            HexBytesError,
        >(attestation.committee_bits->0@),
        attestation.data.slot == wire.data.slot,
        attestation.data.index == wire.data.index,
        root_parsed(wire.data.beacon_block_root@) == Ok::<Seq<u8>, RootError>(
            attestation.data.beacon_block_root@,
        ),
        attestation.data.source.epoch == wire.data.source.epoch,
        root_parsed(wire.data.source.root@) == Ok::<Seq<u8>, RootError>(
            attestation.data.source.root@,
        ),
        attestation.data.target.epoch == wire.data.target.epoch,
        root_parsed(wire.data.target.root@) == Ok::<Seq<u8>, RootError>(
            attestation.data.target.root@,
        ),
{
}

/// An attestation can be read just where its bits are bytes and its roots are roots.
pub proof fn readable_attestations(wire: PlanAttestationWire)
    ensures
        attestation_failure(wire) is None <==> {
            &&& hex_bytes_parsed(wire.aggregation_bits@) is Ok
            &&& wire.committee_bits is Some ==> hex_bytes_parsed(wire.committee_bits->0@) is Ok
            &&& root_parsed(wire.data.beacon_block_root@) is Ok
            &&& root_parsed(wire.data.source.root@) is Ok
            &&& root_parsed(wire.data.target.root@) is Ok
        },
        match attestation_failure(wire) {
            None => true,
            Some(AttestationError::InvalidAggregationBits { cause }) => hex_bytes_parsed(
                wire.aggregation_bits@,
            ) == Err::<Seq<u8>, HexBytesError>(cause),
            Some(AttestationError::InvalidCommitteeBits { cause }) => {
                &&& hex_bytes_parsed(wire.aggregation_bits@) is Ok
                &&& wire.committee_bits is Some
                &&& hex_bytes_parsed(wire.committee_bits->0@) == Err::<Seq<u8>, HexBytesError>(
                    cause,
                )
            },
            Some(AttestationError::InvalidBeaconBlockRoot { cause }) => {
                &&& hex_bytes_parsed(wire.aggregation_bits@) is Ok
                &&& root_parsed(wire.data.beacon_block_root@) == Err::<Seq<u8>, RootError>(cause)
            },
            Some(AttestationError::InvalidSource { cause }) => {
                &&& root_parsed(wire.data.beacon_block_root@) is Ok
                &&& root_parsed(wire.data.source.root@) == Err::<Seq<u8>, RootError>(cause)
            },
            Some(AttestationError::InvalidTarget { cause }) => {
                &&& root_parsed(wire.data.beacon_block_root@) is Ok
                &&& root_parsed(wire.data.source.root@) is Ok
                &&& root_parsed(wire.data.target.root@) == Err::<Seq<u8>, RootError>(cause)
            },
        },
{
}

/// An instruction says what was sent: its two slots, its blocks in their order, and its
/// attestations in theirs.
pub proof fn an_instruction_says_what_was_sent(
    wire: SlotInstructionWire,
    instruction: SlotInstruction,
)
    requires
        instruction_matches(wire, instruction),
    ensures
        instruction.sim_slot == wire.sim_slot,
        instruction.eval_slot == wire.eval_slot,
        instruction.import_blocks@.len() == wire.import_blocks@.len(),
        instruction.attestations@.len() == wire.attestations@.len(),
        forall|i: int|
            0 <= i < wire.import_blocks@.len() ==> {
                let sent = #[trigger] wire.import_blocks@[i];
                let block = instruction.import_blocks@[i];
                &&& block.slot == sent.slot
                &&& block.canonical == sent.canonical
                &&& root_parsed(sent.root@) == Ok::<Seq<u8>, RootError>(block.root@)
            },
        forall|i: int|
            0 <= i < wire.attestations@.len() ==> {
                let sent = #[trigger] wire.attestations@[i];
                let attestation = instruction.attestations@[i];
                &&& attestation.data.slot == sent.data.slot
                &&& attestation.data.index == sent.data.index
                &&& hex_bytes_parsed(sent.aggregation_bits@) == Ok::<Seq<u8>, HexBytesError>(
                    attestation.aggregation_bits@,
                )
            },
{
    assert forall|i: int| 0 <= i < wire.import_blocks@.len() implies {
        let sent = #[trigger] wire.import_blocks@[i];
        let block = instruction.import_blocks@[i];
        &&& block.slot == sent.slot
        &&& block.canonical == sent.canonical
        &&& root_parsed(sent.root@) == Ok::<Seq<u8>, RootError>(block.root@)
    } by {
        assert(import_matches(wire.import_blocks@[i], instruction.import_blocks@[i]));
    }
    assert forall|i: int| 0 <= i < wire.attestations@.len() implies {
        let sent = #[trigger] wire.attestations@[i];
        let attestation = instruction.attestations@[i];
        &&& attestation.data.slot == sent.data.slot
        &&& attestation.data.index == sent.data.index
        &&& hex_bytes_parsed(sent.aggregation_bits@) == Ok::<Seq<u8>, HexBytesError>(
            attestation.aggregation_bits@,
        )
    } by {
        assert(attestation_matches(wire.attestations@[i], instruction.attestations@[i]));
    }
}

/// A refusal says what is wrong with the response: that it has no version, which other version
/// than the third it has, for which other slot it is, or which part of it is the first that
/// cannot be read.
pub proof fn a_refused_instruction_names_its_fault(sim_slot: Slot, response: SlotResponse)
    ensures
        ({
            let failure = instruction_failure(sim_slot, response);
            &&& failure == Some(SlotInstructionError::MissingVersion) <==> response.version is None
            &&& failure matches Some(SlotInstructionError::UnsupportedVersion { version })
                ==> response.version == Some(version)
            &&& response.version is Some ==> (response.version->0 != 3 <==> failure == Some(
                SlotInstructionError::UnsupportedVersion { version: response.version->0 },
            ))
            &&& response.version == Some(3u64) ==> (response.slot.sim_slot != sim_slot <==> failure
                == Some(
                SlotInstructionError::SimSlotMismatch {
                    requested: sim_slot,
                    got: response.slot.sim_slot,
                },
            ))
            &&& failure matches Some(SlotInstructionError::SimSlotMismatch { requested, got })
                ==> requested == sim_slot && got == response.slot.sim_slot
            &&& failure matches Some(
                SlotInstructionError::InvalidImportRoot { sim_slot: at, slot, cause },
            ) ==> at == sim_slot && exists|i: int|
                0 <= i < response.slot.import_blocks@.len() && (
                #[trigger] response.slot.import_blocks@[i]).slot == slot && root_parsed(
                    response.slot.import_blocks@[i].root@,
                ) == Err::<Seq<u8>, RootError>(cause) && forall|j: int|
                    0 <= j < i ==> root_parsed(
                        (#[trigger] response.slot.import_blocks@[j]).root@,
                    ) is Ok
            &&& failure matches Some(SlotInstructionError::InvalidAttestation { cause })
                ==> exists|i: int|
                0 <= i < response.slot.attestations@.len() && attestation_failure(
                    #[trigger] response.slot.attestations@[i],
                ) == Some(cause) && forall|j: int|
                    0 <= j < i ==> attestation_failure(
                        #[trigger] response.slot.attestations@[j],
                    ) is None
        }),
{
    if import_failure(sim_slot, response.slot.import_blocks@, 0) is Some {
        let at = lemma_bad_import(sim_slot, response.slot.import_blocks@, 0);
        assert(response.slot.import_blocks@[at].slot == response.slot.import_blocks@[at].slot);
    } else if attestations_failure(response.slot.attestations@, 0) is Some {
        let at = lemma_bad_attestation(response.slot.attestations@, 0);
        assert(attestation_failure(response.slot.attestations@[at]) is Some);
    }
}

proof fn lemma_bad_import(sim_slot: Slot, imports: Seq<PlanBlockImportWire>, from: int) -> (at: int)
    requires
        0 <= from,
        import_failure(sim_slot, imports, from) is Some,
    ensures
        from <= at < imports.len(),
        root_parsed(imports[at].root@) is Err,
        import_failure(sim_slot, imports, from) == Some(
            SlotInstructionError::InvalidImportRoot {
                sim_slot,
                slot: imports[at].slot,
                cause: root_parsed(imports[at].root@)->Err_0,
            },
        ),
        forall|j: int| from <= j < at ==> root_parsed((#[trigger] imports[j]).root@) is Ok,
    decreases imports.len() - from,
{
    if root_parsed(imports[from].root@) is Err {
        from
    } else {
        lemma_bad_import(sim_slot, imports, from + 1)
    }
}

proof fn lemma_bad_attestation(attestations: Seq<PlanAttestationWire>, from: int) -> (at: int)
    requires
        0 <= from,
        attestations_failure(attestations, from) is Some,
    ensures
        from <= at < attestations.len(),
        attestation_failure(attestations[at]) is Some,
        attestations_failure(attestations, from) == Some(
            SlotInstructionError::InvalidAttestation {
                cause: attestation_failure(attestations[at])->0,
            },
        ),
        forall|j: int| from <= j < at ==> attestation_failure(#[trigger] attestations[j]) is None,
    decreases attestations.len() - from,
{
    if attestation_failure(attestations[from]) is Some {
        from
    } else {
        lemma_bad_attestation(attestations, from + 1)
    }
}

/// The address of an instruction starts with the base address and ends with the slot that the run
/// starts from; slashes at the end of the base address make no difference; and instructions for
/// two slots, or for runs that start from two slots, have two addresses.
pub proof fn addresses_of_instructions_name_the_slots(
    url: Seq<char>,
    sim_slot: Slot,
    warmup_start_slot: Slot,
    other_url: Seq<char>,
    other_sim_slot: Slot,
    other_warmup_start_slot: Slot,
)
    ensures
        ({
            let base = without_trailing_slashes(url);
            let other_base = without_trailing_slashes(other_url);
            let text = slot_url_text(url, sim_slot, warmup_start_slot);
            let other = slot_url_text(other_url, other_sim_slot, other_warmup_start_slot);
            &&& starts_with(text, base)
            &&& ends_with(text, decimal(warmup_start_slot as nat))
            &&& sim_slot == other_sim_slot ==> between(text, base, decimal(warmup_start_slot as nat)) == between(
                other,
                other_base,
                decimal(other_warmup_start_slot as nat),
            )
            &&& slot_url_text(url.push('/'), sim_slot, warmup_start_slot) == text
            &&& slot_url_text(url, other_sim_slot, other_warmup_start_slot) == text ==> other_sim_slot == sim_slot
                && other_warmup_start_slot == warmup_start_slot
        }),
{
    let base = without_trailing_slashes(url);
    let other_base = without_trailing_slashes(other_url);
    let start = "/fcr-sim/v1/slot/"@;
    let link = "?warmup_start_slot="@;
    let head = start + decimal(sim_slot as nat) + link;
    let other_head = start + decimal(other_sim_slot as nat) + link;
    let text = slot_url_text(url, sim_slot, warmup_start_slot);
    let other = slot_url_text(url, other_sim_slot, other_warmup_start_slot);
    trailing_slashes_make_no_difference(url);
    lemma_three_parts(base, head, decimal(warmup_start_slot as nat));
    lemma_three_parts(other_base, other_head, decimal(other_warmup_start_slot as nat));
    assert(text =~= base + head + decimal(warmup_start_slot as nat));
    assert(slot_url_text(other_url, other_sim_slot, other_warmup_start_slot) =~= other_base + other_head + decimal(
        other_warmup_start_slot as nat,
    ));
    assert(link.len() > 0 && !is_digit(link[0])) by {
        reveal_strlit("?warmup_start_slot=");
    }
    if other == text {
        lemma_two_numbers(
            base + start,
            link,
            sim_slot as nat,
            warmup_start_slot as nat,
            other_sim_slot as nat,
            other_warmup_start_slot as nat,
        );
    }
}

} // verus!
