//! The attestation plan: what to import and which attestations to inject, slot by slot.
use std::collections::HashMap;
use vstd::prelude::*;
use vstd::string::StringExecFns;

use crate::hash256::parse_root;
use crate::hash256::root_parsed;
use crate::hash256::roots_equal_by_bytes;
use crate::hash256::Hash256;
use crate::hash256::RootError;
use crate::http::base_url;
use crate::http::trailing_slashes_make_no_difference;
use crate::http::without_trailing_slashes;
use crate::text::between;
use crate::text::decimal;
use crate::text::ends_with;
use crate::text::is_digit;
use crate::text::lemma_three_parts;
use crate::text::lemma_two_numbers;
use crate::text::push_decimal;
use crate::text::starts_with;
use crate::types::Slot;

verus! {

/// The one version of the plan that is understood.
pub const PLAN_VERSION: u64 = 2;

/// What to do in each simulated slot.
pub type AttestationPlan = HashMap<u64, PlanEntry>;

/// What to do in one simulated slot.
#[derive(Debug)]
pub struct PlanEntry {
    /// The slot at which the head is evaluated.
    pub eval_slot: Slot,
    pub import_blocks: Vec<PlanBlockImport>,
    pub attestation_sources: Vec<PlanAttestationSource>,
    pub source_block_slot: Option<Slot>,
}

/// A block to import.
#[derive(Clone, Copy, Debug)]
pub struct PlanBlockImport {
    pub slot: Slot,
    pub root: Hash256,
    pub canonical: bool,
}

/// A block whose attestations are injected, up to those for `max_attestation_slot`.
#[derive(Clone, Copy, Debug)]
pub struct PlanAttestationSource {
    pub slot: Slot,
    pub max_attestation_slot: Option<Slot>,
}

/// The plan as the orchestrator sends it.
#[derive(Debug)]
pub struct PlanResponse {
    pub version: Option<u64>,
    pub entries: Vec<PlanEntryWire>,
}

/// One entry of the plan as the orchestrator sends it.
#[derive(Debug)]
pub struct PlanEntryWire {
    pub sim_slot: u64,
    pub eval_slot: u64,
    pub import_blocks: Vec<PlanBlockImportWire>,
    pub attestation_sources: Vec<PlanAttestationSourceWire>,
    pub source_block_slot: Option<u64>,
}

/// A block to import as the orchestrator sends it.
#[derive(Debug)]
pub struct PlanBlockImportWire {
    pub slot: u64,
    pub root: String,
    pub canonical: bool,
}

/// A source of attestations as the orchestrator sends it.
#[derive(Clone, Copy, Debug)]
pub struct PlanAttestationSourceWire {
    pub slot: u64,
    pub max_attestation_slot: Option<u64>,
}

/// Why a plan is refused.
#[derive(Clone, Copy, Debug, PartialEq, Eq, Structural)]
pub enum PlanError {
    MissingVersion,
    UnsupportedVersion { version: u64 },
    InvalidImportRoot { sim_slot: u64, slot: u64, cause: RootError },
    DuplicateSimSlot { sim_slot: u64 },
}

/// The address of the plan for the slots from `from` up to, but without, `to`.
pub open spec fn plan_url_text(beacon_node_url: Seq<char>, from: Slot, to: Slot) -> Seq<char> {
    without_trailing_slashes(beacon_node_url) + "/fcr-sim/v1/plan?from="@ + decimal(from as nat)
        + "&to="@ + decimal(to as nat)
}

/// The address of the plan for the slots from `from` up to, but without, `to`.
pub fn plan_url(beacon_node_url: &str, from: Slot, to: Slot) -> (res: String)
    ensures
        res@ == plan_url_text(beacon_node_url@, from, to),
{
    let mut url = base_url(beacon_node_url);
    url.append("/fcr-sim/v1/plan?from=");
    push_decimal(&mut url, from);
    url.append("&to=");
    push_decimal(&mut url, to);
    url
}

/// `block` is what `wire` says.
pub open spec fn import_matches(wire: PlanBlockImportWire, block: PlanBlockImport) -> bool {
    &&& block.slot == wire.slot
    &&& block.canonical == wire.canonical
    &&& root_parsed(wire.root@) == Ok::<Seq<u8>, RootError>(block.root@)
}

/// `source` is what `wire` says.
pub open spec fn source_matches(
    wire: PlanAttestationSourceWire,
    source: PlanAttestationSource,
) -> bool {
    &&& source.slot == wire.slot
    &&& source.max_attestation_slot == wire.max_attestation_slot
}

/// `entry` is what `wire` says, its blocks and sources in the same order.
pub open spec fn entry_matches(wire: PlanEntryWire, entry: PlanEntry) -> bool {
    &&& entry.eval_slot == wire.eval_slot
    &&& entry.source_block_slot == wire.source_block_slot
    &&& entry.import_blocks@.len() == wire.import_blocks@.len()
    &&& forall|i: int|
        0 <= i < wire.import_blocks@.len() ==> import_matches(
            #[trigger] wire.import_blocks@[i],
            entry.import_blocks@[i],
        )
    &&& entry.attestation_sources@.len() == wire.attestation_sources@.len()
    &&& forall|i: int|
        0 <= i < wire.attestation_sources@.len() ==> source_matches(
            #[trigger] wire.attestation_sources@[i],
            entry.attestation_sources@[i],
        )
}

/// The error for the first import, from position `from` on, whose root cannot be read.
pub open spec fn import_failure(
    sim_slot: u64,
    imports: Seq<PlanBlockImportWire>,
    from: int,
) -> Option<PlanError>
    decreases imports.len() - from,
{
    if from < 0 || from >= imports.len() {
        None
    } else {
        match root_parsed(imports[from].root@) {
            Err(cause) => Some(
                PlanError::InvalidImportRoot { sim_slot, slot: imports[from].slot, cause },
            ),
            Ok(_) => import_failure(sim_slot, imports, from + 1),
        }
    }
}

/// Whether an entry before position `at` is for the same slot as the one there.
pub open spec fn repeats_slot(entries: Seq<PlanEntryWire>, at: int) -> bool {
    exists|j: int| 0 <= j < at && #[trigger] entries[j].sim_slot == entries[at].sim_slot
}

/// The error for the first entry, from position `from` on, that is unreadable or repeats a
/// slot; of both, that it is unreadable comes first.
pub open spec fn entries_failure(entries: Seq<PlanEntryWire>, from: int) -> Option<PlanError>
    decreases entries.len() - from,
{
    if from < 0 || from >= entries.len() {
        None
    } else {
        let entry = entries[from];
        match import_failure(entry.sim_slot, entry.import_blocks@, 0) {
            Some(e) => Some(e),
            None => if repeats_slot(entries, from) {
                Some(PlanError::DuplicateSimSlot { sim_slot: entry.sim_slot })
            } else {
                entries_failure(entries, from + 1)
            },
        }
    }
}

/// Why a response is no plan, if it is none.
pub open spec fn plan_failure(response: PlanResponse) -> Option<PlanError> {
    match response.version {
        None => Some(PlanError::MissingVersion),
        Some(version) => if version != PLAN_VERSION {
            Some(PlanError::UnsupportedVersion { version })
        } else {
            entries_failure(response.entries@, 0)
        },
    }
}

/// `plan` holds, under each entry's slot, what the first `count` entries say, and nothing
/// else.
pub open spec fn plan_holds(
    plan: Map<u64, PlanEntry>,
    entries: Seq<PlanEntryWire>,
    count: int,
) -> bool {
    &&& forall|k: int|
        0 <= k < count ==> plan.contains_key(#[trigger] entries[k].sim_slot) && entry_matches(
            entries[k],
            plan[entries[k].sim_slot],
        )
    &&& forall|slot: u64| #[trigger]
        plan.contains_key(slot) ==> exists|k: int|
            0 <= k < count && #[trigger] entries[k].sim_slot == slot
}

fn plan_imports(sim_slot: u64, wires: &Vec<PlanBlockImportWire>) -> (res: Result<
    Vec<PlanBlockImport>,
    PlanError,
>)
    ensures
        match res {
            Ok(imports) => {
                &&& import_failure(sim_slot, wires@, 0) is None
                &&& imports@.len() == wires@.len()
                &&& forall|i: int|
                    0 <= i < wires@.len() ==> import_matches(#[trigger] wires@[i], imports@[i])
            },
            Err(e) => import_failure(sim_slot, wires@, 0) == Some(e),
        },
{
    let mut imports: Vec<PlanBlockImport> = Vec::new();
    let mut i: usize = 0;
    while i < wires.len()
        invariant
            0 <= i <= wires@.len(),
            imports@.len() == i,
            forall|j: int| 0 <= j < i ==> import_matches(#[trigger] wires@[j], imports@[j]),
            import_failure(sim_slot, wires@, 0) == import_failure(sim_slot, wires@, i as int),
        decreases wires@.len() - i,
    {
        let wire = &wires[i];
        match parse_root(wire.root.as_str()) {
            Ok(root) => {
                imports.push(
                    PlanBlockImport { slot: wire.slot, root, canonical: wire.canonical },
                );
            },
            Err(cause) => {
                return Err(PlanError::InvalidImportRoot { sim_slot, slot: wire.slot, cause });
            },
        }
        i = i + 1;
    }
    Ok(imports)
}

fn plan_sources(wires: &Vec<PlanAttestationSourceWire>) -> (res: Vec<PlanAttestationSource>)
    ensures
        res@.len() == wires@.len(),
        forall|i: int| 0 <= i < wires@.len() ==> source_matches(#[trigger] wires@[i], res@[i]),
{
    let mut sources: Vec<PlanAttestationSource> = Vec::new();
    let mut i: usize = 0;
    while i < wires.len()
        invariant
            0 <= i <= wires@.len(),
            sources@.len() == i,
            forall|j: int| 0 <= j < i ==> source_matches(#[trigger] wires@[j], sources@[j]),
        decreases wires@.len() - i,
    {
        let wire = wires[i];
        sources.push(
            PlanAttestationSource {
                slot: wire.slot,
                max_attestation_slot: wire.max_attestation_slot,
            },
        );
        i = i + 1;
    }
    sources
}

/// The plan that a response holds.
pub fn attestation_plan(response: &PlanResponse) -> (res: Result<AttestationPlan, PlanError>)
    ensures
        match res {
            Ok(plan) => {
                &&& plan_failure(*response) is None
                &&& plan_holds(plan@, response.entries@, response.entries@.len() as int)
            },
            Err(e) => plan_failure(*response) == Some(e),
        },
{
    match response.version {
        None => {
            return Err(PlanError::MissingVersion);
        },
        Some(version) => {
            if version != PLAN_VERSION {
                return Err(PlanError::UnsupportedVersion { version });
            }
        },
    }
    let entries = &response.entries;
    let mut plan: AttestationPlan = HashMap::new();
    let mut k: usize = 0;
    while k < entries.len()
        invariant
            response.version == Some(PLAN_VERSION),
            *entries == response.entries,
            0 <= k <= entries@.len(),
            plan_holds(plan@, entries@, k as int),
            entries_failure(entries@, 0) == entries_failure(entries@, k as int),
        decreases entries@.len() - k,
    {
        let wire = &entries[k];
        let import_blocks = match plan_imports(wire.sim_slot, &wire.import_blocks) {
            Ok(imports) => imports,
            Err(e) => {
                return Err(e);
            },
        };
        let entry = PlanEntry {
            eval_slot: wire.eval_slot,
            import_blocks,
            attestation_sources: plan_sources(&wire.attestation_sources),
            source_block_slot: wire.source_block_slot,
        };
        let ghost before = plan@;
        if plan.contains_key(&wire.sim_slot) {
            return Err(PlanError::DuplicateSimSlot { sim_slot: wire.sim_slot });
        }
        plan.insert(wire.sim_slot, entry);
        proof {
            assert(!repeats_slot(entries@, k as int));
            assert forall|slot: u64| #[trigger] plan@.contains_key(slot) implies exists|j: int|
                0 <= j < k + 1 && #[trigger] entries@[j].sim_slot == slot by {
                if slot == wire.sim_slot {
                    assert(entries@[k as int].sim_slot == slot);
                } else {
                    assert(before.contains_key(slot));
                }
            }
            assert forall|j: int| 0 <= j < k + 1 implies plan@.contains_key(
                #[trigger] entries@[j].sim_slot,
            ) && entry_matches(entries@[j], plan@[entries@[j].sim_slot]) by {
                if j < k {
                    assert(before.contains_key(entries@[j].sim_slot));
                }
            }
        }
        k = k + 1;
    }
    Ok(plan)
}

/// Which responses are plans: those of the known version in which every root can be read and
/// no two entries are for the same slot.
pub proof fn plan_accepted_iff(response: PlanResponse)
    ensures
        plan_failure(response) is None <==> {
            &&& response.version == Some(PLAN_VERSION)
            &&& forall|k: int, i: int|
                #![trigger response.entries@[k].import_blocks@[i]]
                0 <= k < response.entries@.len() && 0 <= i
                    < response.entries@[k].import_blocks@.len() ==> root_parsed(
                    response.entries@[k].import_blocks@[i].root@,
                ) is Ok
            &&& forall|j: int, k: int|
                0 <= j < k < response.entries@.len() ==> #[trigger] response.entries@[j].sim_slot
                    != #[trigger] response.entries@[k].sim_slot
        },
{
    lemma_entries_failure(response.entries@, 0);
    let entries = response.entries@;
    if plan_failure(response) is None {
        assert forall|j: int, k: int| 0 <= j < k < entries.len() implies
            #[trigger] entries[j].sim_slot != #[trigger] entries[k].sim_slot by {
            assert(entry_is_sound(entries, k));
        }
        assert forall|k: int, i: int|
            #![trigger entries[k].import_blocks@[i]]
            0 <= k < entries.len() && 0 <= i < entries[k].import_blocks@.len() implies root_parsed(
            entries[k].import_blocks@[i].root@,
        ) is Ok by {
            assert(entry_is_sound(entries, k));
            assert(root_parsed(entries[k].import_blocks@[i].root@) is Ok);
        }
    } else if response.version == Some(PLAN_VERSION) {
        let k = choose|k: int| 0 <= k < entries.len() && !#[trigger] entry_is_sound(entries, k);
        if repeats_slot(entries, k) {
            let j = choose|j: int|
                0 <= j < k && #[trigger] entries[j].sim_slot == entries[k].sim_slot;
            assert(entries[j].sim_slot == entries[k].sim_slot);
        }
    }
}

spec fn entry_is_sound(entries: Seq<PlanEntryWire>, k: int) -> bool {
    &&& forall|i: int|
        0 <= i < entries[k].import_blocks@.len() ==> root_parsed(
            #[trigger] entries[k].import_blocks@[i].root@,
        ) is Ok
    &&& !repeats_slot(entries, k)
}

proof fn lemma_import_failure(sim_slot: u64, imports: Seq<PlanBlockImportWire>, from: int)
    requires
        0 <= from,
    ensures
        import_failure(sim_slot, imports, from) is None <==> forall|i: int|
            from <= i < imports.len() ==> root_parsed(#[trigger] imports[i].root@) is Ok,
    decreases imports.len() - from,
{
    if from < imports.len() {
        lemma_import_failure(sim_slot, imports, from + 1);
        assert(root_parsed(imports[from].root@) is Ok || root_parsed(imports[from].root@) is Err);
    }
}

proof fn lemma_entries_failure(entries: Seq<PlanEntryWire>, from: int)
    requires
        0 <= from,
    ensures
        entries_failure(entries, from) is None <==> forall|k: int|
            from <= k < entries.len() ==> #[trigger] entry_is_sound(entries, k),
    decreases entries.len() - from,
{
    if from < entries.len() {
        lemma_entries_failure(entries, from + 1);
        let entry = entries[from];
        lemma_import_failure(entry.sim_slot, entry.import_blocks@, 0);
        if entries_failure(entries, from) is None {
            assert forall|k: int| from <= k < entries.len() implies #[trigger] entry_is_sound(
                entries,
                k,
            ) by {
                if k == from {
                }
            }
        } else if forall|k: int|
            from <= k < entries.len() ==> #[trigger] entry_is_sound(entries, k) {
            assert(entry_is_sound(entries, from));
        }
    }
}

/// A block to import is decoded as it was sent: its slot and whether it is canonical are those
/// that were sent, and its root is the one that the text stands for. So one text is decoded to
/// one block, and two that differ in whether they are canonical are decoded to two that do.
pub proof fn imports_are_decoded_as_sent(
    wire: PlanBlockImportWire,
    block: PlanBlockImport,
    other: PlanBlockImportWire,
    other_block: PlanBlockImport,
)
    requires
        import_matches(wire, block),
        import_matches(other, other_block),
    ensures
        block.slot == wire.slot,
        wire.canonical <==> block.canonical,
        root_parsed(wire.root@) == Ok::<Seq<u8>, RootError>(block.root@),
        wire.canonical != other.canonical ==> block.canonical != other_block.canonical,
        wire.slot == other.slot && wire.root@ == other.root@ && wire.canonical == other.canonical
            ==> block == other_block,
{
    if wire.root@ == other.root@ {
        roots_equal_by_bytes(block.root, other_block.root);
    }
}

/// A source of attestations is decoded as it was sent.
pub proof fn sources_are_decoded_as_sent(
    wire: PlanAttestationSourceWire,
    source: PlanAttestationSource,
)
    requires
        source_matches(wire, source),
    ensures
        source.slot == wire.slot,
        source.max_attestation_slot == wire.max_attestation_slot,
{
}

/// A plan says what the response says and nothing else: its slots are exactly those of the
/// entries, and what it has for a slot has the slot at which the head is evaluated, the blocks in
/// their order, the sources in theirs, and the source that is named, all as they were sent.
pub proof fn a_plan_says_what_was_sent(plan: Map<u64, PlanEntry>, entries: Seq<PlanEntryWire>)
    requires
        plan_holds(plan, entries, entries.len() as int),
    ensures
        forall|slot: u64| #[trigger]
            plan.contains_key(slot) <==> exists|k: int|
                0 <= k < entries.len() && #[trigger] entries[k].sim_slot == slot,
        forall|k: int|
            0 <= k < entries.len() ==> {
                let wire = #[trigger] entries[k];
                let entry = plan[wire.sim_slot];
                &&& entry.eval_slot == wire.eval_slot
                &&& entry.source_block_slot == wire.source_block_slot
                &&& entry.import_blocks@.len() == wire.import_blocks@.len()
                &&& entry.attestation_sources@.len() == wire.attestation_sources@.len()
            },
        forall|k: int, i: int|
            #![trigger entries[k].import_blocks@[i]]
            0 <= k < entries.len() && 0 <= i < entries[k].import_blocks@.len() ==> {
                let sent = entries[k].import_blocks@[i];
                let block = plan[entries[k].sim_slot].import_blocks@[i];
                &&& block.slot == sent.slot
                &&& block.canonical == sent.canonical
                &&& root_parsed(sent.root@) == Ok::<Seq<u8>, RootError>(block.root@)
            },
        forall|k: int, i: int|
            #![trigger entries[k].attestation_sources@[i]]
            0 <= k < entries.len() && 0 <= i < entries[k].attestation_sources@.len() ==> {
                let sent = entries[k].attestation_sources@[i];
                let source = plan[entries[k].sim_slot].attestation_sources@[i];
                &&& source.slot == sent.slot
                &&& source.max_attestation_slot == sent.max_attestation_slot
            },
{
    assert forall|slot: u64| #[trigger] plan.contains_key(slot) <==> exists|k: int|
        0 <= k < entries.len() && #[trigger] entries[k].sim_slot == slot by {}
    assert forall|k: int, i: int|
        #![trigger entries[k].import_blocks@[i]]
        0 <= k < entries.len() && 0 <= i < entries[k].import_blocks@.len() implies {
        let sent = entries[k].import_blocks@[i];
        let block = plan[entries[k].sim_slot].import_blocks@[i];
        &&& block.slot == sent.slot
        &&& block.canonical == sent.canonical
        &&& root_parsed(sent.root@) == Ok::<Seq<u8>, RootError>(block.root@)
    } by {
        assert(entry_matches(entries[k], plan[entries[k].sim_slot]));
        assert(import_matches(
            entries[k].import_blocks@[i],
            plan[entries[k].sim_slot].import_blocks@[i],
        ));
    }
    assert forall|k: int, i: int|
        #![trigger entries[k].attestation_sources@[i]]
        0 <= k < entries.len() && 0 <= i < entries[k].attestation_sources@.len() implies {
        let sent = entries[k].attestation_sources@[i];
        let source = plan[entries[k].sim_slot].attestation_sources@[i];
        &&& source.slot == sent.slot
        &&& source.max_attestation_slot == sent.max_attestation_slot
    } by {
        assert(entry_matches(entries[k], plan[entries[k].sim_slot]));
        assert(source_matches(
            entries[k].attestation_sources@[i],
            plan[entries[k].sim_slot].attestation_sources@[i],
        ));
    }
}

/// A refusal says what is wrong with the response: that it has no version, which other version
/// than the second it has, which block of which slot has a root that cannot be read and why, or
/// which slot has two entries. The entries before the one at fault are sound.
pub proof fn a_refusal_names_the_first_fault(response: PlanResponse)
    ensures
        plan_failure(response) == Some(PlanError::MissingVersion) <==> response.version is None,
        plan_failure(response) matches Some(PlanError::UnsupportedVersion { version })
            ==> response.version == Some(version),
        response.version is Some ==> (response.version->0 != 2 <==> plan_failure(response) == Some(
            PlanError::UnsupportedVersion { version: response.version->0 },
        )),
        plan_failure(response) matches Some(PlanError::DuplicateSimSlot { sim_slot }) ==> exists|
            k: int,
        |
            0 <= k < response.entries@.len() && (#[trigger] response.entries@[k]).sim_slot
                == sim_slot && repeats_slot(response.entries@, k) && forall|i: int|
                0 <= i < k ==> sound_entry(response.entries@, i),
        plan_failure(response) matches Some(
            PlanError::InvalidImportRoot { sim_slot, slot, cause },
        ) ==> exists|k: int, i: int|
            #![trigger response.entries@[k].import_blocks@[i]]
            {
                &&& 0 <= k < response.entries@.len()
                &&& response.entries@[k].sim_slot == sim_slot
                &&& 0 <= i < response.entries@[k].import_blocks@.len()
                &&& response.entries@[k].import_blocks@[i].slot == slot
                &&& root_parsed(response.entries@[k].import_blocks@[i].root@) == Err::<
                    Seq<u8>,
                    RootError,
                >(cause)
                &&& forall|j: int|
                    0 <= j < i ==> root_parsed(
                        (#[trigger] response.entries@[k].import_blocks@[j]).root@,
                    ) is Ok
                &&& forall|j: int| 0 <= j < k ==> sound_entry(response.entries@, j)
            },
{
    if response.version == Some(PLAN_VERSION) && plan_failure(response) is Some {
        lemma_fault(response.entries@, 0);
    }
}

/// Whether the roots of an entry can be read, and no entry before it is for the same slot.
pub open spec fn sound_entry(entries: Seq<PlanEntryWire>, k: int) -> bool {
    &&& forall|i: int|
        0 <= i < entries[k].import_blocks@.len() ==> root_parsed(
            (#[trigger] entries[k].import_blocks@[i]).root@,
        ) is Ok
    &&& forall|j: int| 0 <= j < k ==> (#[trigger] entries[j]).sim_slot != entries[k].sim_slot
}

proof fn lemma_bad_import(sim_slot: u64, imports: Seq<PlanBlockImportWire>, from: int) -> (at: int)
    requires
        0 <= from,
        import_failure(sim_slot, imports, from) is Some,
    ensures
        from <= at < imports.len(),
        root_parsed(imports[at].root@) is Err,
        import_failure(sim_slot, imports, from) == Some(
            PlanError::InvalidImportRoot {
                sim_slot,
                slot: imports[at].slot,
                cause: root_parsed(imports[at].root@)->Err_0,
            },
        ),
        forall|j: int| from <= j < at ==> root_parsed((#[trigger] imports[j]).root@) is Ok,
    decreases imports.len() - from,
{
    if root_parsed(imports[from].root@) is Err {
        from
    } else {
        lemma_bad_import(sim_slot, imports, from + 1)
    }
}

proof fn lemma_fault(entries: Seq<PlanEntryWire>, from: int) -> (at: (int, int))
    requires
        0 <= from,
        entries_failure(entries, from) is Some,
        forall|k: int| 0 <= k < from ==> sound_entry(entries, k),
    ensures
        ({
            let (k, i) = at;
            &&& from <= k < entries.len()
            &&& forall|j: int| 0 <= j < k ==> sound_entry(entries, j)
            &&& match entries_failure(entries, from) {
                Some(PlanError::DuplicateSimSlot { sim_slot }) => entries[k].sim_slot == sim_slot
                    && repeats_slot(entries, k),
                Some(PlanError::InvalidImportRoot { sim_slot, slot, cause }) => {
                    &&& entries[k].sim_slot == sim_slot
                    &&& 0 <= i < entries[k].import_blocks@.len()
                    &&& entries[k].import_blocks@[i].slot == slot
                    &&& root_parsed(entries[k].import_blocks@[i].root@) == Err::<
                        Seq<u8>,
                        RootError,
                    >(cause)
                    &&& forall|j: int|
                        0 <= j < i ==> root_parsed(
                            (#[trigger] entries[k].import_blocks@[j]).root@,
                        ) is Ok
                },
                _ => false,
            }
        }),
    decreases entries.len() - from,
{
    let entry = entries[from];
    if import_failure(entry.sim_slot, entry.import_blocks@, 0) is Some {
        (from, lemma_bad_import(entry.sim_slot, entry.import_blocks@, 0))
    } else if repeats_slot(entries, from) {
        (from, 0)
    } else {
        lemma_import_failure(entry.sim_slot, entry.import_blocks@, 0);
        assert(sound_entry(entries, from)) by {
            assert forall|j: int| 0 <= j < from implies (#[trigger] entries[j]).sim_slot
                != entries[from].sim_slot by {
                assert(entries[j].sim_slot == entries[j].sim_slot);
            }
            assert forall|i: int| 0 <= i < entries[from].import_blocks@.len() implies root_parsed(
                (#[trigger] entries[from].import_blocks@[i]).root@,
            ) is Ok by {
                assert(root_parsed(entry.import_blocks@[i].root@) is Ok);
            }
        }
        lemma_fault(entries, from + 1)
    }
}

/// The address of a plan starts with the base address and ends with the slot at which the plan
/// ends; slashes at the end of the base address make no difference; and two ranges of slots have
/// two addresses.
pub proof fn addresses_of_plans_name_the_slots(
    url: Seq<char>,
    from: Slot,
    to: Slot,
    other_url: Seq<char>,
    other_from: Slot,
    other_to: Slot,
)
    ensures
        ({
            let base = without_trailing_slashes(url);
            let other_base = without_trailing_slashes(other_url);
            let text = plan_url_text(url, from, to);
            let other = plan_url_text(other_url, other_from, other_to);
            &&& starts_with(text, base)
            &&& ends_with(text, decimal(to as nat))
            &&& from == other_from ==> between(text, base, decimal(to as nat)) == between(
                other,
                other_base,
                decimal(other_to as nat),
            )
            &&& plan_url_text(url.push('/'), from, to) == text
            &&& plan_url_text(url, other_from, other_to) == text ==> other_from == from
                && other_to == to
        }),
{
    let base = without_trailing_slashes(url);
    let other_base = without_trailing_slashes(other_url);
    let start = "/fcr-sim/v1/plan?from="@;
    let link = "&to="@;
    let head = start + decimal(from as nat) + link;
    let other_head = start + decimal(other_from as nat) + link;
    let text = plan_url_text(url, from, to);
    let other = plan_url_text(url, other_from, other_to);
    trailing_slashes_make_no_difference(url);
    lemma_three_parts(base, head, decimal(to as nat));
    lemma_three_parts(other_base, other_head, decimal(other_to as nat));
    assert(text =~= base + head + decimal(to as nat));
    assert(plan_url_text(other_url, other_from, other_to) =~= other_base + other_head + decimal(
        other_to as nat,
    ));
    assert(link.len() > 0 && !is_digit(link[0])) by {
        reveal_strlit("&to=");
    }
    if other == text {
        lemma_two_numbers(
            base + start,
            link,
            from as nat,
            to as nat,
            other_from as nat,
            other_to as nat,
        );
    }
}

} // verus!
