//! In which order the work of a run is done.
use vstd::prelude::*;

use crate::hash256::root_text;
use crate::http::plan::PlanAttestationSource;
use crate::http::plan::PlanBlockImport;
use crate::http::plan::PlanEntry;
use crate::output::schema::SlotRecord;
use crate::sim::engine::canonical_root;
use crate::sim::engine::first_slot;
use crate::sim::engine::injected_count;
use crate::sim::engine::reported_source;
use crate::sim::engine::selected;
use crate::sim::engine::Ask;
use crate::sim::engine::BlockSummary;
use crate::sim::engine::EngineConfig;
use crate::sim::engine::EngineState;
use crate::sim::engine::Event;
use crate::sim::engine::Phase;
use crate::sim::laws::asks;
use crate::sim::laws::initial;
use crate::sim::laws::is_planned_block;
use crate::sim::laws::known_blocks_stay_known;
use crate::sim::laws::ran;
use crate::types::Slot;

verus! {

/// The blocks that are known by their slots, and the slots that have none.
pub type Blocks = Map<u64, Option<BlockSummary>>;

/// What is asked for in a slot between its clock and its head: one piece for each planned block,
/// one for each source, and the record where there is one.
pub struct SlotWork {
    pub imports: Seq<Seq<Ask>>,
    pub sources: Seq<Seq<Ask>>,
    pub record: Option<Ask>,
}

/// Pieces one after another.
pub open spec fn joined(pieces: Seq<Seq<Ask>>) -> Seq<Ask>
    decreases pieces.len(),
{
    if pieces.len() == 0 {
        Seq::empty()
    } else {
        joined(pieces.drop_last()) + pieces.last()
    }
}

/// What is asked for a planned block. A canonical one is fetched by its slot, unless it is known
/// already, and is processed; it is the planned block. Another is fetched by its root, and is
/// processed if there is such a block.
pub open spec fn imports_block(import: PlanBlockImport, blocks: Blocks, piece: Seq<Ask>) -> bool {
    let process = Ask::ProcessBlock { root: import.root };
    if import.canonical {
        &&& blocks.contains_key(import.slot)
        &&& blocks[import.slot] is Some
        &&& is_planned_block(import, blocks[import.slot]->0)
        &&& piece == seq![process] || piece == seq![
            Ask::FetchBlockAtSlot { slot: import.slot },
            process,
        ]
    } else {
        let fetch = Ask::FetchBlockByRoot { root: import.root };
        piece == seq![fetch, process] || piece == seq![fetch]
    }
}

/// What is asked for a source of attestations in a slot. Its block is fetched, unless it is known
/// already, and those of its attestations that are within the limit, if any, are injected as of
/// the next slot.
pub open spec fn injects_source(
    source: PlanAttestationSource,
    slot: Slot,
    blocks: Blocks,
    piece: Seq<Ask>,
) -> bool {
    let fetch = Ask::FetchBlockAtSlot { slot: source.slot };
    let slots = blocks[source.slot]->0.attestation_slots@;
    let attestations = selected(slots, source.max_attestation_slot, slots.len() as int);
    let inject = Ask::InjectAttestations {
        source_slot: source.slot,
        inject_slot: (slot + 1) as u64,
        attestations,
    };
    &&& blocks.contains_key(source.slot)
    &&& blocks[source.slot] is Some
    &&& if attestations.len() == 0 {
        piece == Seq::<Ask>::empty() || piece == seq![fetch]
    } else {
        piece == seq![inject] || piece == seq![fetch, inject]
    }
}

/// Whether a record is the one of a slot, by what the plan says of the slot: its block is the
/// first canonical one of the slot, and its source the one that the plan names, or else that of
/// the first source.
pub open spec fn records_slot(entry: PlanEntry, slot: Slot, record: SlotRecord) -> bool {
    &&& record.slot == slot
    &&& record.source_block_slot == reported_source(entry)
    &&& record.block_root == match canonical_root(entry.import_blocks@, slot, 0) {
        Some(root) => Some(root_text(root@)),
        None => None,
    }
}

/// Pieces for the first of the planned blocks.
pub open spec fn imports_blocks(entry: PlanEntry, blocks: Blocks, pieces: Seq<Seq<Ask>>) -> bool {
    &&& pieces.len() <= entry.import_blocks@.len()
    &&& forall|i: int|
        0 <= i < pieces.len() ==> imports_block(
            entry.import_blocks@[i],
            blocks,
            #[trigger] pieces[i],
        )
}

/// Pieces for the first of the sources.
pub open spec fn injects_sources(
    entry: PlanEntry,
    slot: Slot,
    blocks: Blocks,
    pieces: Seq<Seq<Ask>>,
) -> bool {
    &&& pieces.len() <= entry.attestation_sources@.len()
    &&& forall|i: int|
        0 <= i < pieces.len() ==> injects_source(
            entry.attestation_sources@[i],
            slot,
            blocks,
            #[trigger] pieces[i],
        )
}

/// Whether all that the plan says of a slot is done: there is a piece for each planned block and
/// for each source, and a record just where the slot is recorded.
pub open spec fn does_slot(
    config: EngineConfig,
    entry: PlanEntry,
    slot: Slot,
    blocks: Blocks,
    work: SlotWork,
) -> bool {
    &&& work.imports.len() == entry.import_blocks@.len()
    &&& imports_blocks(entry, blocks, work.imports)
    &&& work.sources.len() == entry.attestation_sources@.len()
    &&& injects_sources(entry, slot, blocks, work.sources)
    &&& match work.record {
        Some(ask) => slot >= config.start_slot && ask is WriteResult && records_slot(
            entry,
            slot,
            ask->record,
        ),
        None => slot < config.start_slot,
    }
}

/// What is asked for up to the last source of a slot: the clock, the planned blocks in their
/// order, and the sources in theirs.
pub open spec fn before_head(
    slot: Slot,
    imports: Seq<Seq<Ask>>,
    sources: Seq<Seq<Ask>>,
) -> Seq<Ask> {
    seq![Ask::SetClock { slot }] + joined(imports) + joined(sources)
}

/// What is asked for in a slot: the clock, the planned blocks, the sources, one evaluation of the
/// head at the slot that the plan says, and the record where there is one.
pub open spec fn slot_asks(entry: PlanEntry, slot: Slot, work: SlotWork) -> Seq<Ask> {
    let evaluated = before_head(slot, work.imports, work.sources).push(
        Ask::RecomputeHead { slot: entry.eval_slot },
    );
    match work.record {
        Some(ask) => evaluated.push(ask),
        None => evaluated,
    }
}

/// What is asked for in the slots of a run, from the first on.
pub open spec fn run_asks(
    config: EngineConfig,
    plan: Map<u64, PlanEntry>,
    works: Seq<SlotWork>,
) -> Seq<Ask>
    decreases works.len(),
{
    if works.len() == 0 {
        Seq::empty()
    } else {
        let slot = (first_slot(config) + works.len() - 1) as u64;
        run_asks(config, plan, works.drop_last()) + slot_asks(plan[slot], slot, works.last())
    }
}

/// Whether all that the plan says of one of the slots of a run is done.
pub open spec fn does_nth_slot(
    config: EngineConfig,
    plan: Map<u64, PlanEntry>,
    blocks: Blocks,
    works: Seq<SlotWork>,
    k: int,
) -> bool {
    let slot = (first_slot(config) + k) as u64;
    plan.contains_key(slot) && does_slot(config, plan[slot], slot, blocks, works[k])
}

/// Whether all that the plan says of the first slots of a run is done.
pub open spec fn does_slots(
    config: EngineConfig,
    plan: Map<u64, PlanEntry>,
    blocks: Blocks,
    works: Seq<SlotWork>,
) -> bool {
    forall|k: int|
        0 <= k < works.len() ==> #[trigger] does_nth_slot(config, plan, blocks, works, k)
}

/// The parts of what a run has asked for.
struct Shape {
    works: Seq<SlotWork>,
    imports: Seq<Seq<Ask>>,
    sources: Seq<Seq<Ask>>,
}

/// What a run has asked for falls into these parts.
spec fn is_shaped(state: EngineState, asked: Seq<Ask>, shape: Shape) -> bool {
    let done = run_asks(state.config, state.plan, shape.works);
    let now = before_head(state.slot, shape.imports, shape.sources);
    let entry = state.entry();
    state.phase != Phase::Aborted ==> {
        &&& shape.works.len() == state.slot - first_slot(state.config)
        &&& does_slots(state.config, state.plan, state.cache, shape.works)
        &&& imports_blocks(entry, state.cache, shape.imports)
        &&& injects_sources(entry, state.slot, state.cache, shape.sources)
        &&& match state.phase {
            Phase::Starting => asked == done,
            Phase::SettingClock => {
                &&& shape.imports.len() == 0
                &&& shape.sources.len() == 0
                &&& asked == done + now
            },
            Phase::FetchingImport { index } => {
                let import = entry.import_blocks@[index as int];
                &&& shape.imports.len() == index
                &&& shape.sources.len() == 0
                &&& asked == (done + now).push(
                    if import.canonical {
                        Ask::FetchBlockAtSlot { slot: import.slot }
                    } else {
                        Ask::FetchBlockByRoot { root: import.root }
                    },
                )
            },
            Phase::ProcessingImport { index } => {
                &&& shape.imports.len() == index + 1
                &&& shape.sources.len() == 0
                &&& asked == done + now
            },
            Phase::FetchingSource { index, .. } => {
                &&& shape.imports.len() == entry.import_blocks@.len()
                &&& shape.sources.len() == index
                &&& asked == (done + now).push(
                    Ask::FetchBlockAtSlot { slot: entry.attestation_sources@[index as int].slot },
                )
            },
            Phase::Injecting { index, .. } => {
                &&& shape.imports.len() == entry.import_blocks@.len()
                &&& shape.sources.len() == index + 1
                &&& asked == done + now
            },
            Phase::Evaluating { .. } => {
                &&& shape.imports.len() == entry.import_blocks@.len()
                &&& shape.sources.len() == entry.attestation_sources@.len()
                &&& asked == (done + now).push(Ask::RecomputeHead { slot: entry.eval_slot })
            },
            Phase::Writing => {
                &&& shape.imports.len() == entry.import_blocks@.len()
                &&& shape.sources.len() == entry.attestation_sources@.len()
                &&& state.plan.contains_key(state.slot)
                &&& state.slot >= state.config.start_slot
                &&& asked.len() > 0
                &&& asked.last() is WriteResult
                &&& records_slot(entry, state.slot, asked.last()->record)
                &&& asked.drop_last() == (done + now).push(
                    Ask::RecomputeHead { slot: entry.eval_slot },
                )
            },
            Phase::Flushing => asked == done.push(Ask::Flush),
            Phase::Finished => asked == done.push(Ask::Flush).push(
                Ask::Finish { total_recorded: state.total_recorded },
            ),
            Phase::Aborted => true,
        }
    }
}

/// A block that stays known, with all others that were known, leaves what was done as it is.
proof fn lemma_work_stays(
    config: EngineConfig,
    plan: Map<u64, PlanEntry>,
    blocks: Blocks,
    more: Blocks,
    works: Seq<SlotWork>,
)
    requires
        does_slots(config, plan, blocks, works),
        forall|slot: u64| #[trigger]
            blocks.contains_key(slot) ==> more.contains_key(slot) && more[slot] == blocks[slot],
    ensures
        does_slots(config, plan, more, works),
{
    assert forall|k: int| 0 <= k < works.len() implies #[trigger] does_nth_slot(
        config,
        plan,
        more,
        works,
        k,
    ) by {
        assert(does_nth_slot(config, plan, blocks, works, k));
        let slot = (first_slot(config) + k) as u64;
        lemma_pieces_stay(plan[slot], slot, blocks, more, works[k].imports, works[k].sources);
    }
}

proof fn lemma_pieces_stay(
    entry: PlanEntry,
    slot: Slot,
    blocks: Blocks,
    more: Blocks,
    imports: Seq<Seq<Ask>>,
    sources: Seq<Seq<Ask>>,
)
    requires
        imports_blocks(entry, blocks, imports),
        injects_sources(entry, slot, blocks, sources),
        forall|slot: u64| #[trigger]
            blocks.contains_key(slot) ==> more.contains_key(slot) && more[slot] == blocks[slot],
    ensures
        imports_blocks(entry, more, imports),
        injects_sources(entry, slot, more, sources),
{
    assert forall|i: int| 0 <= i < imports.len() implies imports_block(
        entry.import_blocks@[i],
        more,
        #[trigger] imports[i],
    ) by {
        assert(imports_block(entry.import_blocks@[i], blocks, imports[i]));
    }
    assert forall|i: int| 0 <= i < sources.len() implies injects_source(
        entry.attestation_sources@[i],
        slot,
        more,
        #[trigger] sources[i],
    ) by {
        assert(injects_source(entry.attestation_sources@[i], slot, blocks, sources[i]));
    }
}

proof fn lemma_joined_push(pieces: Seq<Seq<Ask>>, piece: Seq<Ask>)
    ensures
        joined(pieces.push(piece)) == joined(pieces) + piece,
{
    assert(pieces.push(piece).drop_last() =~= pieces);
}

/// The sources from `index` on: what was asked for, `head` and the sources before and a part of
/// the piece for this one, is followed by what fits.
proof fn lemma_sources(
    state: EngineState,
    index: int,
    injected: u64,
    head: Seq<Ask>,
    sources: Seq<Seq<Ask>>,
    part: Seq<Ask>,
) -> (res: Seq<Seq<Ask>>)
    requires
        0 <= index == sources.len(),
        injects_sources(state.entry(), state.slot, state.cache, sources),
        part.len() == 0 || {
            &&& index < state.entry().attestation_sources@.len()
            &&& state.cache.contains_key(state.entry().attestation_sources@[index].slot)
            &&& part == seq![
                Ask::FetchBlockAtSlot { slot: state.entry().attestation_sources@[index].slot },
            ]
        },
    ensures
        ({
            let (next, ask) = state.ask_source(index, injected);
            let asked = (head + joined(sources) + part).push(ask);
            let entry = state.entry();
            &&& injects_sources(entry, state.slot, state.cache, res)
            &&& next.config == state.config && next.plan == state.plan && next.cache == state.cache
            &&& next.slot == state.slot
            &&& match next.phase {
                Phase::FetchingSource { index: at, .. } => {
                    &&& res.len() == at
                    &&& asked == (head + joined(res)).push(
                        Ask::FetchBlockAtSlot { slot: entry.attestation_sources@[at as int].slot },
                    )
                },
                Phase::Injecting { index: at, .. } => {
                    &&& res.len() == at + 1
                    &&& asked == head + joined(res)
                },
                Phase::Evaluating { .. } => {
                    &&& res.len() == entry.attestation_sources@.len()
                    &&& asked == (head + joined(res)).push(
                        Ask::RecomputeHead { slot: entry.eval_slot },
                    )
                },
                Phase::Aborted => true,
                _ => false,
            }
        }),
    decreases state.entry().attestation_sources@.len() - index,
{
    let entry = state.entry();
    assert(entry.attestation_sources.len() == entry.attestation_sources@.len());
    let (next, ask) = state.ask_source(index, injected);
    let before = head + joined(sources) + part;
    if index >= entry.attestation_sources@.len() {
        assert(before.push(ask) =~= (head + joined(sources)).push(ask));
        sources
    } else {
        let source = entry.attestation_sources@[index];
        if !state.cache.contains_key(source.slot) {
            assert(before.push(ask) =~= (head + joined(sources)).push(ask));
            sources
        } else if state.cache[source.slot] is None {
            sources
        } else {
            let slots = state.cache[source.slot]->0.attestation_slots@;
            let attestations = selected(slots, source.max_attestation_slot, slots.len() as int);
            if attestations.len() == 0 {
                let more = sources.push(part);
                lemma_joined_push(sources, part);
                assert(part =~= Seq::<Ask>::empty() || part.len() == 1);
                assert(injects_source(source, state.slot, state.cache, part));
                assert(injects_sources(entry, state.slot, state.cache, more));
                assert(head + joined(more) + Seq::<Ask>::empty() =~= before);
                lemma_sources(state, index + 1, injected, head, more, Seq::empty())
            } else {
                let piece = part.push(ask);
                let more = sources.push(piece);
                lemma_joined_push(sources, piece);
                assert(part.len() == 0 ==> piece =~= seq![ask]);
                assert(part.len() > 0 ==> piece =~= seq![part[0], ask]);
                assert(injects_source(source, state.slot, state.cache, piece));
                assert(before.push(ask) =~= head + joined(more));
                more
            }
        }
    }
}

/// The planned blocks from `index` on, in the same way.
proof fn lemma_imports(
    state: EngineState,
    index: int,
    done: Seq<Ask>,
    imports: Seq<Seq<Ask>>,
    part: Seq<Ask>,
) -> (res: (Seq<Seq<Ask>>, Seq<Seq<Ask>>))
    requires
        0 <= index == imports.len(),
        imports_blocks(state.entry(), state.cache, imports),
        part.len() == 0 || {
            let import = state.entry().import_blocks@[index];
            &&& index < state.entry().import_blocks@.len()
            &&& import.canonical
            &&& state.cache.contains_key(import.slot)
            &&& part == seq![Ask::FetchBlockAtSlot { slot: import.slot }]
        },
    ensures
        ({
            let (next, ask) = state.ask_import(index);
            let asked = (done + before_head(state.slot, imports, Seq::empty()) + part).push(ask);
            let now = done + before_head(state.slot, res.0, res.1);
            let entry = state.entry();
            &&& imports_blocks(entry, state.cache, res.0)
            &&& injects_sources(entry, state.slot, state.cache, res.1)
            &&& next.config == state.config && next.plan == state.plan && next.cache == state.cache
            &&& next.slot == state.slot
            &&& match next.phase {
                Phase::FetchingImport { index: at } => {
                    let import = entry.import_blocks@[at as int];
                    &&& res.0.len() == at && res.1.len() == 0
                    &&& asked == now.push(
                        if import.canonical {
                            Ask::FetchBlockAtSlot { slot: import.slot }
                        } else {
                            Ask::FetchBlockByRoot { root: import.root }
                        },
                    )
                },
                Phase::ProcessingImport { index: at } => {
                    &&& res.0.len() == at + 1 && res.1.len() == 0
                    &&& asked == now
                },
                Phase::FetchingSource { index: at, .. } => {
                    &&& res.0.len() == entry.import_blocks@.len() && res.1.len() == at
                    &&& asked == now.push(
                        Ask::FetchBlockAtSlot { slot: entry.attestation_sources@[at as int].slot },
                    )
                },
                Phase::Injecting { index: at, .. } => {
                    &&& res.0.len() == entry.import_blocks@.len() && res.1.len() == at + 1
                    &&& asked == now
                },
                Phase::Evaluating { .. } => {
                    &&& res.0.len() == entry.import_blocks@.len()
                    &&& res.1.len() == entry.attestation_sources@.len()
                    &&& asked == now.push(Ask::RecomputeHead { slot: entry.eval_slot })
                },
                Phase::Aborted => true,
                _ => false,
            }
        }),
{
    let entry = state.entry();
    assert(entry.import_blocks.len() == entry.import_blocks@.len());
    let (next, ask) = state.ask_import(index);
    let none = Seq::<Seq<Ask>>::empty();
    let before = done + before_head(state.slot, imports, none) + part;
    let clock = seq![Ask::SetClock { slot: state.slot }];
    if index >= entry.import_blocks@.len() {
        let head = done + (clock + joined(imports));
        let sources = lemma_sources(state, 0, 0, head, none, Seq::empty());
        assert(before =~= head + joined(none) + Seq::<Ask>::empty());
        assert(head + joined(sources) =~= done + before_head(state.slot, imports, sources));
        (imports, sources)
    } else {
        let import = entry.import_blocks@[index];
        if next.phase is FetchingImport {
            assert(before.push(ask) =~= (done + before_head(state.slot, imports, none)).push(ask));
            (imports, none)
        } else if next.phase is ProcessingImport {
            let piece = part.push(ask);
            let more = imports.push(piece);
            lemma_joined_push(imports, piece);
            assert(part.len() == 0 ==> piece =~= seq![ask]);
            assert(part.len() > 0 ==> piece =~= seq![part[0], ask]);
            assert(is_planned_block(import, state.cache[import.slot]->0));
            assert(imports_block(import, state.cache, piece));
            assert(before.push(ask) =~= done + before_head(state.slot, more, none));
            (more, none)
        } else {
            (imports, none)
        }
    }
}

/// A slot that is done comes behind those that were done before.
proof fn lemma_slot_done(state: EngineState, works: Seq<SlotWork>, work: SlotWork)
    requires
        works.len() == state.slot - first_slot(state.config),
        does_slots(state.config, state.plan, state.cache, works),
        state.plan.contains_key(state.slot),
        does_slot(state.config, state.entry(), state.slot, state.cache, work),
    ensures
        does_slots(state.config, state.plan, state.cache, works.push(work)),
        run_asks(state.config, state.plan, works.push(work)) == run_asks(
            state.config,
            state.plan,
            works,
        ) + slot_asks(state.entry(), state.slot, work),
{
    let all = works.push(work);
    assert(all.drop_last() =~= works);
    assert forall|k: int| 0 <= k < all.len() implies #[trigger] does_nth_slot(
        state.config,
        state.plan,
        state.cache,
        all,
        k,
    ) by {
        if k < works.len() {
            assert(does_nth_slot(state.config, state.plan, state.cache, works, k));
        }
    }
}

proof fn lemma_parts_stay(state: EngineState, event: Event, asked: Seq<Ask>, shape: Shape)
    requires
        state.valid(),
        state.phase != Phase::Aborted,
        is_shaped(state, asked, shape),
    ensures
        ({
            let next = state.next(event).0;
            &&& next.config == state.config && next.plan == state.plan
            &&& does_slots(state.config, state.plan, next.cache, shape.works)
            &&& imports_blocks(state.entry(), next.cache, shape.imports)
            &&& injects_sources(state.entry(), state.slot, next.cache, shape.sources)
        }),
{
    let next = state.next(event).0;
    known_blocks_stay_known(state, event);
    lemma_work_stays(state.config, state.plan, state.cache, next.cache, shape.works);
    lemma_pieces_stay(
        state.entry(),
        state.slot,
        state.cache,
        next.cache,
        shape.imports,
        shape.sources,
    );
}

proof fn lemma_after_clock(state: EngineState, event: Event, asked: Seq<Ask>, shape: Shape) -> (res:
    Shape)
    requires
        state.valid(),
        is_shaped(state, asked, shape),
        state.phase == Phase::SettingClock,
        event == Event::Done,
    ensures
        is_shaped(state.next(event).0, asked.push(state.next(event).1), res),
{
    let (next, ask) = state.next(event);
    let entry = state.entry();
    let done = run_asks(state.config, state.plan, shape.works);
    lemma_parts_stay(state, event, asked, shape);
    let none = Seq::<Seq<Ask>>::empty();
    let nothing = Seq::<Ask>::empty();
    assert(shape.imports =~= none && shape.sources =~= none);
    assert(asked =~= done + before_head(state.slot, none, none) + nothing);
    let (imports, sources) = lemma_imports(state, 0, done, none, nothing);
    Shape { works: shape.works, imports, sources }
}

proof fn lemma_after_import_fetch(state: EngineState, event: Event, asked: Seq<Ask>, shape: Shape) -> (res:
    Shape)
    requires
        state.valid(),
        is_shaped(state, asked, shape),
        state.phase is FetchingImport,
        event is Fetched,
        state.next(event).0.phase != Phase::Aborted,
    ensures
        is_shaped(state.next(event).0, asked.push(state.next(event).1), res),
{
    let (next, ask) = state.next(event);
    let entry = state.entry();
    let done = run_asks(state.config, state.plan, shape.works);
    lemma_parts_stay(state, event, asked, shape);
    let none = Seq::<Seq<Ask>>::empty();
    let nothing = Seq::<Ask>::empty();
    let index = state.phase->FetchingImport_index as int;
    let block = event->block;
    let import = entry.import_blocks@[index];
    let fetch = asked.last();
    assert(shape.sources =~= none);
    assert(asked =~= done + before_head(state.slot, shape.imports, none) + seq![fetch]);
    if import.canonical {
        let known = state.with_block(import.slot, block);
        assert(next == known.ask_import(index).0);
        lemma_pieces_stay(
            entry,
            state.slot,
            state.cache,
            known.cache,
            shape.imports,
            shape.sources,
        );
        let (imports, sources) = lemma_imports(known, index, done, shape.imports, seq![fetch]);
        Shape { works: shape.works, imports, sources }
    } else {
        let piece = if block is Some {
            seq![fetch, ask]
        } else {
            seq![fetch]
        };
        let more = shape.imports.push(piece);
        lemma_joined_push(shape.imports, piece);
        assert(imports_block(import, state.cache, piece));
        assert(imports_blocks(entry, state.cache, more));
        if block is Some {
            assert(asked.push(ask) =~= done + before_head(state.slot, more, none));
            Shape { works: shape.works, imports: more, sources: none }
        } else {
            assert(asked =~= done + before_head(state.slot, more, none) + nothing);
            let (imports, sources) = lemma_imports(state, index + 1, done, more, nothing);
            Shape { works: shape.works, imports, sources }
        }
    }
}

proof fn lemma_after_import(state: EngineState, event: Event, asked: Seq<Ask>, shape: Shape) -> (res:
    Shape)
    requires
        state.valid(),
        is_shaped(state, asked, shape),
        state.phase is ProcessingImport,
        event is Processed,
        state.next(event).0.phase != Phase::Aborted,
    ensures
        is_shaped(state.next(event).0, asked.push(state.next(event).1), res),
{
    let (next, ask) = state.next(event);
    let entry = state.entry();
    let done = run_asks(state.config, state.plan, shape.works);
    lemma_parts_stay(state, event, asked, shape);
    let none = Seq::<Seq<Ask>>::empty();
    let nothing = Seq::<Ask>::empty();
    let index = state.phase->ProcessingImport_index as int;
    assert(shape.sources =~= none);
    assert(asked =~= done + before_head(state.slot, shape.imports, none) + nothing);
    let (imports, sources) = lemma_imports(state, index + 1, done, shape.imports, nothing);
    Shape { works: shape.works, imports, sources }
}

proof fn lemma_after_source_fetch(state: EngineState, event: Event, asked: Seq<Ask>, shape: Shape) -> (res:
    Shape)
    requires
        state.valid(),
        is_shaped(state, asked, shape),
        state.phase is FetchingSource,
        event is Fetched,
        state.next(event).0.phase != Phase::Aborted,
    ensures
        is_shaped(state.next(event).0, asked.push(state.next(event).1), res),
{
    let (next, ask) = state.next(event);
    let entry = state.entry();
    let done = run_asks(state.config, state.plan, shape.works);
    lemma_parts_stay(state, event, asked, shape);
    let index = state.phase->FetchingSource_index as int;
    let source = entry.attestation_sources@[index];
    let fetch = asked.last();
    let known = state.with_block(source.slot, event->block);
    let head = done + (seq![Ask::SetClock { slot: state.slot }] + joined(shape.imports));
    lemma_pieces_stay(
        entry,
        state.slot,
        state.cache,
        known.cache,
        shape.imports,
        shape.sources,
    );
    let sources = lemma_sources(
        known,
        index,
        state.phase->FetchingSource_injected,
        head,
        shape.sources,
        seq![fetch],
    );
    assert(asked =~= head + joined(shape.sources) + seq![fetch]);
    assert(head + joined(sources) =~= done + before_head(state.slot, shape.imports, sources));
    Shape { works: shape.works, imports: shape.imports, sources }
}

proof fn lemma_after_injection(state: EngineState, event: Event, asked: Seq<Ask>, shape: Shape) -> (res:
    Shape)
    requires
        state.valid(),
        is_shaped(state, asked, shape),
        state.phase is Injecting,
        event is Applied,
        state.next(event).0.phase != Phase::Aborted,
    ensures
        is_shaped(state.next(event).0, asked.push(state.next(event).1), res),
{
    let (next, ask) = state.next(event);
    let entry = state.entry();
    let done = run_asks(state.config, state.plan, shape.works);
    lemma_parts_stay(state, event, asked, shape);
    let nothing = Seq::<Ask>::empty();
    let index = state.phase->Injecting_index as int;
    let outcomes = event->outcomes@;
    let total = (state.phase->Injecting_injected + injected_count(
        outcomes,
        outcomes.len() as int,
    )) as u64;
    let head = done + (seq![Ask::SetClock { slot: state.slot }] + joined(shape.imports));
    let sources = lemma_sources(state, index + 1, total, head, shape.sources, nothing);
    assert(asked =~= head + joined(shape.sources) + nothing);
    assert(head + joined(sources) =~= done + before_head(state.slot, shape.imports, sources));
    Shape { works: shape.works, imports: shape.imports, sources }
}

proof fn lemma_after_slot(state: EngineState, event: Event, asked: Seq<Ask>, shape: Shape) -> (res:
    Shape)
    requires
        state.valid(),
        is_shaped(state, asked, shape),
        state.phase is Evaluating && event is Evaluated || state.phase == Phase::Writing && event
            == Event::Done,
    ensures
        is_shaped(state.next(event).0, asked.push(state.next(event).1), res),
{
    let (next, ask) = state.next(event);
    let entry = state.entry();
    let done = run_asks(state.config, state.plan, shape.works);
    lemma_parts_stay(state, event, asked, shape);
    let none = Seq::<Seq<Ask>>::empty();
    if state.phase is Evaluating && state.slot >= state.config.start_slot {
        assert(asked.push(ask).drop_last() =~= asked);
        shape
    } else {
        let record = if state.phase == Phase::Writing {
            Some(asked.last())
        } else {
            None
        };
        let work = SlotWork { imports: shape.imports, sources: shape.sources, record };
        lemma_slot_done(state, shape.works, work);
        let works = shape.works.push(work);
        let all = run_asks(state.config, state.plan, works);
        if state.phase == Phase::Writing {
            assert(asked =~= asked.drop_last().push(asked.last()));
        }
        assert(asked =~= all);
        assert(asked.push(ask) =~= all + before_head(next.slot, none, none) || ask is Flush);
        Shape { works, imports: none, sources: none }
    }
}

proof fn lemma_shape_step(state: EngineState, event: Event, asked: Seq<Ask>, shape: Shape) -> (res:
    Shape)
    requires
        state.valid(),
        is_shaped(state, asked, shape),
    ensures
        is_shaped(state.next(event).0, asked.push(state.next(event).1), res),
{
    let (next, ask) = state.next(event);
    if next.phase == Phase::Aborted {
        shape
    } else {
        match (state.phase, event) {
            (Phase::Starting, Event::Done) => {
                let none = Seq::<Seq<Ask>>::empty();
                assert(shape.works.len() == 0);
                assert(asked =~= Seq::<Ask>::empty());
                assert(asked.push(ask) =~= asked + before_head(state.slot, none, none)
                    || ask is Flush);
                Shape { works: shape.works, imports: none, sources: none }
            },
            (Phase::SettingClock, Event::Done) => lemma_after_clock(state, event, asked, shape),
            (Phase::FetchingImport { .. }, Event::Fetched { .. }) => {
                lemma_after_import_fetch(state, event, asked, shape)
            },
            (Phase::ProcessingImport { .. }, Event::Processed { .. }) => {
                lemma_after_import(state, event, asked, shape)
            },
            (Phase::FetchingSource { .. }, Event::Fetched { .. }) => {
                lemma_after_source_fetch(state, event, asked, shape)
            },
            (Phase::Injecting { .. }, Event::Applied { .. }) => {
                lemma_after_injection(state, event, asked, shape)
            },
            (Phase::Evaluating { .. }, Event::Evaluated { .. }) => {
                lemma_after_slot(state, event, asked, shape)
            },
            (Phase::Writing, Event::Done) => lemma_after_slot(state, event, asked, shape),
            _ => shape,
        }
    }
}

proof fn lemma_shape(start: EngineState, events: Seq<Event>) -> (res: Shape)
    requires
        start == initial(start.config, start.plan),
    ensures
        ran(start, events).valid(),
        ran(start, events).config == start.config,
        ran(start, events).plan == start.plan,
        is_shaped(ran(start, events), asks(start, events), res),
    decreases events.len(),
{
    if events.len() == 0 {
        let none = Seq::<Seq<Ask>>::empty();
        Shape { works: Seq::empty(), imports: none, sources: none }
    } else {
        let shape = lemma_shape(start, events.drop_last());
        let before = ran(start, events.drop_last());
        before.next_keeps_validity(events.last());
        known_blocks_stay_known(before, events.last());
        lemma_shape_step(before, events.last(), asks(start, events.drop_last()), shape)
    }
}

/// A run that finishes has done, slot after slot from the first to the end and nothing else, what
/// the plan says of the slot, in this order: it sets the clock to the slot, imports the planned
/// blocks, injects the attestations of the sources, evaluates the head once at the planned slot,
/// also where the slot is not recorded, and writes the record where it is. A record names as its
/// source the one that the plan names, or else that of the first source.
pub proof fn work_is_done_in_order(
    config: EngineConfig,
    plan: Map<u64, PlanEntry>,
    events: Seq<Event>,
)
    requires
        config.start_slot < config.end_slot,
        ran(initial(config, plan), events).phase == Phase::Finished,
    ensures
        ({
            let state = ran(initial(config, plan), events);
            exists|works: Seq<SlotWork>|
                {
                    &&& #[trigger] does_slots(config, plan, state.cache, works)
                    &&& works.len() == config.end_slot - first_slot(config)
                    &&& asks(initial(config, plan), events) == run_asks(config, plan, works).push(
                        Ask::Flush,
                    ).push(Ask::Finish { total_recorded: state.total_recorded })
                }
        }),
{
    let shape = lemma_shape(initial(config, plan), events);
    let state = ran(initial(config, plan), events);
    assert(does_slots(config, plan, state.cache, shape.works));
}

} // verus!
