//! What becomes of the attestations that are injected.
use vstd::prelude::*;

use crate::http::plan::PlanEntry;
use crate::sim::engine::injected_count;
use crate::sim::engine::Ask;
use crate::sim::engine::AttestationOutcome;
use crate::sim::engine::EngineConfig;
use crate::sim::engine::EngineState;
use crate::sim::engine::Event;
use crate::sim::engine::Phase;
use crate::sim::laws::asks;
use crate::sim::laws::initial;
use crate::sim::laws::ran;
use crate::sim::laws::recorded_slot_is_the_current_one;

verus! {

/// How many of some attestations are in, by their outcomes.
pub open spec fn taken(outcomes: Seq<AttestationOutcome>) -> nat {
    outcomes.filter(|outcome: AttestationOutcome| outcome is Injected).len()
}

proof fn lemma_taken(outcomes: Seq<AttestationOutcome>, count: int)
    requires
        0 <= count <= outcomes.len(),
    ensures
        injected_count(outcomes, count) == taken(outcomes.take(count)),
        taken(outcomes.take(count)) <= count,
    decreases count,
{
    reveal(Seq::filter);
    if count > 0 {
        lemma_taken(outcomes, count - 1);
        assert(outcomes.take(count).drop_last() =~= outcomes.take(count - 1));
    } else {
        assert(outcomes.take(0).len() == 0);
    }
}

/// The number that is counted of some outcomes is the number of those that say that the
/// attestation is in: those that could not be looked up, and those that fork choice did not take,
/// do not count.
pub proof fn only_injected_attestations_count(outcomes: Seq<AttestationOutcome>)
    ensures
        injected_count(outcomes, outcomes.len() as int) == taken(outcomes),
        taken(outcomes) <= outcomes.len(),
        (forall|i: int| 0 <= i < outcomes.len() ==> #[trigger] outcomes[i] is Injected) ==> taken(
            outcomes,
        ) == outcomes.len(),
        (forall|i: int| 0 <= i < outcomes.len() ==> #[trigger] outcomes[i] !is Injected) ==> taken(
            outcomes,
        ) == 0,
    decreases outcomes.len(),
{
    reveal(Seq::filter);
    lemma_taken(outcomes, outcomes.len() as int);
    assert(outcomes.take(outcomes.len() as int) =~= outcomes);
    if outcomes.len() > 0 {
        let rest = outcomes.drop_last();
        only_injected_attestations_count(rest);
        if forall|i: int| 0 <= i < outcomes.len() ==> #[trigger] outcomes[i] is Injected {
            assert(outcomes.last() == outcomes[outcomes.len() - 1]);
            assert forall|i: int| 0 <= i < rest.len() implies #[trigger] rest[i] is Injected by {
                assert(rest[i] == outcomes[i]);
            }
        }
        if forall|i: int| 0 <= i < outcomes.len() ==> #[trigger] outcomes[i] !is Injected {
            assert(outcomes.last() == outcomes[outcomes.len() - 1]);
            assert forall|i: int| 0 <= i < rest.len() implies #[trigger] rest[i] !is Injected by {
                assert(rest[i] == outcomes[i]);
            }
        }
    }
}

/// How many attestations are in, where a phase counts them.
pub open spec fn counted(phase: Phase) -> int {
    match phase {
        Phase::FetchingSource { injected, .. } => injected as int,
        Phase::Injecting { injected, .. } => injected as int,
        Phase::Evaluating { injected } => injected as int,
        _ => 0,
    }
}

/// Two phases are the same but for the count.
pub open spec fn differ_in_count_only(a: Phase, b: Phase) -> bool {
    match (a, b) {
        (Phase::FetchingSource { index: i, .. }, Phase::FetchingSource { index: j, .. }) => i == j,
        (
            Phase::Injecting { index: i, asked: m, .. },
            Phase::Injecting { index: j, asked: n, .. },
        ) => i == j && m == n,
        (Phase::Evaluating { .. }, Phase::Evaluating { .. }) => true,
        _ => a == b,
    }
}

/// Whatever is counted, the sources are gone through in the same way, and the count is handed on
/// as it is.
proof fn lemma_sources_for_any_count(state: EngineState, index: int, a: u64, b: u64)
    requires
        0 <= index,
    ensures
        ({
            let (next_a, ask_a) = state.ask_source(index, a);
            let (next_b, ask_b) = state.ask_source(index, b);
            &&& ask_a == ask_b
            &&& next_b.in_phase(next_a.phase) == next_a
            &&& differ_in_count_only(next_a.phase, next_b.phase)
            &&& next_a.phase == Phase::Aborted || counted(next_a.phase) == a
            &&& ask_a matches Ask::Abort { cause, .. } ==> cause is SourceBlockMissing
            &&& ask_a is Abort <==> next_a.phase == Phase::Aborted
            &&& ask_a !is WriteResult && ask_a !is SetClock
            &&& next_a.phase is FetchingSource || next_a.phase is Injecting
                || next_a.phase is Evaluating || next_a.phase is Aborted
            &&& next_a.phase is Injecting <==> ask_a is InjectAttestations
        }),
    decreases state.entry().attestation_sources@.len() - index,
{
    if index < state.entry().attestation_sources@.len() {
        lemma_sources_for_any_count(state, index + 1, a, b);
    }
}

/// An attestation that is not taken is passed over. A reply with an outcome for each attestation
/// that was asked for, whatever the outcomes, does not end the run as an unexpected one would;
/// and two such replies lead to the same next request and to states that differ in nothing but
/// the count, which grows by the attestations that are in.
pub proof fn attestations_that_are_not_taken_are_passed_over(
    state: EngineState,
    asked: usize,
    outcomes: Vec<AttestationOutcome>,
    others: Vec<AttestationOutcome>,
)
    requires
        state.valid(),
        state.phase matches Phase::Injecting { asked: awaited, .. } && awaited == asked,
        outcomes@.len() == asked,
        others@.len() == asked,
        counted(state.phase) + asked <= u64::MAX,
    ensures
        ({
            let (next, ask) = state.next(Event::Applied { outcomes });
            let (other, other_ask) = state.next(Event::Applied { outcomes: others });
            &&& ask matches Ask::Abort { cause, .. } ==> cause is SourceBlockMissing
            &&& ask == other_ask
            &&& other.in_phase(next.phase) == next
            &&& differ_in_count_only(next.phase, other.phase)
            &&& next.phase == Phase::Aborted || counted(next.phase) == counted(state.phase) + taken(
                outcomes@,
            )
        }),
{
    only_injected_attestations_count(outcomes@);
    only_injected_attestations_count(others@);
    let before = counted(state.phase);
    let a = (before + taken(outcomes@)) as u64;
    let b = (before + taken(others@)) as u64;
    lemma_sources_for_any_count(state, state.phase->Injecting_index + 1, a, b);
}

/// A reply with another number of outcomes than attestations were asked for ends the run.
pub proof fn every_attestation_has_an_outcome(state: EngineState, outcomes: Vec<AttestationOutcome>)
    requires
        state.phase matches Phase::Injecting { asked, .. } && asked != outcomes@.len(),
    ensures
        state.next(Event::Applied { outcomes }).1 matches Ask::Abort { cause, .. }
            && cause is UnexpectedReply,
{
}

/// Each reply of a run can be counted.
pub open spec fn counts_fit(start: EngineState, events: Seq<Event>) -> bool
    decreases events.len(),
{
    events.len() > 0 ==> {
        &&& counts_fit(start, events.drop_last())
        &&& ran(start, events.drop_last()).count_fits(events.last())
    }
}

/// How many attestations were taken since the clock was last set, by what was asked for and
/// replied: a reply that comes right after a request to inject attestations has an outcome for
/// each of them. `asked` and `events` go in step, each request following the reply at its
/// position.
pub open spec fn taken_since_the_clock(asked: Seq<Ask>, events: Seq<Event>) -> nat
    decreases events.len(),
{
    if events.len() == 0 || asked.len() != events.len() {
        0
    } else if asked.last() is SetClock {
        0
    } else {
        let before = taken_since_the_clock(asked.drop_last(), events.drop_last());
        match events.last() {
            Event::Applied { outcomes } => if asked.len() >= 2 && asked[asked.len()
                - 2] is InjectAttestations {
                before + taken(outcomes@)
            } else {
                before
            },
            _ => before,
        }
    }
}

proof fn lemma_asks_len(start: EngineState, events: Seq<Event>)
    ensures
        asks(start, events).len() == events.len(),
    decreases events.len(),
{
    if events.len() > 0 {
        lemma_asks_len(start, events.drop_last());
    }
}

/// The state of a run goes with the attestations that were taken.
spec fn tallies(state: EngineState, asked: Seq<Ask>, events: Seq<Event>) -> bool {
    &&& state.phase is Injecting <==> asked.len() > 0 && asked.last() is InjectAttestations
    &&& match state.phase {
        Phase::Aborted | Phase::Writing | Phase::Flushing | Phase::Finished => true,
        _ => counted(state.phase) == taken_since_the_clock(asked, events),
    }
}

proof fn lemma_import_counts_nothing(state: EngineState, index: int)
    requires
        0 <= index,
    ensures
        ({
            let (next, ask) = state.ask_import(index);
            &&& counted(next.phase) == 0
            &&& next.phase !is Writing && next.phase !is Flushing && next.phase !is Finished
            &&& ask !is SetClock && ask !is WriteResult
            &&& next.phase is Injecting <==> ask is InjectAttestations
        }),
{
    lemma_sources_for_any_count(state, 0, 0, 0);
}

proof fn lemma_tally_step(state: EngineState, event: Event, asked: Seq<Ask>, events: Seq<Event>)
    requires
        state.valid(),
        state.count_fits(event),
        asked.len() == events.len(),
        tallies(state, asked, events),
    ensures
        tallies(state.next(event).0, asked.push(state.next(event).1), events.push(event)),
        state.next(event).1 matches Ask::WriteResult { record, .. }
            ==> record.num_attestations_injected == taken_since_the_clock(asked, events),
{
    let (next, ask) = state.next(event);
    let more = asked.push(ask);
    assert(more.drop_last() =~= asked);
    assert(events.push(event).drop_last() =~= events);
    if asked.len() > 0 {
        assert(more[more.len() - 2] == asked.last());
    }
    match (state.phase, event) {
        (Phase::SettingClock, Event::Done) => {
            lemma_import_counts_nothing(state, 0);
        },
        (Phase::FetchingImport { index }, Event::Fetched { block }) => {
            let import = state.entry().import_blocks@[index as int];
            lemma_import_counts_nothing(state.with_block(import.slot, block), index as int);
            lemma_import_counts_nothing(state, index + 1);
        },
        (Phase::ProcessingImport { index }, Event::Processed { imported }) => {
            lemma_import_counts_nothing(state, index + 1);
        },
        (Phase::FetchingSource { index, injected }, Event::Fetched { block }) => {
            let source = state.entry().attestation_sources@[index as int];
            lemma_sources_for_any_count(
                state.with_block(source.slot, block),
                index as int,
                injected,
                injected,
            );
        },
        (Phase::Injecting { index, injected, asked: awaited }, Event::Applied { outcomes }) => {
            only_injected_attestations_count(outcomes@);
            let total = (injected + taken(outcomes@)) as u64;
            lemma_sources_for_any_count(state, index + 1, total, total);
        },
        _ => {},
    }
}

proof fn lemma_tallies(start: EngineState, events: Seq<Event>)
    requires
        start == initial(start.config, start.plan),
        counts_fit(start, events),
    ensures
        ran(start, events).valid(),
        tallies(ran(start, events), asks(start, events), events),
    decreases events.len(),
{
    if events.len() > 0 {
        let before = events.drop_last();
        lemma_tallies(start, before);
        lemma_asks_len(start, before);
        let state = ran(start, before);
        state.next_keeps_validity(events.last());
        lemma_tally_step(state, events.last(), asks(start, before), before);
        assert(before.push(events.last()) =~= events);
    }
}

/// In every run, the number of attestations that a slot's record gives is the number of those
/// that were taken in that slot, over all of its sources: of all replies since the clock was set
/// to the slot to requests to inject attestations, the outcomes that say that one is in.
pub proof fn a_record_counts_the_attestations_of_its_slot(
    config: EngineConfig,
    plan: Map<u64, PlanEntry>,
    events: Seq<Event>,
    event: Event,
)
    requires
        counts_fit(initial(config, plan), events.push(event)),
    ensures
        ran(initial(config, plan), events).next(event).1 matches Ask::WriteResult { record, .. } ==> {
            &&& record.slot == ran(initial(config, plan), events).slot
            &&& record.num_attestations_injected == taken_since_the_clock(
                asks(initial(config, plan), events),
                events,
            )
        },
{
    let start = initial(config, plan);
    assert(events.push(event).drop_last() =~= events);
    lemma_tallies(start, events);
    lemma_asks_len(start, events);
    let state = ran(start, events);
    lemma_tally_step(state, event, asks(start, events), events);
    recorded_slot_is_the_current_one(state, event);
}

/// A reply can be counted unless it brings more outcomes than the count has room for.
pub proof fn which_replies_can_be_counted(state: EngineState, event: Event)
    ensures
        state.phase !is Injecting || event !is Applied ==> state.count_fits(event),
        state.phase is Injecting ==> (event matches Event::Applied { outcomes } ==> (
        state.count_fits(event) <==> counted(state.phase) + outcomes@.len() <= u64::MAX)),
{
}

} // verus!
