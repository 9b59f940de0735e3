//! What is reported of a slot once its head is evaluated.
use vstd::prelude::*;

use crate::hash256::b256_debug;
use crate::hash256::is_zero;
use crate::hash256::root_parsed;
use crate::hash256::root_text;
use crate::hash256::written_root_reads_back;
use crate::hash256::Hash256;
use crate::hash256::RootError;
use crate::output::schema::SlotRecord;
use crate::output::schema::SlotResult;
use crate::types::Epoch;
use crate::types::Slot;
use crate::types::SLOTS_PER_EPOCH;

verus! {

/// The block that the fast confirmation rule has confirmed, with its slot where fork choice
/// knows the block.
#[derive(Clone, Copy, Debug)]
pub struct Confirmation {
    pub root: Hash256,
    pub slot: Option<Slot>,
}

/// What the chain says of its head.
#[derive(Clone, Copy, Debug)]
pub struct HeadReport {
    pub head_root: Hash256,
    pub finalized_epoch: Epoch,
    pub justified_epoch: Epoch,
    /// `None` where the fast confirmation rule is off.
    pub confirmation: Option<Confirmation>,
}

/// What the simulation knows of a slot besides the head.
#[derive(Clone, Copy, Debug)]
pub struct SlotFacts {
    pub slot: Slot,
    /// The root of the slot's canonical block, where it has one.
    pub block_root: Option<Hash256>,
    pub source_block_slot: Option<Slot>,
    pub num_attestations_injected: u64,
    pub fcr_eval_duration_us: u64,
}

/// The confirmed block's root; 32 zero bytes where the rule is off.
pub open spec fn confirmed_root(head: HeadReport) -> Seq<u8> {
    match head.confirmation {
        Some(confirmation) => confirmation.root@,
        None => Seq::new(32, |i: int| 0u8),
    }
}

/// The confirmed block's slot; 0 where the rule is off or the block is unknown.
pub open spec fn confirmed_slot(head: HeadReport) -> Slot {
    match head.confirmation {
        Some(confirmation) => match confirmation.slot {
            Some(slot) => slot,
            None => 0,
        },
        None => 0,
    }
}

/// Whether some block is confirmed, and it is of this slot.
pub open spec fn is_fast_confirmed(slot: Slot, head: HeadReport) -> bool {
    !is_zero(confirmed_root(head)) && confirmed_slot(head) == slot
}

/// How many slots the slot after `slot` lies behind the confirmed one; nothing comes after
/// the last slot there is.
pub open spec fn confirmation_delay(slot: Slot, head: HeadReport) -> int {
    let eval_slot = if slot < u64::MAX {
        slot + 1
    } else {
        u64::MAX as int
    };
    if eval_slot > confirmed_slot(head) {
        eval_slot - confirmed_slot(head)
    } else {
        0
    }
}

/// The record of a slot.
pub open spec fn slot_record(facts: SlotFacts, head: HeadReport) -> SlotRecord {
    let delay = confirmation_delay(facts.slot, head);
    SlotRecord {
        slot: facts.slot,
        epoch: (facts.slot as int / 32) as u64,
        has_block: facts.block_root is Some,
        block_root: match facts.block_root {
            Some(root) => Some(root_text(root@)),
            None => None,
        },
        head_root: root_text(head.head_root@),
        confirmed_root: root_text(confirmed_root(head)),
        confirmed_slot: confirmed_slot(head),
        confirmation_delay_slots: delay as u64,
        fast_confirmed: is_fast_confirmed(facts.slot, head),
        strict_one_slot_confirmed: {
            &&& facts.block_root matches Some(root) && root@ == confirmed_root(head)
            &&& is_fast_confirmed(facts.slot, head)
            &&& delay == 1
        },
        finalized_epoch: head.finalized_epoch,
        justified_epoch: head.justified_epoch,
        source_block_slot: facts.source_block_slot,
        num_attestations_injected: facts.num_attestations_injected,
        is_epoch_boundary: facts.slot as int % 32 == 0,
        is_missed_slot: facts.block_root is None,
        fcr_eval_duration_us: facts.fcr_eval_duration_us,
    }
}

/// The record of a slot.
pub fn build_slot_result(facts: &SlotFacts, head: &HeadReport) -> (res: SlotResult)
    ensures
        res@ == slot_record(*facts, *head),
{
    let slot = facts.slot;
    let has_block = facts.block_root.is_some();
    let zero = Hash256::zero();
    let (root, c_slot) = match head.confirmation {
        Some(confirmation) => (
            confirmation.root,
            match confirmation.slot {
                Some(c_slot) => c_slot,
                None => 0,
            },
        ),
        None => (zero, 0),
    };
    let is_set = root != zero;
    proof {
        assert(root@ =~= confirmed_root(*head));
        if is_zero(root@) {
            crate::hash256::roots_equal_by_bytes(root, zero);
        }
        match facts.block_root {
            Some(block_root) => {
                if block_root@ == root@ {
                    crate::hash256::roots_equal_by_bytes(block_root, root);
                }
            },
            None => {},
        }
    }
    let fast_confirmed = is_set && c_slot == slot;
    let eval_slot: u64 = slot.saturating_add(1);
    let delay: u64 = eval_slot.saturating_sub(c_slot);
    let is_block_confirmed = match facts.block_root {
        Some(block_root) => block_root == root,
        None => false,
    };
    let strict_one_slot_confirmed = has_block && is_set && is_block_confirmed && c_slot == slot
        && delay == 1;
    let block_root = match &facts.block_root {
        Some(block_root) => Some(b256_debug(block_root)),
        None => None,
    };
    SlotResult {
        slot,
        epoch: slot / SLOTS_PER_EPOCH,
        has_block,
        block_root,
        head_root: b256_debug(&head.head_root),
        confirmed_root: b256_debug(&root),
        confirmed_slot: c_slot,
        confirmation_delay_slots: delay,
        fast_confirmed,
        strict_one_slot_confirmed,
        finalized_epoch: head.finalized_epoch,
        justified_epoch: head.justified_epoch,
        source_block_slot: facts.source_block_slot,
        num_attestations_injected: facts.num_attestations_injected,
        is_epoch_boundary: slot % SLOTS_PER_EPOCH == 0,
        is_missed_slot: !has_block,
        fcr_eval_duration_us: facts.fcr_eval_duration_us,
    }
}

/// An elapsed time in microseconds, as the record holds it: what does not fit becomes the
/// largest number there is.
pub open spec fn reported_micros(elapsed_micros: u128) -> u64 {
    if elapsed_micros <= u64::MAX {
        elapsed_micros as u64
    } else {
        u64::MAX
    }
}

/// An elapsed time in microseconds, as the record holds it.
pub fn micros_since(elapsed_micros: u128) -> (res: u64)
    ensures
        res == reported_micros(elapsed_micros),
{
    if elapsed_micros <= u64::MAX as u128 {
        elapsed_micros as u64
    } else {
        u64::MAX
    }
}

/// Strict confirmation is fast confirmation of the slot's own block, for every slot but the
/// last there is.
pub proof fn strict_is_fast_of_own_block(facts: SlotFacts, head: HeadReport)
    requires
        facts.slot < u64::MAX,
    ensures
        slot_record(facts, head).strict_one_slot_confirmed <==> {
            &&& slot_record(facts, head).fast_confirmed
            &&& facts.block_root is Some
            &&& facts.block_root->0@ == confirmed_root(head)
        },
        slot_record(facts, head).fast_confirmed ==> slot_record(
            facts,
            head,
        ).confirmation_delay_slots == 1,
{
}

/// A record is consistent in itself: a slot has a block or is missed, it lies in its epoch,
/// and the first slot of an epoch is a boundary.
pub proof fn record_is_consistent(facts: SlotFacts, head: HeadReport)
    ensures
        ({
            let record = slot_record(facts, head);
            &&& record.has_block == !record.is_missed_slot
            &&& record.has_block == (record.block_root is Some)
            &&& 32 * record.epoch <= record.slot < 32 * (record.epoch + 1)
            &&& record.is_epoch_boundary <==> record.slot == 32 * record.epoch
            &&& record.strict_one_slot_confirmed ==> record.fast_confirmed && record.has_block
                && record.block_root == Some(record.confirmed_root)
        }),
{
}

/// What the fast confirmation rule says goes into the record as it is. Where the rule is on, the
/// record names the block that it has confirmed, so that the root can be read from it, and that
/// block's slot where it is known, whichever slot is recorded; the slot is 0 where it is not
/// known, and where the rule is off, root and slot are zero.
pub proof fn the_confirmed_block_is_reported(facts: SlotFacts, head: HeadReport)
    ensures
        ({
            let record = slot_record(facts, head);
            match head.confirmation {
                Some(confirmation) => {
                    &&& root_parsed(record.confirmed_root) == Ok::<Seq<u8>, RootError>(
                        confirmation.root@,
                    )
                    &&& confirmation.slot matches Some(slot) ==> record.confirmed_slot == slot
                    &&& confirmation.slot is None ==> record.confirmed_slot == 0
                },
                None => {
                    &&& root_parsed(record.confirmed_root) == Ok::<Seq<u8>, RootError>(
                        Seq::new(32, |i: int| 0u8),
                    )
                    &&& record.confirmed_slot == 0
                },
            }
        }),
{
    written_root_reads_back(confirmed_root(head));
}

/// The delay is counted from the confirmed slot to the slot after the recorded one: the two add
/// up to that slot, and there is no delay where the confirmed slot comes later.
pub proof fn delay_reaches_from_the_confirmed_slot(facts: SlotFacts, head: HeadReport)
    requires
        facts.slot < u64::MAX,
    ensures
        ({
            let record = slot_record(facts, head);
            &&& record.confirmed_slot <= facts.slot ==> record.confirmed_slot
                + record.confirmation_delay_slots == facts.slot + 1
            &&& record.confirmed_slot > facts.slot <==> record.confirmation_delay_slots == 0
        }),
{
}

/// After the last slot there is none: its delay is counted to the slot itself, so that its block is
/// never confirmed one slot later.
pub proof fn delay_of_the_last_slot(facts: SlotFacts, head: HeadReport)
    requires
        facts.slot == u64::MAX,
    ensures
        ({
            let record = slot_record(facts, head);
            &&& record.confirmed_slot + record.confirmation_delay_slots == u64::MAX
            &&& !record.strict_one_slot_confirmed
        }),
{
}

/// A slot is fast confirmed just where the rule has confirmed some block, which has a root, and
/// the record's confirmed slot is the slot itself.
pub proof fn fast_confirmed_iff(facts: SlotFacts, head: HeadReport)
    ensures
        ({
            let record = slot_record(facts, head);
            record.fast_confirmed <==> {
                &&& head.confirmation is Some
                &&& exists|i: int| 0 <= i < 32 && #[trigger] head.confirmation->0.root@[i] != 0
                &&& record.confirmed_slot == record.slot
            }
        }),
{
    match head.confirmation {
        Some(confirmation) => {
            let bytes = confirmation.root@;
            assert(bytes.len() == 32);
            if forall|i: int| 0 <= i < 32 ==> bytes[i] == 0 {
                assert(bytes =~= Seq::new(32, |i: int| 0u8));
            } else {
                let i = choose|i: int| 0 <= i < 32 && bytes[i] != 0;
                assert(bytes[i] != Seq::new(32, |i: int| 0u8)[i]);
            }
        },
        None => {},
    }
}

/// Strict confirmation is fast confirmation in which the record's two roots are the same text.
pub proof fn strict_iff_the_roots_agree(facts: SlotFacts, head: HeadReport)
    requires
        facts.slot < u64::MAX,
    ensures
        ({
            let record = slot_record(facts, head);
            record.strict_one_slot_confirmed <==> record.fast_confirmed && record.block_root
                == Some(record.confirmed_root)
        }),
{
    match facts.block_root {
        Some(root) => {
            written_root_reads_back(root@);
            written_root_reads_back(confirmed_root(head));
        },
        None => {},
    }
}

/// What is known of the slot and of the head goes into the record: roots so that they can be
/// read from it, and numbers as they are.
pub proof fn what_is_known_is_reported(facts: SlotFacts, head: HeadReport)
    ensures
        ({
            let record = slot_record(facts, head);
            &&& record.slot == facts.slot
            &&& record.source_block_slot == facts.source_block_slot
            &&& record.num_attestations_injected == facts.num_attestations_injected
            &&& record.fcr_eval_duration_us == facts.fcr_eval_duration_us
            &&& record.finalized_epoch == head.finalized_epoch
            &&& record.justified_epoch == head.justified_epoch
            &&& root_parsed(record.head_root) == Ok::<Seq<u8>, RootError>(head.head_root@)
            &&& record.has_block <==> facts.block_root is Some
            &&& match (record.block_root, facts.block_root) {
                (Some(text), Some(root)) => root_parsed(text) == Ok::<Seq<u8>, RootError>(root@),
                (None, None) => true,
                _ => false,
            }
        }),
{
    written_root_reads_back(head.head_root@);
    if facts.block_root is Some {
        written_root_reads_back(facts.block_root->0@);
    }
}

/// Two slots that differ in nothing but one fact have records that differ in that fact alone.
pub proof fn one_fact_changes_one_field(
    facts: SlotFacts,
    head: HeadReport,
    injected: u64,
    duration: u64,
    source: Option<Slot>,
)
    ensures
        slot_record(SlotFacts { num_attestations_injected: injected, ..facts }, head) == (
        SlotRecord { num_attestations_injected: injected, ..slot_record(facts, head) }),
        slot_record(SlotFacts { fcr_eval_duration_us: duration, ..facts }, head) == (SlotRecord {
            fcr_eval_duration_us: duration,
            ..slot_record(facts, head)
        }),
        slot_record(SlotFacts { source_block_slot: source, ..facts }, head) == (SlotRecord {
            source_block_slot: source,
            ..slot_record(facts, head)
        }),
{
}

/// A time that fits is reported as it is, a longer one as a time no shorter than any that fits.
pub proof fn times_are_reported_as_they_are(elapsed_micros: u128)
    ensures
        elapsed_micros <= u64::MAX ==> reported_micros(elapsed_micros) == elapsed_micros,
        forall|other: u128|
            other <= elapsed_micros ==> #[trigger] reported_micros(other) <= reported_micros(
                elapsed_micros,
            ),
        reported_micros(elapsed_micros) <= elapsed_micros,
{
}

} // verus!
