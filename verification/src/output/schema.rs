//! What is reported of a slot.
use vstd::prelude::*;

verus! {

/// What is reported of a slot.
#[derive(Debug)]
pub struct SlotResult {
    pub slot: u64,
    pub epoch: u64,
    pub has_block: bool,
    pub block_root: Option<String>,
    /// The head of the chain after the slot.
    pub head_root: String,
    /// The block that the fast confirmation rule has confirmed.
    pub confirmed_root: String,
    pub confirmed_slot: u64,
    /// How many slots the evaluation lies behind the confirmed block.
    pub confirmation_delay_slots: u64,
    /// The confirmed block is of this slot.
    pub fast_confirmed: bool,
    /// The confirmed block is this slot's canonical block, confirmed one slot later.
    pub strict_one_slot_confirmed: bool,
    pub finalized_epoch: u64,
    pub justified_epoch: u64,
    pub source_block_slot: Option<u64>,
    pub num_attestations_injected: u64,
    pub is_epoch_boundary: bool,
    pub is_missed_slot: bool,
    pub fcr_eval_duration_us: u64,
}

/// A `SlotResult` with texts as character sequences.
#[verifier::ext_equal]
pub struct SlotRecord {
    pub slot: u64,
    pub epoch: u64,
    pub has_block: bool,
    pub block_root: Option<Seq<char>>,
    pub head_root: Seq<char>,
    pub confirmed_root: Seq<char>,
    pub confirmed_slot: u64,
    pub confirmation_delay_slots: u64,
    pub fast_confirmed: bool,
    pub strict_one_slot_confirmed: bool,
    pub finalized_epoch: u64,
    pub justified_epoch: u64,
    pub source_block_slot: Option<u64>,
    pub num_attestations_injected: u64,
    pub is_epoch_boundary: bool,
    pub is_missed_slot: bool,
    pub fcr_eval_duration_us: u64,
}

impl View for SlotResult {
    type V = SlotRecord;

    open spec fn view(&self) -> SlotRecord {
        SlotRecord {
            slot: self.slot,
            epoch: self.epoch,
            has_block: self.has_block,
            block_root: match self.block_root {
                Some(text) => Some(text@),
                None => None,
            },
            head_root: self.head_root@,
            confirmed_root: self.confirmed_root@,
            confirmed_slot: self.confirmed_slot,
            confirmation_delay_slots: self.confirmation_delay_slots,
            fast_confirmed: self.fast_confirmed,
            strict_one_slot_confirmed: self.strict_one_slot_confirmed,
            finalized_epoch: self.finalized_epoch,
            justified_epoch: self.justified_epoch,
            source_block_slot: self.source_block_slot,
            num_attestations_injected: self.num_attestations_injected,
            is_epoch_boundary: self.is_epoch_boundary,
            is_missed_slot: self.is_missed_slot,
            fcr_eval_duration_us: self.fcr_eval_duration_us,
        }
    }
}

/// A record says what the result says, field by field.
pub proof fn a_record_says_what_the_result_says(result: SlotResult)
    ensures
        result@.slot == result.slot,
        result@.epoch == result.epoch,
        result@.has_block == result.has_block,
        result@.block_root is Some <==> result.block_root is Some,
        result.block_root is Some ==> result@.block_root->0 == result.block_root->0@,
        result@.head_root == result.head_root@,
        result@.confirmed_root == result.confirmed_root@,
        result@.confirmed_slot == result.confirmed_slot,
        result@.confirmation_delay_slots == result.confirmation_delay_slots,
        result@.fast_confirmed == result.fast_confirmed,
        result@.strict_one_slot_confirmed == result.strict_one_slot_confirmed,
        result@.finalized_epoch == result.finalized_epoch,
        result@.justified_epoch == result.justified_epoch,
        result@.source_block_slot == result.source_block_slot,
        result@.num_attestations_injected == result.num_attestations_injected,
        result@.is_epoch_boundary == result.is_epoch_boundary,
        result@.is_missed_slot == result.is_missed_slot,
        result@.fcr_eval_duration_us == result.fcr_eval_duration_us,
{
}

} // verus!
