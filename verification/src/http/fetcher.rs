//! Requests for beacon states and blocks, and what replies to them mean.
use vstd::prelude::*;
use vstd::string::StringExecFns;

use crate::hash256::b256_debug;
use crate::hash256::root_text;
use crate::hash256::written_root_reads_back;
use crate::hash256::Hash256;
use crate::http::base_url;
use crate::http::is_success;
use crate::http::read_success_body;
use crate::http::without_trailing_slashes;
use crate::http::BodyUse;
use crate::text::between;
use crate::text::decimal;
use crate::text::decimal_tells_numbers_apart;
use crate::text::ends_with;
use crate::text::is_digit;
use crate::text::lemma_padded_value;
use crate::text::lemma_three_parts;
use crate::text::padded_decimal;
use crate::text::push_decimal;
use crate::text::starts_with;
use crate::types::Slot;

verus! {

/// The status of a reply that says that there is no such thing.
pub const NOT_FOUND: u16 = 404;

/// A request for a state or a block in its SSZ form.
#[derive(Debug)]
pub struct Request {
    pub url: String,
    /// Whether the thing that is asked for need not exist.
    pub may_be_absent: bool,
}

/// A block that must exist was not found.
#[derive(Clone, Copy, Debug)]
pub struct BlockNotFound {
    pub root: Hash256,
}

/// The address of the state at a slot.
pub open spec fn state_url_text(base: Seq<char>, slot: Slot) -> Seq<char> {
    base + "/eth/v2/debug/beacon/states/"@ + decimal(slot as nat)
}

/// The address of the genesis state.
pub open spec fn genesis_url_text(base: Seq<char>) -> Seq<char> {
    base + "/eth/v2/debug/beacon/states/genesis"@
}

/// The address of the block with a root.
pub open spec fn block_by_root_url_text(base: Seq<char>, root: Seq<u8>) -> Seq<char> {
    base + "/eth/v2/beacon/blocks/"@ + root_text(root)
}

/// The address of the block at a slot.
pub open spec fn block_at_slot_url_text(base: Seq<char>, slot: Slot) -> Seq<char> {
    base + "/eth/v2/beacon/blocks/"@ + decimal(slot as nat)
}

/// Asks a beacon node for states and blocks.
#[derive(Debug)]
pub struct BeaconFetcher {
    base_url: String,
}

impl View for BeaconFetcher {
    type V = Seq<char>;

    closed spec fn view(&self) -> Seq<char> {
        self.base_url@
    }
}

impl BeaconFetcher {
    pub fn new(beacon_node_url: &str) -> (res: BeaconFetcher)
        ensures
            res@ == without_trailing_slashes(beacon_node_url@),
    {
        BeaconFetcher { base_url: base_url(beacon_node_url) }
    }

    /// The request for the state that a run starts from.
    pub fn fetch_checkpoint_state(&self, slot: Slot) -> (res: Request)
        ensures
            res.url@ == state_url_text(self@, slot),
            !res.may_be_absent,
    {
        let mut url = self.base_url.clone();
        url.append("/eth/v2/debug/beacon/states/");
        push_decimal(&mut url, slot);
        Request { url, may_be_absent: false }
    }

    /// The request for the genesis state.
    pub fn fetch_genesis_state(&self) -> (res: Request)
        ensures
            res.url@ == genesis_url_text(self@),
            !res.may_be_absent,
    {
        let mut url = self.base_url.clone();
        url.append("/eth/v2/debug/beacon/states/genesis");
        Request { url, may_be_absent: false }
    }

    /// The request for the block with a root, which need not exist.
    pub fn fetch_block_by_root_optional(&self, root: &Hash256) -> (res: Request)
        ensures
            res.url@ == block_by_root_url_text(self@, root@),
            res.may_be_absent,
    {
        let mut url = self.base_url.clone();
        url.append("/eth/v2/beacon/blocks/");
        url.append(b256_debug(root).as_str());
        Request { url, may_be_absent: true }
    }

    /// The block with a root, where it must exist, given what was found.
    pub fn fetch_block_by_root<B>(&self, root: Hash256, block: Option<B>) -> (res: Result<
        B,
        BlockNotFound,
    >)
        ensures
            match block {
                Some(b) => res == Ok::<B, BlockNotFound>(b),
                None => res == Err::<B, BlockNotFound>(BlockNotFound { root }),
            },
    {
        match block {
            Some(b) => Ok(b),
            None => Err(BlockNotFound { root }),
        }
    }

    /// The request for the block at a slot, which need not exist.
    pub fn fetch_block_at_slot(&self, slot: Slot) -> (res: Request)
        ensures
            res.url@ == block_at_slot_url_text(self@, slot),
            res.may_be_absent,
    {
        let mut url = self.base_url.clone();
        url.append("/eth/v2/beacon/blocks/");
        push_decimal(&mut url, slot);
        Request { url, may_be_absent: true }
    }
}

/// What the status of a reply means to a request.
pub open spec fn reply_meaning(may_be_absent: bool, status: u16) -> BodyUse {
    if may_be_absent && status == NOT_FOUND {
        BodyUse::Absent
    } else if is_success(status) {
        BodyUse::Read
    } else {
        BodyUse::Refuse
    }
}

/// What the status of a reply means to a request.
pub fn read_reply(request: &Request, status: u16) -> (res: BodyUse)
    ensures
        res == reply_meaning(request.may_be_absent, status),
{
    if request.may_be_absent && status == NOT_FOUND {
        BodyUse::Absent
    } else {
        read_success_body(status)
    }
}

/// Only a success hands over a body, and a thing is absent only where it may be and the reply
/// says that it was not found.
pub proof fn only_success_is_read(may_be_absent: bool, status: u16)
    ensures
        reply_meaning(may_be_absent, status) == BodyUse::Read <==> is_success(status),
        reply_meaning(may_be_absent, status) == BodyUse::Absent <==> may_be_absent && status == 404,
{
}

/// The addresses of states start with the base address and end with the slot, and what is between
/// the two is the same for all of them. So two slots have two addresses, and none is that of the
/// genesis state.
pub proof fn addresses_of_states_name_the_slot(
    base: Seq<char>,
    slot: Slot,
    other_base: Seq<char>,
    other: Slot,
)
    ensures
        ({
            let url = state_url_text(base, slot);
            let other_url = state_url_text(other_base, other);
            &&& starts_with(url, base)
            &&& ends_with(url, decimal(slot as nat))
            &&& between(url, base, decimal(slot as nat)) == between(
                other_url,
                other_base,
                decimal(other as nat),
            )
            &&& state_url_text(base, other) == url ==> other == slot
            &&& url != genesis_url_text(base)
            &&& starts_with(genesis_url_text(base), base)
        }),
{
    let path = "/eth/v2/debug/beacon/states/"@;
    let url = state_url_text(base, slot);
    lemma_three_parts(base, path, decimal(slot as nat));
    lemma_three_parts(other_base, path, decimal(other as nat));
    lemma_three_parts(base, path, decimal(other as nat));
    if state_url_text(base, other) == url {
        let n = (base.len() + path.len()) as int;
        assert(url.skip(n) =~= decimal(slot as nat));
        assert(state_url_text(base, other).skip(n) =~= decimal(other as nat));
        decimal_tells_numbers_apart(slot as nat, other as nat);
    }
    let genesis = genesis_url_text(base);
    assert(genesis.take(base.len() as int) =~= base);
    lemma_padded_value(slot as nat, 0);
    assert(is_digit(decimal(slot as nat).last())) by {
        assert(padded_decimal(slot as nat, 0) == decimal(slot as nat));
    }
    reveal_strlit("/eth/v2/debug/beacon/states/genesis");
    assert(url.last() == decimal(slot as nat).last());
    assert(genesis.last() == 's');
}

/// The addresses of blocks start with the base address and end with the slot or with the root, as
/// it is written, and what is between the two is the same for all of them. So two slots have two
/// addresses, and so have two roots.
pub proof fn addresses_of_blocks_name_the_block(
    base: Seq<char>,
    slot: Slot,
    root: Seq<u8>,
    other_base: Seq<char>,
    other: Slot,
    other_root: Seq<u8>,
)
    requires
        root.len() == 32,
        other_root.len() == 32,
    ensures
        ({
            let at_slot = block_at_slot_url_text(base, slot);
            let by_root = block_by_root_url_text(base, root);
            &&& starts_with(at_slot, base)
            &&& starts_with(by_root, base)
            &&& ends_with(at_slot, decimal(slot as nat))
            &&& ends_with(by_root, root_text(root))
            &&& between(at_slot, base, decimal(slot as nat)) == between(
                block_at_slot_url_text(other_base, other),
                other_base,
                decimal(other as nat),
            )
            &&& between(by_root, base, root_text(root)) == between(
                block_by_root_url_text(other_base, other_root),
                other_base,
                root_text(other_root),
            )
            &&& between(by_root, base, root_text(root)) == between(
                at_slot,
                base,
                decimal(slot as nat),
            )
            &&& block_at_slot_url_text(base, other) == at_slot ==> other == slot
            &&& block_by_root_url_text(base, other_root) == by_root ==> other_root == root
        }),
{
    let path = "/eth/v2/beacon/blocks/"@;
    let n = (base.len() + path.len()) as int;
    lemma_three_parts(base, path, decimal(slot as nat));
    lemma_three_parts(base, path, root_text(root));
    lemma_three_parts(other_base, path, decimal(other as nat));
    lemma_three_parts(other_base, path, root_text(other_root));
    let at_slot = block_at_slot_url_text(base, slot);
    if block_at_slot_url_text(base, other) == at_slot {
        assert(at_slot.skip(n) =~= decimal(slot as nat));
        assert(block_at_slot_url_text(base, other).skip(n) =~= decimal(other as nat));
        decimal_tells_numbers_apart(slot as nat, other as nat);
    }
    let by_root = block_by_root_url_text(base, root);
    if block_by_root_url_text(base, other_root) == by_root {
        assert(by_root.skip(n) =~= root_text(root));
        assert(block_by_root_url_text(base, other_root).skip(n) =~= root_text(other_root));
        written_root_reads_back(root);
        written_root_reads_back(other_root);
    }
}

} // verus!
