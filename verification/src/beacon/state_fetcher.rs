//! Which file keeps a state or a block, where it is had from, and when it is stored.
use vstd::prelude::*;
use vstd::string::StringExecFns;

use crate::hash256::b256_debug;
use crate::hash256::root_text;
use crate::hash256::written_root_reads_back;
use crate::hash256::Hash256;
use crate::http::base_url;
use crate::http::fetcher::block_by_root_url_text;
use crate::http::fetcher::genesis_url_text;
use crate::http::fetcher::state_url_text;
use crate::http::is_success;
use crate::http::read_success_body;
use crate::http::without_trailing_slashes;
use crate::http::BodyUse;
use crate::text::decimal;
use crate::text::decimal_tells_numbers_apart;
use crate::text::is_digit;
use crate::text::lemma_padded_value;
use crate::text::padded_decimal;
use crate::text::push_decimal;
use crate::types::Slot;

verus! {

/// A state or a block that is kept: its file, the directory of that file below the cache
/// directory, the address that it is had from, and what it is called in messages.
#[derive(Debug)]
pub struct KeptFile {
    pub directory: String,
    pub filename: String,
    pub url: String,
    pub label: String,
}

/// The name of the file that keeps the state at a slot.
pub open spec fn state_file_name(slot: Slot) -> Seq<char> {
    "state-"@ + decimal(slot as nat) + ".ssz"@
}

/// The name of the file that keeps the genesis state.
pub open spec fn genesis_file_name() -> Seq<char> {
    "state-genesis.ssz"@
}

/// The name of the file that keeps the block with a root.
pub open spec fn block_file_name(root: Seq<u8>) -> Seq<char> {
    "block-"@ + root_text(root) + ".ssz"@
}

/// The state at a slot.
pub fn fetch_beacon_state(beacon_node_url: &str, slot: Slot) -> (res: KeptFile)
    ensures
        res.directory@ == "states"@,
        res.filename@ == state_file_name(slot),
        res.url@ == state_url_text(without_trailing_slashes(beacon_node_url@), slot),
        res.label@ == "beacon state at slot "@ + decimal(slot as nat),
{
    let mut filename = "state-".to_owned();
    push_decimal(&mut filename, slot);
    filename.append(".ssz");
    let mut url = base_url(beacon_node_url);
    url.append("/eth/v2/debug/beacon/states/");
    push_decimal(&mut url, slot);
    let mut label = "beacon state at slot ".to_owned();
    push_decimal(&mut label, slot);
    KeptFile { directory: "states".to_owned(), filename, url, label }
}

/// The genesis state.
pub fn fetch_genesis_state(beacon_node_url: &str) -> (res: KeptFile)
    ensures
        res.directory@ == "states"@,
        res.filename@ == genesis_file_name(),
        res.url@ == genesis_url_text(without_trailing_slashes(beacon_node_url@)),
        res.label@ == "genesis beacon state"@,
{
    let mut url = base_url(beacon_node_url);
    url.append("/eth/v2/debug/beacon/states/genesis");
    KeptFile {
        directory: "states".to_owned(),
        filename: "state-genesis.ssz".to_owned(),
        url,
        label: "genesis beacon state".to_owned(),
    }
}

/// The block with a root.
pub fn fetch_beacon_block_by_root(beacon_node_url: &str, block_root: &Hash256) -> (res: KeptFile)
    ensures
        res.directory@ == "blocks"@,
        res.filename@ == block_file_name(block_root@),
        res.url@ == block_by_root_url_text(without_trailing_slashes(beacon_node_url@), block_root@),
        res.label@ == "beacon block at root "@ + root_text(block_root@),
{
    let root = b256_debug(block_root);
    let mut filename = "block-".to_owned();
    filename.append(root.as_str());
    filename.append(".ssz");
    let mut url = base_url(beacon_node_url);
    url.append("/eth/v2/beacon/blocks/");
    url.append(root.as_str());
    let mut label = "beacon block at root ".to_owned();
    label.append(root.as_str());
    KeptFile { directory: "blocks".to_owned(), filename, url, label }
}

/// How far it is to have a kept file's bytes.
#[derive(Debug)]
pub enum CacheState {
    /// It is looked whether the file exists.
    Looking,
    /// The file is read.
    Reading,
    /// A request was sent to its address.
    Fetching,
    /// The body of the reply is read.
    TakingBody,
    /// The body is stored.
    Storing { body: Vec<u8> },
    /// Nothing is left to do.
    Over,
}

/// What is done next to have a kept file's bytes.
#[derive(Debug)]
pub enum CacheAction {
    /// Read the file.
    Read,
    /// Send a request to its address.
    Fetch,
    /// Read the body of the reply.
    TakeBody,
    /// Store the body under another name in the file's directory, which is created if need be,
    /// and rename it.
    StoreByRename,
    /// Store the body as the file.
    StoreDirectly,
    /// These are the bytes.
    Answer { bytes: Vec<u8> },
    /// Give up: the reply has this status, which is no success.
    Refused { status: u16 },
    /// Give up: something could not be done.
    Fail,
}

/// What came of an action.
#[derive(Debug)]
pub enum CacheEvent {
    /// It was looked whether the file exists.
    Looked { exists: bool },
    /// The file was read.
    FileRead { bytes: Vec<u8> },
    /// The request was answered.
    Replied { status: u16 },
    /// The body was read. The file's path may have no directory in it.
    Body { bytes: Vec<u8>, has_directory: bool },
    /// The body was stored.
    Stored,
    /// It could not be done.
    Failed,
}

/// A `CacheState` with its bytes as a sequence.
pub enum Keeping {
    Looking,
    Reading,
    Fetching,
    TakingBody,
    Storing { body: Seq<u8> },
    Over,
}

/// A `CacheAction` with its bytes as a sequence.
pub enum KeepAsk {
    Read,
    Fetch,
    TakeBody,
    StoreByRename,
    StoreDirectly,
    Answer { bytes: Seq<u8> },
    Refused { status: u16 },
    Fail,
}

/// A `CacheEvent` with its bytes as a sequence.
pub enum KeepEvent {
    Looked { exists: bool },
    FileRead { bytes: Seq<u8> },
    Replied { status: u16 },
    Body { bytes: Seq<u8>, has_directory: bool },
    Stored,
    Failed,
}

impl View for CacheState {
    type V = Keeping;

    open spec fn view(&self) -> Keeping {
        match self {
            CacheState::Looking => Keeping::Looking,
            CacheState::Reading => Keeping::Reading,
            CacheState::Fetching => Keeping::Fetching,
            CacheState::TakingBody => Keeping::TakingBody,
            CacheState::Storing { body } => Keeping::Storing { body: body@ },
            CacheState::Over => Keeping::Over,
        }
    }
}

impl View for CacheAction {
    type V = KeepAsk;

    open spec fn view(&self) -> KeepAsk {
        match self {
            CacheAction::Read => KeepAsk::Read,
            CacheAction::Fetch => KeepAsk::Fetch,
            CacheAction::TakeBody => KeepAsk::TakeBody,
            CacheAction::StoreByRename => KeepAsk::StoreByRename,
            CacheAction::StoreDirectly => KeepAsk::StoreDirectly,
            CacheAction::Answer { bytes } => KeepAsk::Answer { bytes: bytes@ },
            CacheAction::Refused { status } => KeepAsk::Refused { status: *status },
            CacheAction::Fail => KeepAsk::Fail,
        }
    }
}

impl View for CacheEvent {
    type V = KeepEvent;

    open spec fn view(&self) -> KeepEvent {
        match self {
            CacheEvent::Looked { exists } => KeepEvent::Looked { exists: *exists },
            CacheEvent::FileRead { bytes } => KeepEvent::FileRead { bytes: bytes@ },
            CacheEvent::Replied { status } => KeepEvent::Replied { status: *status },
            CacheEvent::Body { bytes, has_directory } => KeepEvent::Body {
                bytes: bytes@,
                has_directory: *has_directory,
            },
            CacheEvent::Stored => KeepEvent::Stored,
            CacheEvent::Failed => KeepEvent::Failed,
        }
    }
}

/// What follows an event: the state after it, and what is done next.
pub open spec fn action_after(state: Keeping, event: KeepEvent) -> (Keeping, KeepAsk) {
    match (state, event) {
        (Keeping::Looking, KeepEvent::Looked { exists }) => if exists {
            (Keeping::Reading, KeepAsk::Read)
        } else {
            (Keeping::Fetching, KeepAsk::Fetch)
        },
        (Keeping::Reading, KeepEvent::FileRead { bytes }) => (
            Keeping::Over,
            KeepAsk::Answer { bytes },
        ),
        (Keeping::Fetching, KeepEvent::Replied { status }) => if is_success(status) {
            (Keeping::TakingBody, KeepAsk::TakeBody)
        } else {
            (Keeping::Over, KeepAsk::Refused { status })
        },
        (Keeping::TakingBody, KeepEvent::Body { bytes, has_directory }) => (
            Keeping::Storing { body: bytes },
            if has_directory {
                KeepAsk::StoreByRename
            } else {
                KeepAsk::StoreDirectly
            },
        ),
        (Keeping::Storing { body }, KeepEvent::Stored) => (
            Keeping::Over,
            KeepAsk::Answer { bytes: body },
        ),
        _ => (Keeping::Over, KeepAsk::Fail),
    }
}

/// Takes what came of the last action, and says what is done next to have a kept file's bytes.
/// The first state is `Looking`.
pub fn cached_or_fetch(state: CacheState, event: CacheEvent) -> (res: (CacheState, CacheAction))
    ensures
        (res.0@, res.1@) == action_after(state@, event@),
{
    match (state, event) {
        (CacheState::Looking, CacheEvent::Looked { exists }) => if exists {
            (CacheState::Reading, CacheAction::Read)
        } else {
            (CacheState::Fetching, CacheAction::Fetch)
        },
        (CacheState::Reading, CacheEvent::FileRead { bytes }) => (
            CacheState::Over,
            CacheAction::Answer { bytes },
        ),
        (CacheState::Fetching, CacheEvent::Replied { status }) => {
            match read_success_body(status) {
                BodyUse::Read => (CacheState::TakingBody, CacheAction::TakeBody),
                _ => (CacheState::Over, CacheAction::Refused { status }),
            }
        },
        (CacheState::TakingBody, CacheEvent::Body { bytes, has_directory }) => {
            let action = if has_directory {
                CacheAction::StoreByRename
            } else {
                CacheAction::StoreDirectly
            };
            (CacheState::Storing { body: bytes }, action)
        },
        (CacheState::Storing { body }, CacheEvent::Stored) => (
            CacheState::Over,
            CacheAction::Answer { bytes: body },
        ),
        _ => (CacheState::Over, CacheAction::Fail),
    }
}

/// What a kept file holds, if it exists, and how many requests were sent to its address.
pub struct KeptPlace {
    pub file: Option<Seq<u8>>,
    pub requests: nat,
}

/// How the things turn out that are done for a kept file.
pub struct Surroundings {
    /// Whether the file can be read, where it exists.
    pub readable: bool,
    /// The status of the reply to a request, if there is one.
    pub reply: Option<u16>,
    /// The body of the reply, if it can be read.
    pub body: Option<Seq<u8>>,
    /// Whether the file's path has a directory in it.
    pub has_directory: bool,
    /// Whether the body can be stored.
    pub storable: bool,
    /// What is left where the body could not be stored as the file.
    pub left_behind: Option<Seq<u8>>,
}

impl Surroundings {
    /// What fetching gives.
    pub open spec fn fetched(self) -> Option<Seq<u8>> {
        if self.reply is Some && is_success(self.reply->0) {
            self.body
        } else {
            None
        }
    }
}

/// What an action does, and what comes of it. A body that is stored under another name becomes
/// the file only by the renaming, so that nothing is left of it where that fails.
pub open spec fn performed(
    state: Keeping,
    ask: KeepAsk,
    place: KeptPlace,
    around: Surroundings,
) -> (KeptPlace, KeepEvent) {
    match ask {
        KeepAsk::Read => (
            place,
            if around.readable && place.file is Some {
                KeepEvent::FileRead { bytes: place.file->0 }
            } else {
                KeepEvent::Failed
            },
        ),
        KeepAsk::Fetch => (
            KeptPlace { requests: place.requests + 1, ..place },
            match around.reply {
                Some(status) => KeepEvent::Replied { status },
                None => KeepEvent::Failed,
            },
        ),
        KeepAsk::TakeBody => (
            place,
            match around.body {
                Some(bytes) => KeepEvent::Body { bytes, has_directory: around.has_directory },
                None => KeepEvent::Failed,
            },
        ),
        KeepAsk::StoreByRename => if around.storable && state is Storing {
            (KeptPlace { file: Some(state->body), ..place }, KeepEvent::Stored)
        } else {
            (place, KeepEvent::Failed)
        },
        KeepAsk::StoreDirectly => if around.storable && state is Storing {
            (KeptPlace { file: Some(state->body), ..place }, KeepEvent::Stored)
        } else {
            (KeptPlace { file: around.left_behind, ..place }, KeepEvent::Failed)
        },
        _ => (place, KeepEvent::Failed),
    }
}

/// How many steps are left, at most.
pub open spec fn steps_left(state: Keeping) -> nat {
    match state {
        Keeping::Looking => 4,
        Keeping::Fetching => 3,
        Keeping::TakingBody => 2,
        Keeping::Reading => 1,
        Keeping::Storing { .. } => 1,
        Keeping::Over => 0,
    }
}

/// What is left in the end, and the bytes that are the answer, if there is one.
pub open spec fn goes_on(
    state: Keeping,
    ask: KeepAsk,
    place: KeptPlace,
    around: Surroundings,
) -> (KeptPlace, Option<Seq<u8>>)
    decreases steps_left(state),
{
    if state is Over {
        match ask {
            KeepAsk::Answer { bytes } => (place, Some(bytes)),
            _ => (place, None),
        }
    } else {
        let (after, event) = performed(state, ask, place, around);
        let (next, asked) = action_after(state, event);
        goes_on(next, asked, after, around)
    }
}

/// What is left of a call for a kept file's bytes, and the bytes, if it has them.
pub open spec fn kept_bytes(place: KeptPlace, around: Surroundings) -> (
    KeptPlace,
    Option<Seq<u8>>,
) {
    let (state, ask) = action_after(
        Keeping::Looking,
        KeepEvent::Looked { exists: place.file is Some },
    );
    goes_on(state, ask, place, around)
}

/// A file that exists is the answer: no request is sent, and the file stays as it is, also where
/// it cannot be read.
pub proof fn an_existing_file_is_the_answer(place: KeptPlace, around: Surroundings)
    requires
        place.file is Some,
    ensures
        kept_bytes(place, around) == (
            place,
            if around.readable {
                place.file
            } else {
                None
            },
        ),
{
    reveal_with_fuel(goes_on, 2);
}

/// Where there is no file one request is sent. If fetching fails, so does the call, and there is
/// still no file. Else the call succeeds just where the body is stored: then the body is the
/// answer, and the file holds it. A body that could not be put in place by renaming leaves no
/// file.
pub proof fn a_fetched_body_is_stored(place: KeptPlace, around: Surroundings)
    requires
        place.file is None,
    ensures
        ({
            let (after, answer) = kept_bytes(place, around);
            &&& after.requests == place.requests + 1
            &&& around.fetched() is None ==> answer is None && after.file is None
            &&& around.fetched() matches Some(body) ==> {
                &&& answer is Some <==> around.storable
                &&& answer is Some ==> answer == Some(body) && after.file == Some(body)
                &&& answer is None && around.has_directory ==> after.file is None
            }
        }),
{
    reveal_with_fuel(goes_on, 4);
}

/// What a call has answered, the next call answers too, without a request, as long as the file
/// can be read.
pub proof fn what_was_answered_is_kept(place: KeptPlace, around: Surroundings, later: Surroundings)
    requires
        kept_bytes(place, around).1 is Some,
        later.readable,
    ensures
        ({
            let (after, answer) = kept_bytes(place, around);
            kept_bytes(after, later) == (after, answer)
        }),
{
    if place.file is Some {
        an_existing_file_is_the_answer(place, around);
    } else {
        a_fetched_body_is_stored(place, around);
    }
    let after = kept_bytes(place, around).0;
    an_existing_file_is_the_answer(after, later);
}

/// No two states are kept in one file, and no two blocks: the slot or the root can be told from the
/// file's name, and the genesis state has a file of its own.
pub proof fn nothing_is_kept_in_the_file_of_another(
    slot: Slot,
    other: Slot,
    root: Seq<u8>,
    other_root: Seq<u8>,
)
    requires
        root.len() == 32,
        other_root.len() == 32,
    ensures
        state_file_name(slot) == state_file_name(other) ==> slot == other,
        state_file_name(slot) != genesis_file_name(),
        block_file_name(root) == block_file_name(other_root) ==> root == other_root,
        state_file_name(slot).subrange(6, state_file_name(slot).len() - 4) == decimal(slot as nat),
        block_file_name(root).subrange(6, block_file_name(root).len() - 4) == root_text(root),
{
    reveal_strlit("state-");
    reveal_strlit("block-");
    reveal_strlit(".ssz");
    reveal_strlit("state-genesis.ssz");
    let name = state_file_name(slot);
    let other_name = state_file_name(other);
    assert(name.subrange(6, name.len() - 4) =~= decimal(slot as nat));
    assert(other_name.subrange(6, other_name.len() - 4) =~= decimal(other as nat));
    if name == other_name {
        decimal_tells_numbers_apart(slot as nat, other as nat);
    }
    lemma_padded_value(slot as nat, 0);
    assert(padded_decimal(slot as nat, 0) == decimal(slot as nat));
    assert(is_digit(decimal(slot as nat)[0]));
    assert(name[6] == decimal(slot as nat)[0]);
    assert(genesis_file_name()[6] == 'g');
    let block = block_file_name(root);
    let other_block = block_file_name(other_root);
    assert(block.subrange(6, block.len() - 4) =~= root_text(root));
    assert(other_block.subrange(6, other_block.len() - 4) =~= root_text(other_root));
    written_root_reads_back(root);
    written_root_reads_back(other_root);
}

/// States, actions and events stand for what they say.
pub proof fn keeping_stands_for_what_it_says(
    state: CacheState,
    action: CacheAction,
    event: CacheEvent,
)
    ensures
        match state {
            CacheState::Looking => state@ is Looking,
            CacheState::Reading => state@ is Reading,
            CacheState::Fetching => state@ is Fetching,
            CacheState::TakingBody => state@ is TakingBody,
            CacheState::Storing { body } => state@ == (Keeping::Storing { body: body@ }),
            CacheState::Over => state@ is Over,
        },
        match action {
            CacheAction::Read => action@ is Read,
            CacheAction::Fetch => action@ is Fetch,
            CacheAction::TakeBody => action@ is TakeBody,
            CacheAction::StoreByRename => action@ is StoreByRename,
            CacheAction::StoreDirectly => action@ is StoreDirectly,
            CacheAction::Answer { bytes } => action@ == (KeepAsk::Answer { bytes: bytes@ }),
            CacheAction::Refused { status } => action@ == (KeepAsk::Refused { status }),
            CacheAction::Fail => action@ is Fail,
        },
        match event {
            CacheEvent::Looked { exists } => event@ == (KeepEvent::Looked { exists }),
            CacheEvent::FileRead { bytes } => event@ == (KeepEvent::FileRead { bytes: bytes@ }),
            CacheEvent::Replied { status } => event@ == (KeepEvent::Replied { status }),
            CacheEvent::Body { bytes, has_directory } => event@ == (KeepEvent::Body {
                bytes: bytes@,
                has_directory,
            }),
            CacheEvent::Stored => event@ is Stored,
            CacheEvent::Failed => event@ is Failed,
        },
{
}

/// A refusal names the status of the reply, which is no success, and a body is put in place by
/// renaming just where the file's path has a directory.
pub proof fn refusals_and_stores_follow_the_reply(status: u16, bytes: Seq<u8>, has_directory: bool)
    ensures
        status / 100 != 2 ==> action_after(Keeping::Fetching, KeepEvent::Replied { status }).1 == (
        KeepAsk::Refused { status }),
        status / 100 == 2 ==> action_after(
            Keeping::Fetching,
            KeepEvent::Replied { status },
        ).1 is TakeBody,
        has_directory <==> action_after(
            Keeping::TakingBody,
            KeepEvent::Body { bytes, has_directory },
        ).1 is StoreByRename,
        !has_directory <==> action_after(
            Keeping::TakingBody,
            KeepEvent::Body { bytes, has_directory },
        ).1 is StoreDirectly,
{
}

/// What does not answer what is waited for ends the call without an answer, and so does everything
/// once it is over.
pub proof fn what_does_not_answer_ends_the_call(state: Keeping, event: KeepEvent)
    requires
        !(state is Looking && event is Looked),
        !(state is Reading && event is FileRead),
        !(state is Fetching && event is Replied),
        !(state is TakingBody && event is Body),
        !(state is Storing && event is Stored),
    ensures
        action_after(state, event).0 is Over,
        action_after(state, event).1 is Fail,
{
}

} // verus!
