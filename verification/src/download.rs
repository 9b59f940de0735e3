//! Downloading a file, in as many attempts as it may take.
use vstd::prelude::*;

use crate::http::is_success;
use crate::http::read_success_body;
use crate::http::BodyUse;
use crate::retry::after_attempt;
use crate::retry::ends;
use crate::retry::first_success_ends_a_download;
use crate::retry::step_after;
use crate::retry::RetryStep;

verus! {

/// How far an attempt is.
#[derive(Clone, Copy, Debug, PartialEq, Eq, Structural)]
pub enum Phase {
    /// It is about to be made.
    Ready,
    /// The request was sent.
    Requesting,
    /// The body of the reply is read.
    TakingBody,
    /// The body is stored.
    Storing,
    /// It was the last one.
    Over,
}

/// What is done next to download a file.
#[derive(Debug)]
pub enum DownloadAction {
    /// Send a request to this address.
    Request { url: String },
    /// Read the body of the reply.
    TakeBody,
    /// Store this body as the file.
    Store { body: Vec<u8> },
    /// Wait this many seconds.
    Wait { secs: u64 },
    /// The file is there.
    Finish,
    /// All attempts were made, and none worked.
    GiveUp { attempts: u32 },
    /// The download was over already.
    Nothing,
}

/// What came of an action.
#[derive(Debug)]
pub enum DownloadEvent {
    /// The request was answered.
    Replied { status: u16 },
    /// The body was read.
    Body { bytes: Vec<u8> },
    /// It was done.
    Done,
    /// It could not be done.
    Failed,
}

/// The download of a file.
#[derive(Debug)]
pub struct Download {
    pub url: String,
    pub max_retries: u32,
    /// The number of the attempt, the first one being number one.
    pub attempt: u32,
    pub phase: Phase,
}

/// A `Download` with its address as a sequence.
pub struct DownloadState {
    pub url: Seq<char>,
    pub max_retries: u32,
    pub attempt: u32,
    pub phase: Phase,
}

/// A `DownloadAction` with its address and its bytes as sequences.
pub enum DownloadAsk {
    Request { url: Seq<char> },
    TakeBody,
    Store { body: Seq<u8> },
    Wait { secs: u64 },
    Finish,
    GiveUp { attempts: u32 },
    Nothing,
}

/// A `DownloadEvent` with its bytes as a sequence.
pub enum DownloadReply {
    Replied { status: u16 },
    Body { bytes: Seq<u8> },
    Done,
    Failed,
}

impl View for Download {
    type V = DownloadState;

    open spec fn view(&self) -> DownloadState {
        DownloadState {
            url: self.url@,
            max_retries: self.max_retries,
            attempt: self.attempt,
            phase: self.phase,
        }
    }
}

impl View for DownloadAction {
    type V = DownloadAsk;

    open spec fn view(&self) -> DownloadAsk {
        match self {
            DownloadAction::Request { url } => DownloadAsk::Request { url: url@ },
            DownloadAction::TakeBody => DownloadAsk::TakeBody,
            DownloadAction::Store { body } => DownloadAsk::Store { body: body@ },
            DownloadAction::Wait { secs } => DownloadAsk::Wait { secs: *secs },
            DownloadAction::Finish => DownloadAsk::Finish,
            DownloadAction::GiveUp { attempts } => DownloadAsk::GiveUp { attempts: *attempts },
            DownloadAction::Nothing => DownloadAsk::Nothing,
        }
    }
}

impl View for DownloadEvent {
    type V = DownloadReply;

    open spec fn view(&self) -> DownloadReply {
        match self {
            DownloadEvent::Replied { status } => DownloadReply::Replied { status: *status },
            DownloadEvent::Body { bytes } => DownloadReply::Body { bytes: bytes@ },
            DownloadEvent::Done => DownloadReply::Done,
            DownloadEvent::Failed => DownloadReply::Failed,
        }
    }
}

impl DownloadState {
    /// A download that is about to make an attempt.
    pub open spec fn ready(url: Seq<char>, max_retries: u32, attempt: u32) -> DownloadState {
        DownloadState { url, max_retries, attempt, phase: Phase::Ready }
    }

    /// The attempt is one of those that are made.
    pub open spec fn wf(self) -> bool {
        1 <= self.attempt <= self.max_retries
    }

    /// What follows where the attempt has not worked.
    pub open spec fn after_failure(self) -> (DownloadState, DownloadAsk) {
        match step_after(self.attempt, self.max_retries, false) {
            RetryStep::Wait { secs, attempt } => (
                DownloadState { attempt, phase: Phase::Ready, ..self },
                DownloadAsk::Wait { secs },
            ),
            _ => (
                DownloadState { phase: Phase::Over, ..self },
                DownloadAsk::GiveUp { attempts: self.max_retries },
            ),
        }
    }

    /// What follows an event: the state after it, and what is done next.
    pub open spec fn next(self, event: DownloadReply) -> (DownloadState, DownloadAsk) {
        match (self.phase, event) {
            (Phase::Ready, _) => (
                DownloadState { phase: Phase::Requesting, ..self },
                DownloadAsk::Request { url: self.url },
            ),
            (Phase::Requesting, DownloadReply::Replied { status }) => if is_success(status) {
                (DownloadState { phase: Phase::TakingBody, ..self }, DownloadAsk::TakeBody)
            } else {
                self.after_failure()
            },
            (Phase::TakingBody, DownloadReply::Body { bytes }) => (
                DownloadState { phase: Phase::Storing, ..self },
                DownloadAsk::Store { body: bytes },
            ),
            (Phase::Storing, DownloadReply::Done) => (
                DownloadState { phase: Phase::Over, ..self },
                DownloadAsk::Finish,
            ),
            (Phase::Over, _) => (self, DownloadAsk::Nothing),
            _ => self.after_failure(),
        }
    }
}

impl Download {
    /// A download that is about to make its first attempt.
    pub fn new(url: String, max_retries: u32) -> (res: Download)
        requires
            1 <= max_retries,
        ensures
            res@ == DownloadState::ready(url@, max_retries, 1),
            res@.wf(),
    {
        Download { url, max_retries, attempt: 1, phase: Phase::Ready }
    }

    /// What follows where the attempt has not worked.
    fn fail(&mut self) -> (res: DownloadAction)
        requires
            old(self)@.wf(),
        ensures
            (final(self)@, res@) == old(self)@.after_failure(),
            final(self)@.wf(),
    {
        match after_attempt(self.attempt, self.max_retries, false) {
            RetryStep::Wait { secs, attempt } => {
                self.attempt = attempt;
                self.phase = Phase::Ready;
                DownloadAction::Wait { secs }
            },
            _ => {
                self.phase = Phase::Over;
                DownloadAction::GiveUp { attempts: self.max_retries }
            },
        }
    }

    /// Takes what came of the last action, and says what is done next. The first event is
    /// `Done`.
    pub fn step(&mut self, event: DownloadEvent) -> (res: DownloadAction)
        requires
            old(self)@.wf(),
        ensures
            (final(self)@, res@) == old(self)@.next(event@),
            final(self)@.wf(),
    {
        match (self.phase, event) {
            (Phase::Ready, _) => {
                self.phase = Phase::Requesting;
                DownloadAction::Request { url: self.url.as_str().to_owned() }
            },
            (Phase::Requesting, DownloadEvent::Replied { status }) => {
                match read_success_body(status) {
                    BodyUse::Read => {
                        self.phase = Phase::TakingBody;
                        DownloadAction::TakeBody
                    },
                    _ => self.fail(),
                }
            },
            (Phase::TakingBody, DownloadEvent::Body { bytes }) => {
                self.phase = Phase::Storing;
                DownloadAction::Store { body: bytes }
            },
            (Phase::Storing, DownloadEvent::Done) => {
                self.phase = Phase::Over;
                DownloadAction::Finish
            },
            (Phase::Over, _) => DownloadAction::Nothing,
            _ => self.fail(),
        }
    }
}

/// What a file holds, if it exists, and the addresses that requests were sent to for it, in
/// their order.
#[verifier::ext_equal]
pub struct Place {
    pub file: Option<Seq<u8>>,
    pub requests: Seq<Seq<char>>,
}

/// How the things turn out that are done in an attempt.
pub struct Attempt {
    /// The status of the reply, if there is one.
    pub reply: Option<u16>,
    /// The body of the reply, if it can be read.
    pub body: Option<Seq<u8>>,
    /// Whether the body can be stored.
    pub storable: bool,
    /// What the file holds where the body could not be stored.
    pub left_behind: Option<Seq<u8>>,
}

impl Attempt {
    /// The body that the attempt has from the reply.
    pub open spec fn brings(self) -> Option<Seq<u8>> {
        if self.reply is Some && is_success(self.reply->0) {
            self.body
        } else {
            None
        }
    }

    /// The attempt works.
    pub open spec fn works(self) -> bool {
        self.brings() is Some && self.storable
    }
}

/// Which attempts work.
pub open spec fn working(attempts: spec_fn(u32) -> Attempt) -> spec_fn(u32) -> bool {
    |k: u32| attempts(k).works()
}

/// What an action does, and what comes of it.
pub open spec fn performed(ask: DownloadAsk, place: Place, attempt: Attempt) -> (
    Place,
    DownloadReply,
) {
    match ask {
        DownloadAsk::Request { url } => (
            Place { requests: place.requests.push(url), ..place },
            match attempt.reply {
                Some(status) => DownloadReply::Replied { status },
                None => DownloadReply::Failed,
            },
        ),
        DownloadAsk::TakeBody => (
            place,
            match attempt.body {
                Some(bytes) => DownloadReply::Body { bytes },
                None => DownloadReply::Failed,
            },
        ),
        DownloadAsk::Store { body } => if attempt.storable {
            (Place { file: Some(body), ..place }, DownloadReply::Done)
        } else {
            (Place { file: attempt.left_behind, ..place }, DownloadReply::Failed)
        },
        _ => (place, DownloadReply::Done),
    }
}

/// How much is left of an attempt.
pub open spec fn steps_left(phase: Phase) -> nat {
    match phase {
        Phase::Ready => 4,
        Phase::Requesting => 3,
        Phase::TakingBody => 2,
        Phase::Storing => 1,
        Phase::Over => 0,
    }
}

/// What is left in the end of a download that is at `state` and does `ask`, and whether it has
/// worked. `attempts` says of each attempt how things turn out in it.
pub open spec fn goes_on(
    state: DownloadState,
    ask: DownloadAsk,
    place: Place,
    attempts: spec_fn(u32) -> Attempt,
) -> (Place, bool)
    decreases state.max_retries - state.attempt, steps_left(state.phase),
{
    if state.phase == Phase::Over {
        (place, ask is Finish)
    } else {
        let (after, event) = performed(ask, place, attempts(state.attempt));
        let (next, asked) = state.next(event);
        goes_on(next, asked, after, attempts)
    }
}

/// What is left of the download of a file from an address, from attempt number `attempt` on,
/// and whether it has worked.
pub open spec fn downloaded(
    url: Seq<char>,
    max_retries: u32,
    attempt: u32,
    place: Place,
    attempts: spec_fn(u32) -> Attempt,
) -> (Place, bool) {
    let (state, ask) = DownloadState::ready(url, max_retries, attempt).next(DownloadReply::Done);
    goes_on(state, ask, place, attempts)
}

/// An attempt that works is the last one.
proof fn lemma_attempt_works(
    url: Seq<char>,
    max_retries: u32,
    attempt: u32,
    place: Place,
    attempts: spec_fn(u32) -> Attempt,
)
    requires
        attempts(attempt).works(),
    ensures
        downloaded(url, max_retries, attempt, place, attempts) == (
            (Place { file: attempts(attempt).brings(), requests: place.requests.push(url) }),
            true,
        ),
{
    reveal_with_fuel(goes_on, 4);
}

/// An attempt that does not work is followed by the next one, if there is one. It changes the
/// file only where it has brought a body.
proof fn lemma_attempt_fails(
    url: Seq<char>,
    max_retries: u32,
    attempt: u32,
    place: Place,
    attempts: spec_fn(u32) -> Attempt,
)
    requires
        1 <= attempt <= max_retries,
        !attempts(attempt).works(),
    ensures
        ({
            let left = Place {
                file: if attempts(attempt).brings() is Some {
                    attempts(attempt).left_behind
                } else {
                    place.file
                },
                requests: place.requests.push(url),
            };
            downloaded(url, max_retries, attempt, place, attempts) == if attempt < max_retries {
                downloaded(url, max_retries, (attempt + 1) as u32, left, attempts)
            } else {
                (left, false)
            }
        }),
{
    reveal_with_fuel(goes_on, 5);
}

/// A download ends at its first attempt that works, and the file then holds the body that this
/// attempt has brought. Each attempt sends one request, to the address. A download of which no
/// attempt works fails, after `max_retries` attempts. Where no attempt brings a body the file
/// stays as it was: there is none if there was none.
pub proof fn a_download_ends_at_its_first_success(
    url: Seq<char>,
    max_retries: u32,
    attempt: u32,
    place: Place,
    attempts: spec_fn(u32) -> Attempt,
)
    requires
        1 <= attempt <= max_retries,
    ensures
        ({
            let (after, worked) = downloaded(url, max_retries, attempt, place, attempts);
            let last = ends(working(attempts), attempt, max_retries).0;
            &&& attempt <= last <= max_retries
            &&& worked == attempts(last).works()
            &&& forall|k: u32| attempt <= k < last ==> !(#[trigger] attempts(k)).works()
            &&& !worked ==> last == max_retries
            &&& after.requests == place.requests + Seq::new(
                (last - attempt + 1) as nat,
                |i: int| url,
            )
            &&& worked ==> after.file == attempts(last).brings()
            &&& (forall|k: u32|
                attempt <= k <= max_retries ==> (#[trigger] attempts(k)).brings() is None) ==> !worked
                && after.file == place.file
        }),
    decreases max_retries - attempt,
{
    let works = working(attempts);
    first_success_ends_a_download(works, attempt, max_retries);
    let last = ends(works, attempt, max_retries).0;
    let (after, worked) = downloaded(url, max_retries, attempt, place, attempts);
    let same = |i: int| url;
    assert forall|k: u32| attempt <= k < last implies !(#[trigger] attempts(k)).works() by {
        assert(!works(k));
    }
    if attempts(attempt).works() {
        assert(works(attempt));
        lemma_attempt_works(url, max_retries, attempt, place, attempts);
        assert(after.requests =~= place.requests + Seq::new(1, same));
    } else {
        assert(!works(attempt));
        lemma_attempt_fails(url, max_retries, attempt, place, attempts);
        if attempt < max_retries {
            let next: u32 = (attempt + 1) as u32;
            let left = Place {
                file: if attempts(attempt).brings() is Some {
                    attempts(attempt).left_behind
                } else {
                    place.file
                },
                requests: place.requests.push(url),
            };
            a_download_ends_at_its_first_success(url, max_retries, next, left, attempts);
            assert(after.requests =~= place.requests + Seq::new((last - attempt + 1) as nat, same));
        } else {
            assert(after.requests =~= place.requests + Seq::new(1, same));
        }
    }
}

/// Downloads, actions and events stand for what they say.
pub proof fn downloading_stands_for_what_it_says(
    download: Download,
    action: DownloadAction,
    event: DownloadEvent,
)
    ensures
        download@.url == download.url@,
        download@.max_retries == download.max_retries,
        download@.attempt == download.attempt,
        download@.phase == download.phase,
        match action {
            DownloadAction::Request { url } => action@ == (DownloadAsk::Request { url: url@ }),
            DownloadAction::TakeBody => action@ is TakeBody,
            DownloadAction::Store { body } => action@ == (DownloadAsk::Store { body: body@ }),
            DownloadAction::Wait { secs } => action@ == (DownloadAsk::Wait { secs }),
            DownloadAction::Finish => action@ is Finish,
            DownloadAction::GiveUp { attempts } => action@ == (DownloadAsk::GiveUp { attempts }),
            DownloadAction::Nothing => action@ is Nothing,
        },
        match event {
            DownloadEvent::Replied { status } => event@ == (DownloadReply::Replied { status }),
            DownloadEvent::Body { bytes } => event@ == (DownloadReply::Body { bytes: bytes@ }),
            DownloadEvent::Done => event@ is Done,
            DownloadEvent::Failed => event@ is Failed,
        },
{
}

/// Between an attempt that has not worked and the next one, five seconds are waited for each attempt
/// that was made; after the last one nothing is waited for, and its number is told.
pub proof fn failed_attempts_are_followed_by_a_wait(state: DownloadState, event: DownloadReply)
    requires
        state.wf(),
        state.phase is Requesting || state.phase is TakingBody || state.phase is Storing,
        event is Failed,
    ensures
        ({
            let (next, ask) = state.next(event);
            if state.attempt < state.max_retries {
                &&& ask == (DownloadAsk::Wait { secs: (5 * state.attempt) as u64 })
                &&& next.attempt == state.attempt + 1
                &&& next.phase is Ready
            } else {
                &&& ask == (DownloadAsk::GiveUp { attempts: state.max_retries })
                &&& next.phase is Over
            }
        }),
{
}

/// What does not answer what is waited for is an attempt that has not worked, and a download that is
/// over stays so.
pub proof fn what_does_not_answer_is_a_failure(state: DownloadState, event: DownloadReply)
    requires
        state.phase !is Ready,
        !(state.phase is Requesting && event is Replied),
        !(state.phase is TakingBody && event is Body),
        !(state.phase is Storing && event is Done),
    ensures
        state.phase !is Over ==> state.next(event) == state.next(DownloadReply::Failed),
        state.phase is Over ==> state.next(event).0 == state && state.next(event).1 is Nothing,
{
}

} // verus!
