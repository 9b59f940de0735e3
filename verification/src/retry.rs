//! Downloads that are tried more than once.
use vstd::prelude::*;

verus! {

/// How often a download is tried.
pub const MAX_RETRIES: u32 = 3;

/// What follows an attempt.
#[derive(Clone, Copy, Debug, PartialEq, Eq, Structural)]
pub enum RetryStep {
    /// The attempt worked: no other follows.
    Done,
    /// Wait this many seconds, and make this attempt.
    Wait { secs: u64, attempt: u32 },
    /// All attempts were made, and none worked.
    GiveUp { attempts: u32 },
}

/// What follows attempt number `attempt` of `max_retries`: nothing where it worked or was the
/// last, else the next attempt, after five seconds for each attempt made.
pub open spec fn step_after(attempt: u32, max_retries: u32, worked: bool) -> RetryStep {
    if worked {
        RetryStep::Done
    } else if attempt < max_retries {
        RetryStep::Wait { secs: (5 * attempt) as u64, attempt: (attempt + 1) as u32 }
    } else {
        RetryStep::GiveUp { attempts: max_retries }
    }
}

/// What follows attempt number `attempt` of `max_retries`, the first one being number one.
pub fn after_attempt(attempt: u32, max_retries: u32, worked: bool) -> (res: RetryStep)
    requires
        1 <= attempt <= max_retries,
    ensures
        res == step_after(attempt, max_retries, worked),
{
    if worked {
        RetryStep::Done
    } else if attempt < max_retries {
        RetryStep::Wait { secs: 5 * attempt as u64, attempt: attempt + 1 }
    } else {
        RetryStep::GiveUp { attempts: max_retries }
    }
}

/// How a download ends that is at attempt number `attempt`, where `works` says of each attempt
/// whether it works: the attempt that was the last one, and whether it worked.
pub open spec fn ends(works: spec_fn(u32) -> bool, attempt: u32, max_retries: u32) -> (u32, bool)
    decreases max_retries - attempt,
{
    match step_after(attempt, max_retries, works(attempt)) {
        RetryStep::Wait { attempt: next, .. } => ends(works, next, max_retries),
        RetryStep::Done => (attempt, true),
        RetryStep::GiveUp { .. } => (attempt, false),
    }
}

/// The seconds that a download waits in all, from attempt number `attempt` on.
pub open spec fn waits(works: spec_fn(u32) -> bool, attempt: u32, max_retries: u32) -> int
    decreases max_retries - attempt,
{
    match step_after(attempt, max_retries, works(attempt)) {
        RetryStep::Wait { secs, attempt: next } => secs + waits(works, next, max_retries),
        RetryStep::Done => 0,
        RetryStep::GiveUp { .. } => 0,
    }
}

/// A download ends at its first attempt that works, and fails only after `max_retries` attempts
/// of which none worked.
pub proof fn first_success_ends_a_download(
    works: spec_fn(u32) -> bool,
    attempt: u32,
    max_retries: u32,
)
    requires
        1 <= attempt <= max_retries,
    ensures
        ({
            let (last, worked) = ends(works, attempt, max_retries);
            &&& attempt <= last <= max_retries
            &&& worked == works(last)
            &&& forall|k: u32| attempt <= k < last ==> !#[trigger] works(k)
            &&& !worked ==> last == max_retries
        }),
    decreases max_retries - attempt,
{
    if !works(attempt) && attempt < max_retries {
        first_success_ends_a_download(works, (attempt + 1) as u32, max_retries);
    }
}

/// A download that ends at its attempt number `last` has waited five seconds for each attempt
/// before that, times the attempt's number.
pub proof fn waiting_grows_with_each_attempt(
    works: spec_fn(u32) -> bool,
    attempt: u32,
    max_retries: u32,
)
    requires
        1 <= attempt <= max_retries,
    ensures
        ({
            let last = ends(works, attempt, max_retries).0;
            2 * waits(works, attempt, max_retries) == 5 * (last * (last - 1) - attempt * (attempt
                - 1))
        }),
    decreases max_retries - attempt,
{
    if !works(attempt) && attempt < max_retries {
        let next: u32 = (attempt + 1) as u32;
        waiting_grows_with_each_attempt(works, next, max_retries);
        assert(next * (next - 1) == attempt * (attempt - 1) + 2 * attempt) by (nonlinear_arith)
            requires
                next == attempt + 1,
        ;
    }
}

} // verus!
