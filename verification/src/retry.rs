//! When a request is sent again, and when it is given up.

use crate::error::{CodexErr, CodexErrView};
use crate::text;
use vstd::prelude::*;

verus! {

/// The least thinking budget: Nemotron needs that much even to think as little as it can.
pub const MIN_THINKING_BUDGET: u32 = 1024;

/// By what the thinking budget is divided after a timeout.
pub const THINKING_BUDGET_REDUCTION_FACTOR: u32 = 2;

/// What became of a request.
#[derive(Debug, PartialEq, Eq)]
pub enum PostOutcome {
    /// The provider answered.
    Reply {
        /// The status code.
        status: u16,
        /// The status as a text, code and reason.
        status_text: String,
        /// How many seconds the provider asks to wait.
        retry_after_secs: Option<u64>,
    },
    /// The provider did not answer.
    Failed { message: String, timed_out: bool },
}

/// What to do next.
#[derive(Debug, PartialEq, Eq)]
pub enum RetryAction {
    /// Read the stream of events.
    Stream,
    /// Read the body of the answer, and fail with it.
    Reject,
    /// Fail.
    GiveUp(CodexErr),
    /// Wait this long, and send the request again.
    Wait { millis: u64 },
    /// Wait as long as is due after this many attempts, and send the request again.
    Backoff { attempt: u64 },
}

/// What a [`RetryAction`] says.
pub enum RetryActionView {
    Stream,
    Reject,
    GiveUp(CodexErrView),
    Wait { millis: u64 },
    Backoff { attempt: u64 },
}

impl DeepView for RetryAction {
    type V = RetryActionView;

    open spec fn deep_view(&self) -> RetryActionView {
        match self {
            RetryAction::Stream => RetryActionView::Stream,
            RetryAction::Reject => RetryActionView::Reject,
            RetryAction::GiveUp(e) => RetryActionView::GiveUp(e.deep_view()),
            RetryAction::Wait { millis } => RetryActionView::Wait { millis: *millis },
            RetryAction::Backoff { attempt } => RetryActionView::Backoff { attempt: *attempt },
        }
    }
}

/// Whether a status code says that the request succeeded.
pub open spec fn success(status: u16) -> bool {
    200 <= status < 300
}

/// Whether a status code says that the request may succeed later: too many requests, or a fault
/// of the server.
pub open spec fn worth_retrying(status: u16) -> bool {
    status == 429 || 500 <= status < 600
}

/// What to do after the given number of attempts, of which the last had the given outcome.
pub open spec fn decision(
    provider: Seq<char>,
    attempt: u64,
    max_retries: u64,
    outcome: PostOutcome,
) -> RetryActionView {
    match outcome {
        PostOutcome::Reply { status, status_text, retry_after_secs } => if success(status) {
            RetryActionView::Stream
        } else if !worth_retrying(status) {
            RetryActionView::Reject
        } else if attempt > max_retries {
            RetryActionView::GiveUp(
                CodexErrView::UnsupportedOperation(
                    provider + " API retry limit reached (status "@ + status_text@ + ")"@,
                ),
            )
        } else {
            match retry_after_secs {
                Some(secs) => RetryActionView::Wait { millis: (secs * 1000) as u64 },
                None => RetryActionView::Backoff { attempt },
            }
        },
        PostOutcome::Failed { message, timed_out } => if attempt > max_retries {
            RetryActionView::GiveUp(
                CodexErrView::UnsupportedOperation(
                    provider + " connection failed after retries: "@ + message@,
                ),
            )
        } else {
            RetryActionView::Backoff { attempt }
        },
    }
}

/// Where there is to be a wait that the provider asks for, it can be written in milliseconds.
pub open spec fn wait_fits(attempt: u64, max_retries: u64, outcome: PostOutcome) -> bool {
    match outcome {
        PostOutcome::Reply { status, retry_after_secs: Some(secs), .. } => worth_retrying(status)
            && attempt <= max_retries ==> secs * 1000 <= u64::MAX,
        _ => true,
    }
}

/// Whether a wait that the provider asks for, where there is to be one, can be written in
/// milliseconds.
pub fn wait_is_writable(attempt: u64, max_retries: u64, outcome: &PostOutcome) -> (fits: bool)
    ensures
        fits == wait_fits(attempt, max_retries, *outcome),
{
    match outcome {
        PostOutcome::Reply { status, retry_after_secs: Some(secs), .. } => {
            let retried = *status == 429 || (500 <= *status && *status < 600);
            !(retried && attempt <= max_retries) || *secs <= u64::MAX / 1000
        },
        _ => true,
    }
}

/// Decides what to do after the given number of attempts, of which the last had the given
/// outcome.
pub fn decide(provider: &str, attempt: u64, max_retries: u64, outcome: &PostOutcome) -> (action:
    RetryAction)
    requires
        wait_fits(attempt, max_retries, *outcome),
    ensures
        action.deep_view() == decision(provider@, attempt, max_retries, *outcome),
{
    match outcome {
        PostOutcome::Reply { status, status_text, retry_after_secs } => {
            let status = *status;
            if 200 <= status && status < 300 {
                RetryAction::Stream
            } else if !(status == 429 || (500 <= status && status < 600)) {
                RetryAction::Reject
            } else if attempt > max_retries {
                let mut message = text::concat3(
                    provider,
                    " API retry limit reached (status ",
                    status_text.as_str(),
                );
                message.append(")");
                RetryAction::GiveUp(CodexErr::UnsupportedOperation(message))
            } else {
                match retry_after_secs {
                    Some(secs) => RetryAction::Wait { millis: *secs * 1000 },
                    None => RetryAction::Backoff { attempt },
                }
            }
        },
        PostOutcome::Failed { message, timed_out: _ } => if attempt > max_retries {
            RetryAction::GiveUp(
                CodexErr::UnsupportedOperation(
                    text::concat3(
                        provider,
                        " connection failed after retries: ",
                        message.as_str(),
                    ),
                ),
            )
        } else {
            RetryAction::Backoff { attempt }
        },
    }
}

/// The error for a request that the provider rejected: it names the provider and tells the status
/// and the body of the answer.
pub open spec fn rejected(
    provider: Seq<char>,
    status_text: Seq<char>,
    body: Seq<char>,
) -> CodexErrView {
    CodexErrView::UnsupportedOperation(
        provider + " API returned "@ + status_text + ": "@ + body,
    )
}

/// The error for a request that the provider rejected.
pub fn rejection(provider: &str, status_text: &str, body: &str) -> (e: CodexErr)
    ensures
        e.deep_view() == rejected(provider@, status_text@, body@),
        e.deep_view() == CodexErrView::UnsupportedOperation(
            provider@ + " API returned "@ + status_text@ + ": "@ + body@,
        ),
{
    let mut message = text::concat3(provider, " API returned ", status_text);
    message.append(": ");
    message.append(body);
    CodexErr::UnsupportedOperation(message)
}

/// The number of seconds in a `Retry-After` header, if there is one and it is a number.
pub open spec fn retry_after(header: Option<Seq<char>>) -> Option<nat> {
    match header {
        Some(h) => text::unsigned_number(h, u64::MAX as nat),
        None => None,
    }
}

/// The number of seconds in a `Retry-After` header.
pub fn parse_retry_after(header: Option<&str>) -> (secs: Option<u64>)
    ensures
        retry_after(header.deep_view()) == (match secs {
            Some(n) => Some(n as nat),
            None => None,
        }),
        match header {
            Some(h) => match secs {
                Some(n) => text::unsigned_number(h@, u64::MAX as nat) == Some(n as nat),
                None => text::unsigned_number(h@, u64::MAX as nat) is None,
            },
            None => secs is None,
        },
{
    match header {
        Some(h) => text::parse_u64(h),
        None => None,
    }
}

/// The thinking budget after a timeout: less, but no less than the least.
pub open spec fn reduced_budget(budget: u32) -> u32 {
    if budget / THINKING_BUDGET_REDUCTION_FACTOR >= MIN_THINKING_BUDGET {
        budget / THINKING_BUDGET_REDUCTION_FACTOR
    } else {
        MIN_THINKING_BUDGET
    }
}

/// The thinking budget of the attempt after one with the given outcome.
pub open spec fn next_budget(budget: u32, outcome: PostOutcome) -> u32 {
    if outcome matches PostOutcome::Failed { timed_out: true, .. } {
        reduced_budget(budget)
    } else {
        budget
    }
}

/// The thinking budget of the attempt after one with the given outcome. After a timeout it is
/// reduced, so that the model has less to do and is more likely to answer in time.
pub fn budget_after(budget: u32, outcome: &PostOutcome) -> (next: u32)
    ensures
        next == next_budget(budget, *outcome),
{
    match outcome {
        PostOutcome::Failed { timed_out: true, .. } => {
            let reduced = budget / THINKING_BUDGET_REDUCTION_FACTOR;
            if reduced >= MIN_THINKING_BUDGET {
                reduced
            } else {
                MIN_THINKING_BUDGET
            }
        },
        _ => budget,
    }
}

/// The request goes out again after this decision.
pub open spec fn retries(action: RetryActionView) -> bool {
    action is Wait || action is Backoff
}

/// The attempts at a request.
#[derive(Debug, Clone, Copy, PartialEq, Eq, Structural)]
pub struct Attempts {
    /// How many have been made.
    pub made: u64,
    /// How often the request may be sent again.
    pub max_retries: u64,
    /// The thinking budget of the next attempt.
    pub thinking_budget: u32,
}

/// The attempts after one more with the given outcome, and what to do next. The thinking budget
/// changes only for another attempt.
pub open spec fn attempted(a: Attempts, provider: Seq<char>, outcome: PostOutcome) -> (
    Attempts,
    RetryActionView,
) {
    let made = (a.made + 1) as u64;
    let action = decision(provider, made, a.max_retries, outcome);
    (
        Attempts {
            made,
            max_retries: a.max_retries,
            thinking_budget: if retries(action) {
                next_budget(a.thinking_budget, outcome)
            } else {
                a.thinking_budget
            },
        },
        action,
    )
}

/// One more attempt can be counted, and a wait that the provider asks for, where there is to be
/// one, can be written in milliseconds.
pub open spec fn countable(a: Attempts, outcome: PostOutcome) -> bool {
    a.made < u64::MAX && wait_fits((a.made + 1) as u64, a.max_retries, outcome)
}

impl Attempts {
    /// No attempt yet.
    pub fn new(max_retries: u64, thinking_budget: u32) -> (a: Attempts)
        ensures
            a == (Attempts { made: 0, max_retries, thinking_budget }),
    {
        Attempts { made: 0, max_retries, thinking_budget }
    }

    /// Whether an attempt with the given outcome can be counted.
    pub fn can_count(&self, outcome: &PostOutcome) -> (can: bool)
        ensures
            can == countable(*self, *outcome),
    {
        self.made < u64::MAX && wait_is_writable(self.made + 1, self.max_retries, outcome)
    }

    /// Counts an attempt with the given outcome, and decides what to do next.
    pub fn count(&mut self, provider: &str, outcome: &PostOutcome) -> (action: RetryAction)
        requires
            countable(*old(self), *outcome),
        ensures
            *final(self) == attempted(*old(self), provider@, *outcome).0,
            action.deep_view() == attempted(*old(self), provider@, *outcome).1,
    {
        self.made += 1;
        let action = decide(provider, self.made, self.max_retries, outcome);
        match action {
            RetryAction::Wait { .. } | RetryAction::Backoff { .. } => {
                self.thinking_budget = budget_after(self.thinking_budget, outcome);
            },
            _ => {},
        }
        action
    }
}

/// The attempts after a run of outcomes.
pub open spec fn attempted_all(a: Attempts, provider: Seq<char>, outcomes: Seq<PostOutcome>) ->
    Attempts
    decreases outcomes.len(),
{
    if outcomes.len() == 0 {
        a
    } else {
        attempted(
            attempted_all(a, provider, outcomes.drop_last()),
            provider,
            outcomes.last(),
        ).0
    }
}

/// Every outcome but the last is followed by another attempt, and every attempt can be counted:
/// the request goes out as often as there are outcomes.
pub open spec fn attempts_in_a_row(
    a: Attempts,
    provider: Seq<char>,
    outcomes: Seq<PostOutcome>,
) -> bool {
    forall|k: int|
        0 <= k < outcomes.len() - 1 ==> {
            let before = attempted_all(a, provider, #[trigger] outcomes.take(k));
            countable(before, outcomes[k]) && retries(attempted(before, provider, outcomes[k]).1)
        }
}

/// A request goes out once, and at most `max_retries` times more.
pub proof fn law_attempts_are_bounded(
    provider: Seq<char>,
    max_retries: u64,
    thinking_budget: u32,
    outcomes: Seq<PostOutcome>,
)
    requires
        attempts_in_a_row(
            Attempts { made: 0, max_retries, thinking_budget },
            provider,
            outcomes,
        ),
    ensures
        outcomes.len() <= max_retries + 1,
{
    let a = Attempts { made: 0, max_retries, thinking_budget };
    if outcomes.len() > max_retries + 1 {
        let k = max_retries as int;
        lemma_made(a, provider, outcomes, k);
        let before = attempted_all(a, provider, outcomes.take(k));
        assert(countable(before, outcomes[k]) && retries(
            attempted(before, provider, outcomes[k]).1,
        ));
    }
}

/// As long as attempts are left, they are counted one by one.
proof fn lemma_made(a: Attempts, provider: Seq<char>, outcomes: Seq<PostOutcome>, k: int)
    requires
        a.made == 0,
        0 <= k <= outcomes.len(),
        k <= a.max_retries,
    ensures
        attempted_all(a, provider, outcomes.take(k)).made == k,
        attempted_all(a, provider, outcomes.take(k)).max_retries == a.max_retries,
    decreases k,
{
    if k > 0 {
        lemma_made(a, provider, outcomes, k - 1);
        assert(outcomes.take(k).drop_last() =~= outcomes.take(k - 1));
    }
}

/// While attempts are left, a request goes out again exactly where the provider did not answer,
/// had too many requests, or was at fault.
pub proof fn law_what_is_retried(
    provider: Seq<char>,
    attempt: u64,
    max_retries: u64,
    outcome: PostOutcome,
)
    requires
        attempt <= max_retries,
    ensures
        retries(decision(provider, attempt, max_retries, outcome)) <==> match outcome {
            PostOutcome::Reply { status, .. } => status == 429 || 500 <= status < 600,
            PostOutcome::Failed { .. } => true,
        },
{
}

/// Where the provider asks for a wait and the request goes out again, the wait is as long as the
/// provider asks.
pub proof fn law_retry_after_is_honoured(
    provider: Seq<char>,
    attempt: u64,
    max_retries: u64,
    outcome: PostOutcome,
    secs: u64,
)
    requires
        outcome matches PostOutcome::Reply { retry_after_secs: Some(n), .. } && n == secs,
        wait_fits(attempt, max_retries, outcome),
        retries(decision(provider, attempt, max_retries, outcome)),
    ensures
        decision(provider, attempt, max_retries, outcome) is Wait,
        decision(provider, attempt, max_retries, outcome)->millis == secs * 1000,
{
}

/// The thinking budget of an attempt is never below the least, if the first one is not, and never
/// above that of an attempt before it.
pub proof fn law_budget_stays_in_bounds(
    a: Attempts,
    provider: Seq<char>,
    outcomes: Seq<PostOutcome>,
)
    requires
        a.thinking_budget >= MIN_THINKING_BUDGET,
    ensures
        MIN_THINKING_BUDGET <= attempted_all(a, provider, outcomes).thinking_budget
            <= a.thinking_budget,
    decreases outcomes.len(),
{
    if outcomes.len() > 0 {
        law_budget_stays_in_bounds(a, provider, outcomes.drop_last());
    }
}

/// Only a timeout reduces the thinking budget.
pub proof fn law_only_a_timeout_reduces_the_budget(
    a: Attempts,
    provider: Seq<char>,
    outcome: PostOutcome,
)
    requires
        attempted(a, provider, outcome).0.thinking_budget < a.thinking_budget,
    ensures
        outcome matches PostOutcome::Failed { timed_out: true, .. },
{
}

} // verus!
