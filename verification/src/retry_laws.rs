//! What is decided after each attempt, stated on what became of it.

use crate::error::CodexErrView;
use crate::retry;
use crate::retry::{Attempts, PostOutcome, RetryAction, RetryActionView};
use crate::text;
use crate::text_laws;
use vstd::prelude::*;

verus! {

/// The provider answered that the request may succeed later: there were too many requests, or the
/// server was at fault.
pub open spec fn later(status: u16) -> bool {
    status == 429 || (500 <= status && status <= 599)
}

/// An answer of success is read as a stream, and one that will not change is rejected, however
/// many attempts are left. For any other the request goes out again while attempts are left,
/// after the wait that the provider asks for or else the one that is due; and when none is left
/// it is given up, with the status.
pub proof fn law_what_follows_an_answer(
    provider: Seq<char>,
    attempt: u64,
    max_retries: u64,
    outcome: PostOutcome,
)
    requires
        outcome is Reply,
        retry::wait_fits(attempt, max_retries, outcome),
    ensures
        ({
            let action = retry::decision(provider, attempt, max_retries, outcome);
            let status = outcome->status;
            let wait = outcome->retry_after_secs;
            &&& action is Stream <==> (200 <= status && status <= 299)
            &&& action is Reject <==> !(200 <= status && status <= 299) && !later(status)
            &&& later(status) && attempt > max_retries ==> action == RetryActionView::GiveUp(
                CodexErrView::UnsupportedOperation(
                    provider + " API retry limit reached (status "@ + outcome->status_text@
                        + ")"@,
                ),
            )
            &&& later(status) && attempt <= max_retries && wait is Some ==> (action is Wait
                && action->millis == wait->0 * 1000)
            &&& later(status) && attempt <= max_retries && wait is None ==> action
                == RetryActionView::Backoff { attempt }
        }),
{
}

/// Where the provider did not answer, the request goes out again while attempts are left, after
/// the wait that is due; and when none is left it is given up, with the reason.
pub proof fn law_what_follows_a_failure(
    provider: Seq<char>,
    attempt: u64,
    max_retries: u64,
    outcome: PostOutcome,
)
    requires
        outcome is Failed,
    ensures
        ({
            let action = retry::decision(provider, attempt, max_retries, outcome);
            &&& attempt <= max_retries ==> action == RetryActionView::Backoff { attempt }
            &&& attempt > max_retries ==> action == RetryActionView::GiveUp(
                CodexErrView::UnsupportedOperation(
                    provider + " connection failed after retries: "@ + outcome->message@,
                ),
            )
        }),
{
}

/// A wait can be written unless there is to be one, as the provider asks for it, of more
/// milliseconds than can be written.
pub proof fn law_which_waits_can_be_written(
    attempt: u64,
    max_retries: u64,
    outcome: PostOutcome,
)
    ensures
        retry::wait_fits(attempt, max_retries, outcome) <==> {
            ||| outcome is Failed
            ||| outcome->retry_after_secs is None
            ||| !later(outcome->status)
            ||| attempt > max_retries
            ||| outcome->retry_after_secs->0 * 1000 <= u64::MAX
        },
{
}

/// Every attempt is counted, and what follows is decided by the count with it. The thinking budget
/// is halved where the attempt timed out and another follows, but not below 1024; otherwise it
/// stays. How often a request may be sent again stays.
pub proof fn law_an_attempt_is_counted(a: Attempts, provider: Seq<char>, outcome: PostOutcome)
    requires
        retry::countable(a, outcome),
    ensures
        ({
            let (after, action) = retry::attempted(a, provider, outcome);
            let timed_out = outcome is Failed && outcome->timed_out;
            let again = action is Wait || action is Backoff;
            &&& after.made == a.made + 1
            &&& after.max_retries == a.max_retries
            &&& action == retry::decision(provider, after.made, a.max_retries, outcome)
            &&& timed_out && again && a.thinking_budget >= 2048 ==> after.thinking_budget
                == a.thinking_budget / 2
            &&& timed_out && again && a.thinking_budget < 2048 ==> after.thinking_budget == 1024
            &&& !(timed_out && again) ==> after.thinking_budget == a.thinking_budget
        }),
{
}

/// A timeout halves the thinking budget, but not below 1024; nothing else changes it.
pub proof fn law_a_timeout_halves_the_budget(budget: u32, outcome: PostOutcome)
    ensures
        ({
            let next = retry::next_budget(budget, outcome);
            let timed_out = outcome is Failed && outcome->timed_out;
            &&& !timed_out ==> next == budget
            &&& timed_out && budget >= 2048 ==> next == budget / 2
            &&& timed_out && budget < 2048 ==> next == 1024
        }),
{
}

/// An attempt can be counted as long as there is a number for it, and the wait behind it can be
/// written.
pub proof fn law_what_can_be_counted(a: Attempts, outcome: PostOutcome)
    ensures
        retry::countable(a, outcome) <==> a.made < u64::MAX && retry::wait_fits(
            (a.made + 1) as u64,
            a.max_retries,
            outcome,
        ),
{
}

/// What is told of a decision is what it says.
pub proof fn law_a_decision_is_told_as_it_is(action: RetryAction)
    ensures
        match action {
            RetryAction::Stream => action.deep_view() is Stream,
            RetryAction::Reject => action.deep_view() is Reject,
            RetryAction::GiveUp(e) => action.deep_view() == RetryActionView::GiveUp(e.deep_view()),
            RetryAction::Wait { millis } => action.deep_view() == (RetryActionView::Wait {
                millis,
            }),
            RetryAction::Backoff { attempt } => action.deep_view() == (RetryActionView::Backoff {
                attempt,
            }),
        },
{
}

/// A rejection tells all that the provider answered, behind the name of the provider.
pub proof fn law_a_rejection_tells_the_answer(
    provider: Seq<char>,
    status_text: Seq<char>,
    body: Seq<char>,
)
    ensures
        retry::rejected(provider, status_text, body) == CodexErrView::UnsupportedOperation(
            provider + " API returned "@ + status_text + ": "@ + body,
        ),
{
}

/// A wait is read from a header that is a number of seconds, and from nothing else.
pub proof fn law_which_headers_ask_for_a_wait(header: Seq<char>)
    ensures
        retry::retry_after(None) is None,
        ({
            let digits = text_laws::without_plus(header);
            let seconds = text::decimal(digits);
            &&& retry::retry_after(Some(header)) is Some <==> text_laws::only_digits(digits)
                && seconds <= u64::MAX
            &&& retry::retry_after(Some(header)) is Some ==> retry::retry_after(Some(header))->0
                == seconds
        }),
{
    text_laws::law_what_writes_a_number(header, u64::MAX as nat);
}

} // verus!
