//! What holds of every connection.

use vstd::arithmetic::power2::{lemma2_to64, lemma_pow2_unfold, pow2};
use vstd::prelude::*;

use crate::connection::{
    backoff_answered, check_events_status, nanoseconds, next_backoff, next_step, run_step,
    unsigned, RunAction, RunEvent, Step, FIRST_BACKOFF_SECONDS, MAX_BACKOFF_SECONDS, OK,
};

verus! {

/// The delay after so many losses in a row, since a connection was last made.
pub open spec fn backoff_after(losses: nat) -> int
    decreases losses,
{
    if losses == 0 {
        FIRST_BACKOFF_SECONDS as int
    } else {
        next_backoff(backoff_after((losses - 1) as nat))
    }
}

/// Delays double with every loss, up to the longest one.
pub proof fn backoff_is_exponential(losses: nat)
    ensures
        backoff_after(losses) == if pow2(losses + 1) > MAX_BACKOFF_SECONDS {
            MAX_BACKOFF_SECONDS as int
        } else {
            pow2(losses + 1) as int
        },
        FIRST_BACKOFF_SECONDS <= backoff_after(losses) <= MAX_BACKOFF_SECONDS,
        backoff_after(losses) <= backoff_after(losses + 1),
    decreases losses,
{
    lemma_pow2_unfold(losses + 1);
    if losses == 0 {
        lemma2_to64();
    } else {
        backoff_is_exponential((losses - 1) as nat);
    }
}

/// A delay within its bounds stays there, so that it can always be doubled.
pub proof fn backoff_stays_in_bounds(seconds: int)
    requires
        FIRST_BACKOFF_SECONDS <= seconds <= MAX_BACKOFF_SECONDS,
    ensures
        FIRST_BACKOFF_SECONDS <= next_backoff(seconds) <= MAX_BACKOFF_SECONDS,
        unsigned(next_backoff(seconds)) == next_backoff(seconds),
        i64::MIN <= 2 * seconds <= i64::MAX,
{
}

/// Unless it is cancelled, the tool never stops: it connects when it can, and waits
/// when a connection has ended. Once it is cancelled, it stops.
pub proof fn only_cancelling_stops(event: RunEvent, backoff: int)
    ensures
        match event {
            RunEvent::Ready { cancelled } => if cancelled {
                next_step(event, backoff).1 is Stop
            } else {
                next_step(event, backoff).1 is Connect
            },
            RunEvent::Ended { cancelled, .. } => if cancelled {
                next_step(event, backoff).1 is Stop
            } else {
                next_step(event, backoff).1 is Wait
            },
        },
{
}

/// Whatever `run_step` returns after one more loss, the delay is that of one more
/// loss, and is waited for.
pub proof fn loss_is_counted(losses: nat, before: i64, after: i64, action: RunAction)
    requires
        before == backoff_after(losses),
        exists|backoff: &mut i64|
            *backoff == before && *final(backoff) == after && #[trigger] call_ensures(
                run_step,
                (RunEvent::Ended { closed: false, cancelled: false }, backoff),
                action,
            ),
    ensures
        after == backoff_after(losses + 1),
        action matches RunAction::Wait(delay) && nanoseconds(delay) == backoff_after(losses + 1)
            * 1_000_000_000,
{
    backoff_is_exponential(losses + 1);
}

/// Whatever `check_events_status` returns, an answer that is taken makes the delay
/// that of no loss, and any other answer leaves it.
pub proof fn answer_resets_the_count(
    status: u16,
    text: &str,
    before: i64,
    after: i64,
    taken: Result<(), String>,
)
    requires
        exists|backoff: &mut i64|
            *backoff == before && *final(backoff) == after && #[trigger] call_ensures(
                check_events_status,
                (status, text, backoff),
                taken,
            ),
    ensures
        taken is Ok <==> status == OK,
        taken is Ok ==> after == backoff_after(0),
        taken is Err ==> after == before,
{
}

/// An attempt to take up the stream of events.
pub struct Attempt {
    /// The status of the answer, if one came.
    pub status: Option<u16>,
    /// Whether the stream came to its end.
    pub closed: bool,
}

impl Attempt {
    /// Whether the answer was taken.
    pub open spec fn taken(self) -> bool {
        self.status == Some(OK)
    }

    /// Only a stream that was taken up comes to its end.
    pub open spec fn is_possible(self) -> bool {
        self.closed ==> self.taken()
    }

    /// The delay from which the next one is counted, and what the tool that is not
    /// cancelled does next.
    pub open spec fn leads(self, backoff: int) -> (int, Step) {
        let heard = match self.status {
            Some(status) => backoff_answered(status, backoff),
            None => backoff,
        };
        next_step(RunEvent::Ended { closed: self.closed, cancelled: false }, heard)
    }
}

/// The delay from which the next one is counted after attempts.
pub open spec fn backoff_of(attempts: Seq<Attempt>) -> int
    decreases attempts.len(),
{
    if attempts.len() == 0 {
        FIRST_BACKOFF_SECONDS as int
    } else {
        attempts.last().leads(backoff_of(attempts.drop_last())).0
    }
}

/// What the tool does after attempts, unless it is cancelled.
pub open spec fn step_of(attempts: Seq<Attempt>) -> Step
    recommends
        attempts.len() > 0,
{
    attempts.last().leads(backoff_of(attempts.drop_last())).1
}

/// The failures in a row that attempts end with, since the first one or since an
/// answer was last taken.
pub open spec fn losses(attempts: Seq<Attempt>) -> nat
    decreases attempts.len(),
{
    if attempts.len() == 0 || attempts.last().closed {
        0
    } else if attempts.last().taken() {
        1
    } else {
        losses(attempts.drop_last()) + 1
    }
}

/// The delay of a tool is always that of the failures in a row that its attempts
/// end with.
pub proof fn backoff_counts_failures(attempts: Seq<Attempt>)
    requires
        forall|i: int| 0 <= i < attempts.len() ==> (#[trigger] attempts[i]).is_possible(),
    ensures
        backoff_of(attempts) == backoff_after(losses(attempts)),
    decreases attempts.len(),
{
    if attempts.len() > 0 {
        assert forall|i: int| 0 <= i < attempts.len() - 1 implies (
        #[trigger] attempts.drop_last()[i]).is_possible() by {
            assert(attempts[i] == attempts.drop_last()[i]);
        }
        assert(attempts[attempts.len() - 1].is_possible());
        backoff_counts_failures(attempts.drop_last());
        reveal_with_fuel(backoff_after, 2);
    }
}

/// After every attempt the tool that is not cancelled waits: two seconds after a
/// stream that came to its end, and after failures in a row four seconds, then
/// twice as long each time, up to sixty seconds.
pub proof fn waits_grow_with_failures(attempts: Seq<Attempt>)
    requires
        attempts.len() > 0,
        forall|i: int| 0 <= i < attempts.len() ==> (#[trigger] attempts[i]).is_possible(),
    ensures
        step_of(attempts) == Step::Wait(
            if attempts.last().closed {
                2
            } else if pow2(losses(attempts) + 1) > 60 {
                60
            } else {
                pow2(losses(attempts) + 1) as int
            },
        ),
{
    backoff_counts_failures(attempts);
    backoff_is_exponential(losses(attempts));
}

} // verus!
