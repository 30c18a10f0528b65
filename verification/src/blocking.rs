//! A simple blocking executor for asynchronous hardware operations: poll
//! the operation until it is ready.

use vstd::prelude::*;

verus! {

/// The outcome of polling an operation once.
#[derive(Debug, PartialEq, Eq)]
pub enum Poll<T> {
    /// The operation finished with this value.
    Ready(T),
    /// The operation is still under way.
    Pending,
}

/// What the executor does after a poll.
#[derive(Debug, PartialEq, Eq)]
pub enum Step<T> {
    /// Stop and hand back the operation's value.
    Return(T),
    /// Poll the operation again.
    PollAgain,
}

/// The executor's decision after a poll: return a ready value, poll a
/// pending operation again.
pub open spec fn decision<T>(polled: Poll<T>) -> Step<T> {
    match polled {
        Poll::Ready(v) => Step::Return(v),
        Poll::Pending => Step::PollAgain,
    }
}

/// Where the executor stops when the operation's polls give `polls` in
/// turn: the value it returns and the number of polls it made, or `None`
/// if it is still polling after all of them.
pub open spec fn drive<T>(polls: Seq<Poll<T>>) -> Option<(T, nat)>
    decreases polls.len(),
{
    if polls.len() == 0 {
        None
    } else {
        match decision(polls[0]) {
            Step::Return(v) => Some((v, 1nat)),
            Step::PollAgain => match drive(polls.skip(1)) {
                Some((v, n)) => Some((v, n + 1)),
                None => None,
            },
        }
    }
}

/// Block until the operation returns a result: after each poll, return the
/// value once it is ready, and poll again while it is pending.
pub fn run<T>(polled: Poll<T>) -> (step: Step<T>)
    ensures
        step == decision(polled),
{
    match polled {
        Poll::Ready(v) => Step::Return(v),
        Poll::Pending => Step::PollAgain,
    }
}

/// Law: an operation that is pending on its first `k` polls and ready with
/// `v` on the next one is run to `v` with exactly `k + 1` polls; it is not
/// polled again after it was ready.
pub proof fn lemma_run_returns_first_ready<T>(polls: Seq<Poll<T>>, k: nat, v: T)
    requires
        k < polls.len(),
        forall|i: int| 0 <= i < k ==> polls[i] is Pending,
        polls[k as int] == Poll::Ready(v),
    ensures
        drive(polls) == Some((v, k + 1)),
    decreases k,
{
    if k > 0 {
        let rest = polls.skip(1);
        assert forall|i: int| 0 <= i < k - 1 implies rest[i] is Pending by {
            assert(rest[i] == polls[i + 1]);
        }
        assert(rest[k - 1] == polls[k as int]);
        lemma_run_returns_first_ready(rest, (k - 1) as nat, v);
    }
}

/// Law: while every poll is pending the executor keeps polling and returns
/// nothing.
pub proof fn lemma_run_waits_while_pending<T>(polls: Seq<Poll<T>>)
    requires
        forall|i: int| 0 <= i < polls.len() ==> polls[i] is Pending,
    ensures
        drive(polls) is None,
    decreases polls.len(),
{
    if polls.len() > 0 {
        let rest = polls.skip(1);
        assert forall|i: int| 0 <= i < rest.len() implies rest[i] is Pending by {
            assert(rest[i] == polls[i + 1]);
        }
        lemma_run_waits_while_pending(rest);
    }
}

} // verus!
