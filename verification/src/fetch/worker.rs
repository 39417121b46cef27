//! What a fetch worker does after a failed attempt, how the workers and the
//! release are supervised, and when a fetch is complete.
use crate::error::SlipstreamError;
use crate::fetch::release::ReleaseSummary;
use crate::text::{dec, push_dec};
use vstd::arithmetic::power2::{lemma2_to64, pow2};
use vstd::prelude::*;

verus! {

/// What a worker does after a failed attempt.
#[derive(Debug)]
pub enum RetryStep {
    /// Wait, reconnect and resume; `attempt` attempts in a row made no progress.
    Retry { attempt: u32, backoff_millis: u64 },
    /// Give the plan chunk up.
    GiveUp(SlipstreamError),
}

/// The attempts in a row without progress, once one more has failed.
pub open spec fn fruitless(attempt: u32, emitted: bool) -> u32 {
    if emitted {
        0
    } else {
        attempt
    }
}

/// The wait before the retry: 250 ms, doubled per fruitless attempt, at most ten
/// times.
pub open spec fn retry_backoff_millis(attempt: nat) -> nat {
    let e = if attempt <= 1 {
        0
    } else if attempt - 1 > 10 {
        10
    } else {
        attempt - 1
    };
    250 * pow2(e as nat)
}

/// The words for a plan chunk that is given up.
pub open spec fn give_up_text(
    index: nat,
    start: nat,
    end: nat,
    attempt: nat,
    cause: Seq<char>,
) -> Seq<char> {
    "plan chunk "@ + dec(index) + " ("@ + dec(start) + ".."@ + dec(end) + ") failed after "@ + dec(
        attempt,
    ) + " zero-progress attempts: "@ + cause
}

fn backoff_millis(attempt: u32) -> (r: u64)
    ensures
        r == retry_backoff_millis(attempt as nat),
{
    proof {
        lemma2_to64();
    }
    if attempt <= 1 {
        250
    } else if attempt == 2 {
        500
    } else if attempt == 3 {
        1_000
    } else if attempt == 4 {
        2_000
    } else if attempt == 5 {
        4_000
    } else if attempt == 6 {
        8_000
    } else if attempt == 7 {
        16_000
    } else if attempt == 8 {
        32_000
    } else if attempt == 9 {
        64_000
    } else if attempt == 10 {
        128_000
    } else {
        256_000
    }
}

/// Attempt number `attempt` (from one, counted since the last progress) at the
/// plan chunk `index`, which spans `start..end`, failed with `cause`. Progress in
/// that attempt renews the budget of `retries`.
pub fn after_failure(
    attempt: u32,
    emitted: bool,
    retries: u32,
    index: u64,
    range: (u64, u64),
    cause: &SlipstreamError,
) -> (r: RetryStep)
    ensures
        ({
            let n = fruitless(attempt, emitted);
            if n > retries {
                r matches RetryStep::GiveUp(SlipstreamError::Transport(m)) && m@ == give_up_text(
                    index as nat,
                    range.0 as nat,
                    range.1 as nat,
                    n as nat,
                    cause.text(),
                )
            } else {
                r matches RetryStep::Retry { attempt, backoff_millis } && attempt == n
                    && backoff_millis == retry_backoff_millis(n as nat)
            }
        }),
{
    let n: u32 = if emitted {
        0
    } else {
        attempt
    };
    if n > retries {
        let mut m: String = "plan chunk ".to_owned();
        push_dec(&mut m, index);
        m.push_str(" (");
        push_dec(&mut m, range.0);
        m.push_str("..");
        push_dec(&mut m, range.1);
        m.push_str(") failed after ");
        push_dec(&mut m, n as u64);
        m.push_str(" zero-progress attempts: ");
        let c: String = cause.message();
        m.push_str(c.as_str());
        return RetryStep::GiveUp(SlipstreamError::Transport(m));
    }
    RetryStep::Retry { attempt: n, backoff_millis: backoff_millis(n) }
}

/// An attempt that made progress is always retried, and the wait is never longer
/// than 256 seconds.
pub proof fn law_progress_is_retried(attempt: u32, retries: u32, n: nat)
    ensures
        fruitless(attempt, true) <= retries,
        250 <= retry_backoff_millis(n) <= 256_000,
{
    lemma2_to64();
    let e = if n <= 1 {
        0
    } else if n - 1 > 10 {
        10
    } else {
        n - 1
    };
    assert(e == 0 || e == 1 || e == 2 || e == 3 || e == 4 || e == 5 || e == 6 || e == 7 || e == 8
        || e == 9 || e == 10);
}

/// How a worker or the release ended.
#[derive(Debug)]
pub enum FetchEvent {
    WorkerDone,
    WorkerFailed(SlipstreamError),
    /// A worker panicked; the words of the panic.
    WorkerPanicked(String),
    Released(ReleaseSummary),
    ReleaseFailed(SlipstreamError),
}

/// What the supervisor does next.
#[derive(Debug)]
pub enum SuperviseStep {
    /// Wait for the next event.
    Wait,
    /// Abort the workers that still run and fail.
    Abort(SlipstreamError),
    /// All workers are done and the release is complete.
    Done(ReleaseSummary),
}

/// The workers that still run, and the totals of the release once it is complete.
pub struct FetchSupervisor {
    running: usize,
    released: Option<ReleaseSummary>,
}

impl FetchSupervisor {
    /// The number of workers that still run.
    pub closed spec fn running(&self) -> nat {
        self.running as nat
    }

    /// The totals of the release, once it is complete.
    pub closed spec fn released(&self) -> Option<ReleaseSummary> {
        self.released
    }

    /// A supervisor of this many workers.
    pub fn new(workers: usize) -> (r: Self)
        ensures
            r.running() == workers,
            r.released() is None,
    {
        FetchSupervisor { running: workers, released: None }
    }

    /// The first failure of a worker or of the release aborts the fetch at once;
    /// it is complete when every worker is done and the release is.
    pub fn step(&mut self, event: FetchEvent) -> (r: SuperviseStep)
        requires
            event is WorkerDone || event is WorkerFailed || event is WorkerPanicked ==> old(
                self,
            ).running() > 0,
            event is Released ==> old(self).released() is None,
        ensures
            match event {
                FetchEvent::WorkerFailed(e) => r == SuperviseStep::Abort(e),
                FetchEvent::ReleaseFailed(e) => r == SuperviseStep::Abort(e),
                FetchEvent::WorkerPanicked(words) => r matches SuperviseStep::Abort(
                    SlipstreamError::Transport(m),
                ) && m@ == "worker panicked: "@ + words@,
                FetchEvent::WorkerDone => {
                    &&& final(self).running() == old(self).running() - 1
                    &&& old(self).running() == 1 && old(self).released() is Some ==> r
                        == SuperviseStep::Done(old(self).released()->Some_0)
                    &&& !(old(self).running() == 1 && old(self).released() is Some) ==> r is Wait
                        && final(self).released() == old(self).released()
                },
                FetchEvent::Released(summary) => {
                    &&& final(self).running() == old(self).running()
                    &&& old(self).running() == 0 ==> r == SuperviseStep::Done(summary)
                    &&& old(self).running() > 0 ==> r is Wait && final(self).released() == Some(
                        summary,
                    )
                },
            },
    {
        match event {
            FetchEvent::WorkerFailed(e) => {
                return SuperviseStep::Abort(e);
            },
            FetchEvent::ReleaseFailed(e) => {
                return SuperviseStep::Abort(e);
            },
            FetchEvent::WorkerPanicked(words) => {
                let mut m: String = "worker panicked: ".to_owned();
                m.push_str(words.as_str());
                return SuperviseStep::Abort(SlipstreamError::Transport(m));
            },
            FetchEvent::WorkerDone => {
                self.running = self.running - 1;
            },
            FetchEvent::Released(summary) => {
                self.released = Some(summary);
            },
        }
        if self.running == 0 {
            match self.released.take() {
                Some(summary) => {
                    return SuperviseStep::Done(summary);
                },
                None => {},
            }
        }
        SuperviseStep::Wait
    }
}

/// What a fetch did.
#[derive(Debug, Default)]
pub struct FetchStats {
    pub blocks: u64,
    /// The sum of the encoded lengths of the blocks.
    pub bytes: u64,
    /// The time of the whole pipeline in nanoseconds, waiting for the consumer
    /// included.
    pub elapsed_nanos: u64,
    /// The time of each arrival in nanoseconds since the fetch began, and all
    /// bytes that had arrived by then.
    pub wire_samples: Vec<(u64, u64)>,
}

/// The words for a fetch that released too few plan chunks.
pub open spec fn incomplete_text(released: nat, count: nat) -> Seq<char> {
    "fetch incomplete: released "@ + dec(released) + "/"@ + dec(count) + " plan chunks"@
}

/// The result of a fetch of `chunk_count` plan chunks: it succeeds only where all
/// of them were released.
pub fn complete_fetch(summary: ReleaseSummary, chunk_count: u64, elapsed_nanos: u64) -> (r: Result<
    FetchStats,
    SlipstreamError,
>)
    ensures
        summary.plans_released == chunk_count ==> (r matches Ok(s) && s.blocks == summary.blocks
            && s.bytes == summary.bytes && s.elapsed_nanos == elapsed_nanos && s.wire_samples@
            == summary.wire_samples@),
        summary.plans_released != chunk_count ==> (r matches Err(SlipstreamError::Transport(m))
            && m@ == incomplete_text(summary.plans_released as nat, chunk_count as nat)),
{
    if summary.plans_released != chunk_count {
        let mut m: String = "fetch incomplete: released ".to_owned();
        push_dec(&mut m, summary.plans_released);
        m.push_str("/");
        push_dec(&mut m, chunk_count);
        m.push_str(" plan chunks");
        return Err(SlipstreamError::Transport(m));
    }
    Ok(
        FetchStats {
            blocks: summary.blocks,
            bytes: summary.bytes,
            elapsed_nanos,
            wire_samples: summary.wire_samples,
        },
    )
}

/// An attempt without progress is counted as it is, and progress starts the count anew. The
/// first wait is a quarter of a second; each further fruitless attempt doubles it, ten times.
pub proof fn law_waits_double(attempt: u32, n: nat)
    ensures
        fruitless(attempt, false) == attempt,
        fruitless(attempt, true) == 0,
        n <= 1 ==> retry_backoff_millis(n) == 250,
        1 <= n <= 10 ==> retry_backoff_millis(n + 1) == 2 * retry_backoff_millis(n),
        n >= 11 ==> retry_backoff_millis(n) == 256_000,
{
    lemma2_to64();
    if 1 <= n <= 10 {
        assert(n == 1 || n == 2 || n == 3 || n == 4 || n == 5 || n == 6 || n == 7 || n == 8 || n
            == 9 || n == 10);
    }
}

/// A chunk that is given up is named with its range, how many attempts it took and why the
/// last one failed; an incomplete fetch says how many chunks of how many it has.
pub proof fn law_failures_are_told(
    index: nat,
    start: nat,
    end: nat,
    attempt: nat,
    cause: Seq<char>,
)
    ensures
        give_up_text(index, start, end, attempt, cause) == "plan chunk "@ + dec(index) + " ("@
            + dec(start) + ".."@ + dec(end) + ") failed after "@ + dec(attempt)
            + " zero-progress attempts: "@ + cause,
        incomplete_text(index, end) == "fetch incomplete: released "@ + dec(index) + "/"@ + dec(end)
            + " plan chunks"@,
{
}

} // verus!
