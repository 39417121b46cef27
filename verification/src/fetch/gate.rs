//! Admission to the reorder stage. The plan chunk that is being released streams
//! unthrottled; every other one needs budget for each sub-chunk.
use vstd::prelude::*;

verus! {

/// How far, in multiples of the split size, workers may run ahead of the release.
pub const AHEAD_BUDGET_FACTOR: usize = 8;

/// How long one wait for budget lasts before the floor is looked at again.
pub const AHEAD_POLL_MILLIS: u64 = 100;

/// The size of the ahead budget.
#[derive(Clone, Copy, Debug)]
pub struct AheadGate {
    cap: usize,
}

/// How the last wait for budget ended.
#[derive(Clone, Copy, Debug, PartialEq, Eq, Structural)]
pub enum AcquireOutcome {
    /// There was none yet.
    NotTried,
    /// The budget was granted.
    Granted,
    /// The budget is closed: the fetch shuts down.
    Closed,
    /// The wait took too long.
    TimedOut,
}

/// What a worker with a finished sub-chunk does next.
#[derive(Clone, Copy, Debug, PartialEq, Eq, Structural)]
pub enum AdmitStep {
    /// Hand it on without budget.
    Exempt,
    /// Hand it on and hold the granted budget.
    Admitted,
    /// Wait for this many bytes of budget.
    Acquire(u32),
}

/// The budget that a sub-chunk of `bytes` needs: at least one, at most all of it.
pub open spec fn budget_need(cap: usize, bytes: usize) -> u32 {
    let clamped = if bytes < cap {
        bytes
    } else {
        cap
    };
    if clamped == 0 {
        1
    } else if clamped > u32::MAX {
        u32::MAX
    } else {
        clamped as u32
    }
}

/// The next step of a worker that wants to hand on a sub-chunk of `bytes` of the plan
/// chunk `plan_index`, while `floor` is being released.
pub open spec fn admission_step(
    cap: usize,
    floor: u64,
    plan_index: u64,
    bytes: usize,
    last: AcquireOutcome,
) -> AdmitStep {
    match last {
        AcquireOutcome::Granted => AdmitStep::Admitted,
        AcquireOutcome::Closed => AdmitStep::Exempt,
        _ => if floor >= plan_index {
            AdmitStep::Exempt
        } else {
            AdmitStep::Acquire(budget_need(cap, bytes))
        },
    }
}

impl AheadGate {
    /// The size of the budget.
    pub closed spec fn capacity(&self) -> usize {
        self.cap
    }

    /// A gate with this budget, at least one byte.
    pub fn new(cap: usize) -> (r: Self)
        ensures
            r.capacity() == if cap == 0 {
                1
            } else {
                cap
            },
    {
        AheadGate {
            cap: if cap == 0 {
                1
            } else {
                cap
            },
        }
    }

    /// Holds a fetch that splits at `split_bytes` to eight times as much.
    pub fn for_split(split_bytes: usize) -> (r: Self)
        ensures
            r.capacity() == if split_bytes == 0 {
                1
            } else if split_bytes * 8 > usize::MAX {
                usize::MAX
            } else {
                (split_bytes * 8) as usize
            },
    {
        match split_bytes.checked_mul(AHEAD_BUDGET_FACTOR) {
            Some(cap) => AheadGate::new(cap),
            None => AheadGate::new(usize::MAX),
        }
    }

    /// The size of the budget.
    pub fn cap(&self) -> (r: usize)
        ensures
            r == self.capacity(),
    {
        self.cap
    }

    /// The next step of a worker that wants to hand on a sub-chunk of `bytes` of
    /// the plan chunk `plan_index`, while `floor` is being released.
    pub fn admission(&self, floor: u64, plan_index: u64, bytes: usize, last: AcquireOutcome) -> (r:
        AdmitStep)
        ensures
            r == admission_step(self.capacity(), floor, plan_index, bytes, last),
    {
        match last {
            AcquireOutcome::Granted => AdmitStep::Admitted,
            AcquireOutcome::Closed => AdmitStep::Exempt,
            _ => {
                if floor >= plan_index {
                    return AdmitStep::Exempt;
                }
                let clamped: usize = if bytes < self.cap {
                    bytes
                } else {
                    self.cap
                };
                let need: u32 = if clamped == 0 {
                    1
                } else if clamped > 0xffff_ffff {
                    0xffff_ffff
                } else {
                    clamped as u32
                };
                AdmitStep::Acquire(need)
            },
        }
    }
}

/// A plan chunk that is being released, also one that became so during a wait, never
/// waits for budget, and nobody waits for more than the whole budget: a sub-chunk can
/// always be handed on in the end.
pub proof fn law_admission_never_deadlocks(
    cap: usize,
    floor: u64,
    plan_index: u64,
    bytes: usize,
    last: AcquireOutcome,
)
    requires
        cap > 0,
    ensures
        floor >= plan_index ==> !(admission_step(cap, floor, plan_index, bytes, last) is Acquire),
        admission_step(cap, floor, plan_index, bytes, last) matches AdmitStep::Acquire(need) ==> 1
            <= need <= cap,
{
}

/// The plan chunk that is being released is handed on at once, and so is everything once the
/// fetch shuts down; granted budget admits. Else a worker waits for as many bytes as its
/// sub-chunk has, for one where it has none, and for no more than there are.
pub proof fn law_admission_asks_for_its_bytes(
    cap: usize,
    floor: u64,
    plan_index: u64,
    bytes: usize,
    last: AcquireOutcome,
)
    requires
        0 < cap <= u32::MAX,
    ensures
        ({
            let step = admission_step(cap, floor, plan_index, bytes, last);
            let waits = floor < plan_index && (last is NotTried || last is TimedOut);
            &&& last is Granted <==> step is Admitted
            &&& last is Closed ==> step is Exempt
            &&& step is Acquire <==> waits
            &&& waits && 0 < bytes <= cap ==> step == AdmitStep::Acquire(bytes as u32)
            &&& waits && bytes == 0 ==> step == AdmitStep::Acquire(1)
            &&& waits && bytes > cap ==> step == AdmitStep::Acquire(cap as u32)
        }),
        budget_need(cap, bytes) == if bytes == 0 {
            1
        } else if bytes > cap {
            cap as u32
        } else {
            bytes as u32
        },
{
}

/// A budget that 32 bits do not hold is asked for as far as they do.
pub proof fn law_large_needs_are_cut(cap: usize, bytes: usize)
    requires
        cap > u32::MAX,
    ensures
        bytes > u32::MAX ==> budget_need(cap, bytes) == u32::MAX,
        0 < bytes <= u32::MAX ==> budget_need(cap, bytes) == bytes,
        bytes == 0 ==> budget_need(cap, bytes) == 1,
{
}

/// A worker that waits for budget looks at the floor ten times in a second.
pub proof fn law_floor_is_looked_at_again()
    ensures
        10 * AHEAD_POLL_MILLIS == 1000,
{
}

} // verus!
