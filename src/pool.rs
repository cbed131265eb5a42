//! Admission of scan work onto a bounded set of workers, with a high-water
//! and a low-water mark: work is admitted until `high` units are in flight;
//! then admission stops until the oldest units have been awaited down to
//! `low`, and resumes. Every unit is awaited in the end.
use vstd::prelude::*;

verus! {

/// The high-water mark of units in flight during a scan.
pub const CONCURRENT_THREADS_MAX: usize = 16;

/// The low-water mark that a full pool drains to before admitting again.
pub const CONCURRENT_THREADS_MIN: usize = 8;

/// One step of a scan's schedule.
#[derive(Clone, Copy, Debug, PartialEq, Eq, Structural)]
pub enum PoolStep {
    /// Start the unit with this index.
    Spawn(usize),
    /// Wait for the oldest unit still in flight.
    JoinOldest,
}

/// The number of units in flight after `steps`.
pub open spec fn in_flight(steps: Seq<PoolStep>) -> int
    decreases steps.len(),
{
    if steps.len() == 0 {
        0
    } else {
        in_flight(steps.drop_last()) + if steps.last() is Spawn { 1int } else { -1int }
    }
}

/// The units started by `steps`, in order.
pub open spec fn started(steps: Seq<PoolStep>) -> Seq<usize>
    decreases steps.len(),
{
    if steps.len() == 0 {
        seq![]
    } else {
        match steps.last() {
            PoolStep::Spawn(i) => started(steps.drop_last()).push(i),
            PoolStep::JoinOldest => started(steps.drop_last()),
        }
    }
}

/// Step `k` of `steps` follows the admission rule for `n` units: a unit
/// starts only below the high-water mark, and not while the pool drains;
/// while units remain to be started, a wait happens only on a full pool or
/// to go on draining down to the low-water mark.
pub open spec fn step_allowed(steps: Seq<PoolStep>, k: int, n: nat, low: nat, high: nat) -> bool {
    let before = in_flight(steps.subrange(0, k));
    match steps[k] {
        PoolStep::Spawn(_) => before < high && (k == 0 || steps[k - 1] is Spawn || before <= low),
        PoolStep::JoinOldest => before > 0 && (started(steps.subrange(0, k)).len() == n || (before
            > low && (before == high || steps[k - 1] is JoinOldest))),
    }
}

proof fn lemma_push(steps: Seq<PoolStep>, x: PoolStep, n: nat, low: nat, high: nat)
    ensures
        steps.push(x).subrange(0, steps.len() as int) == steps,
        in_flight(steps.push(x)) == in_flight(steps) + if x is Spawn { 1int } else { -1int },
        started(steps.push(x)) == match x {
            PoolStep::Spawn(i) => started(steps).push(i),
            PoolStep::JoinOldest => started(steps),
        },
        forall|k: int| 0 <= k <= steps.len() ==> #[trigger] steps.push(x).subrange(0, k) == steps.subrange(0, k),
        forall|k: int| 0 <= k < steps.len() ==> step_allowed(steps, k, n, low, high) ==> #[trigger] step_allowed(steps.push(x), k, n, low, high),
{
    let s = steps.push(x);
    assert(s.drop_last() =~= steps);
    assert(s.subrange(0, steps.len() as int) =~= steps);
    assert forall|k: int| 0 <= k <= steps.len() implies #[trigger] s.subrange(0, k) == steps.subrange(0, k) by {
        assert(s.subrange(0, k) =~= steps.subrange(0, k));
    }
    assert forall|k: int| 0 <= k < steps.len() && step_allowed(steps, k, n, low, high) implies #[trigger] step_allowed(s, k, n, low, high) by {
        assert(s.subrange(0, k) =~= steps.subrange(0, k));
        assert(s[k] == steps[k]);
        if k > 0 {
            assert(s[k - 1] == steps[k - 1]);
        }
    }
}

/// The schedule for `task_count` units: which unit starts when, and when the
/// oldest unit in flight is awaited.
pub fn admission_schedule(task_count: usize, low: usize, high: usize) -> (r: Vec<PoolStep>)
    requires
        low < high,
    ensures
        started(r@) == Seq::new(task_count as nat, |i: int| i as usize),
        in_flight(r@) == 0,
        forall|k: int| 0 <= k <= r@.len() ==> 0 <= #[trigger] in_flight(r@.subrange(0, k)) <= high,
        forall|k: int| 0 <= k < r@.len() ==> #[trigger] step_allowed(r@, k, task_count as nat, low as nat, high as nat),
{
    let ghost n = task_count as nat;
    let mut steps: Vec<PoolStep> = Vec::new();
    let mut active: usize = 0;
    let mut next: usize = 0;
    assert(started(steps@) =~= Seq::new(0, |i: int| i as usize));
    while next < task_count
        invariant
            low < high,
            n == task_count,
            next <= task_count,
            active <= high,
            active == in_flight(steps@),
            started(steps@) == Seq::new(next as nat, |i: int| i as usize),
            forall|k: int| 0 <= k <= steps@.len() ==> 0 <= #[trigger] in_flight(steps@.subrange(0, k)) <= high,
            forall|k: int| 0 <= k < steps@.len() ==> #[trigger] step_allowed(steps@, k, n, low as nat, high as nat),
            steps@.len() == 0 || steps@.last() is Spawn || active <= low,
        decreases 2 * (task_count - next) + if active == high { 1int } else { 0int },
    {
        if active < high {
            let ghost before = steps@;
            steps.push(PoolStep::Spawn(next));
            proof {
                lemma_push(before, PoolStep::Spawn(next), n, low as nat, high as nat);
                assert(steps@.subrange(0, steps@.len() as int) =~= steps@);
                assert(step_allowed(steps@, before.len() as int, n, low as nat, high as nat));
                assert(started(steps@) =~= Seq::new((next + 1) as nat, |i: int| i as usize));
            }
            active = active + 1;
            next = next + 1;
        } else {
            while active > low
                invariant
                    low < high,
                    n == task_count,
                    next < task_count,
                    low <= active <= high,
                    active == in_flight(steps@),
                    started(steps@) == Seq::new(next as nat, |i: int| i as usize),
                    forall|k: int| 0 <= k <= steps@.len() ==> 0 <= #[trigger] in_flight(steps@.subrange(0, k)) <= high,
                    forall|k: int| 0 <= k < steps@.len() ==> #[trigger] step_allowed(steps@, k, n, low as nat, high as nat),
                    active == high || (steps@.len() > 0 && steps@.last() is JoinOldest),
                decreases active,
            {
                let ghost before = steps@;
                steps.push(PoolStep::JoinOldest);
                proof {
                    lemma_push(before, PoolStep::JoinOldest, n, low as nat, high as nat);
                    assert(steps@.subrange(0, steps@.len() as int) =~= steps@);
                    assert(step_allowed(steps@, before.len() as int, n, low as nat, high as nat));
                }
                active = active - 1;
            }
        }
    }
    while active > 0
        invariant
            n == task_count,
            active <= high,
            active == in_flight(steps@),
            started(steps@) == Seq::new(n, |i: int| i as usize),
            forall|k: int| 0 <= k <= steps@.len() ==> 0 <= #[trigger] in_flight(steps@.subrange(0, k)) <= high,
            forall|k: int| 0 <= k < steps@.len() ==> #[trigger] step_allowed(steps@, k, n, low as nat, high as nat),
        decreases active,
    {
        let ghost before = steps@;
        steps.push(PoolStep::JoinOldest);
        proof {
            lemma_push(before, PoolStep::JoinOldest, n, low as nat, high as nat);
            assert(steps@.subrange(0, steps@.len() as int) =~= steps@);
            assert(step_allowed(steps@, before.len() as int, n, low as nat, high as nat));
        }
        active = active - 1;
    }
    steps
}

} // verus!
