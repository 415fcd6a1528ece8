//! Debouncing: a burst of change notifications becomes one delayed trigger,
//! fired once no notification has come for a quiet window.

use vstd::prelude::*;

verus! {

/// What the watch loop hands the debouncer: a change notification, or a
/// wake-up of its own, each with the time (in milliseconds) at which it came.
#[derive(Clone, Copy, Debug, PartialEq, Eq, Structural)]
pub enum Step {
    Change(u64),
    Tick(u64),
}

/// A resettable timer: pending or not, with one deadline.
#[derive(Clone, Copy, Debug, PartialEq, Eq, Structural)]
pub struct Debouncer {
    /// The quiet window, in milliseconds.
    pub window: u64,
    /// A trigger is waiting to fire.
    pub pending: bool,
    /// When the waiting trigger fires.
    pub deadline: u64,
}

/// The time at which a step came.
pub open spec fn step_time(s: Step) -> u64 {
    match s {
        Step::Change(t) => t,
        Step::Tick(t) => t,
    }
}

/// `t + w`, held at the largest time where it would pass it.
pub open spec fn later_by(t: u64, w: u64) -> u64 {
    if t as int + w as int > u64::MAX as int {
        u64::MAX
    } else {
        (t + w) as u64
    }
}

/// The debouncer after one step, and whether the trigger fired on it. A
/// change (re)starts the timer; a tick fires a pending trigger whose deadline
/// has come.
pub open spec fn after_step(d: Debouncer, s: Step) -> (Debouncer, bool) {
    match s {
        Step::Change(t) => (Debouncer { pending: true, deadline: later_by(t, d.window), ..d }, false),
        Step::Tick(t) => {
            if d.pending && t >= d.deadline {
                (Debouncer { pending: false, ..d }, true)
            } else {
                (d, false)
            }
        },
    }
}

/// The debouncer after a run of steps, and how many times it fired.
pub open spec fn run(d: Debouncer, steps: Seq<Step>) -> (Debouncer, nat)
    decreases steps.len(),
{
    if steps.len() == 0 {
        (d, 0)
    } else {
        let (d1, n) = run(d, steps.drop_last());
        let (d2, fired) = after_step(d1, steps.last());
        (d2, if fired { n + 1 } else { n })
    }
}

impl Debouncer {
    /// A debouncer with the given quiet window and nothing pending.
    pub fn new(window: u64) -> (r: Debouncer)
        ensures
            r == (Debouncer { window, pending: false, deadline: 0 }),
    {
        Debouncer { window, pending: false, deadline: 0 }
    }

    /// Takes one step; true where the trigger fires on it.
    pub fn step(&mut self, s: Step) -> (r: bool)
        ensures
            (*final(self), r) == after_step(*old(self), s),
    {
        match s {
            Step::Change(t) => {
                self.pending = true;
                self.deadline = if t > u64::MAX - self.window {
                    u64::MAX
                } else {
                    t + self.window
                };
                false
            },
            Step::Tick(t) => {
                if self.pending && t >= self.deadline {
                    self.pending = false;
                    true
                } else {
                    false
                }
            },
        }
    }

    /// How long the loop may sleep at time `now` before the next tick is due;
    /// `None` where nothing is pending.
    pub fn wait_time(&self, now: u64) -> (r: Option<u64>)
        ensures
            !self.pending ==> r is None,
            self.pending && now >= self.deadline ==> r == Some(0u64),
            self.pending && now < self.deadline ==> r == Some((self.deadline - now) as u64),
    {
        if !self.pending {
            None
        } else if now >= self.deadline {
            Some(0)
        } else {
            Some(self.deadline - now)
        }
    }
}

/// Step times never go back.
pub open spec fn in_time_order(steps: Seq<Step>) -> bool {
    forall|i: int, j: int| 0 <= i <= j < steps.len() ==> step_time(steps[i]) <= step_time(steps[j])
}

/// Index of the last change among the first `n` steps, or -1.
pub open spec fn last_change(steps: Seq<Step>, n: int) -> int
    decreases n,
{
    if n <= 0 {
        -1
    } else if steps[n - 1] is Change {
        n - 1
    } else {
        last_change(steps, n - 1)
    }
}

/// The number of changes among the steps.
pub open spec fn change_count(steps: Seq<Step>) -> nat
    decreases steps.len(),
{
    if steps.len() == 0 {
        0
    } else {
        change_count(steps.drop_last()) + if steps.last() is Change { 1nat } else { 0nat }
    }
}

/// Between the change at `e` and step `n`, a tick came once the window had
/// passed.
pub open spec fn due_tick_between(steps: Seq<Step>, e: int, n: int, w: u64) -> bool {
    exists|k: int|
        e < k < n && steps[k] is Tick && #[trigger] step_time(steps[k]) >= step_time(steps[e]) + w
}

/// Each change comes less than the window after the change before it.
pub open spec fn close_changes(steps: Seq<Step>, w: u64) -> bool {
    forall|j: int|
        0 <= j < steps.len() && #[trigger] steps[j] is Change && last_change(steps, j) >= 0
            ==> step_time(steps[j]) < step_time(steps[last_change(steps, j)]) + w
}

/// No change comes so late that its deadline would pass the largest time.
pub open spec fn no_saturation(steps: Seq<Step>, w: u64) -> bool {
    forall|i: int| 0 <= i < steps.len() ==> step_time(#[trigger] steps[i]) + w <= u64::MAX
}

proof fn lemma_last_change_bounds(steps: Seq<Step>, n: int)
    requires
        0 <= n <= steps.len(),
    ensures
        -1 <= last_change(steps, n) < n,
        last_change(steps, n) >= 0 ==> steps[last_change(steps, n)] is Change,
        forall|k: int| last_change(steps, n) < k < n ==> !(#[trigger] steps[k] is Change),
    decreases n,
{
    if n > 0 && !(steps[n - 1] is Change) {
        lemma_last_change_bounds(steps, n - 1);
    }
}

proof fn lemma_burst_prefix(d: Debouncer, steps: Seq<Step>, n: int)
    requires
        !d.pending,
        0 <= n <= steps.len(),
        in_time_order(steps),
        close_changes(steps, d.window),
        no_saturation(steps, d.window),
    ensures
        ({
            let (dn, fired) = run(d, steps.subrange(0, n));
            let e = last_change(steps, n);
            &&& dn.window == d.window
            &&& e < 0 ==> dn == d && fired == 0
            &&& e >= 0 ==> dn.deadline == step_time(steps[e]) + d.window
            &&& e >= 0 ==> (if due_tick_between(steps, e, n, d.window) {
                !dn.pending && fired == 1
            } else {
                dn.pending && fired == 0
            })
        }),
    decreases n,
{
    if n > 0 {
        lemma_burst_prefix(d, steps, n - 1);
        lemma_last_change_bounds(steps, n);
        lemma_last_change_bounds(steps, n - 1);
        let pre = steps.subrange(0, n);
        assert(pre.drop_last() =~= steps.subrange(0, n - 1));
        assert(pre.last() == steps[n - 1]);
        let e = last_change(steps, n - 1);
        let w = d.window;
        if steps[n - 1] is Change {
            if e >= 0 {
                assert(step_time(steps[n - 1]) < step_time(steps[e]) + w);
                if due_tick_between(steps, e, n - 1, w) {
                    let k = choose|k: int|
                        e < k < n - 1 && steps[k] is Tick && #[trigger] step_time(steps[k])
                            >= step_time(steps[e]) + w;
                    assert(step_time(steps[k]) <= step_time(steps[n - 1]));
                }
            }
            assert(!due_tick_between(steps, n - 1, n, w));
        } else {
            if e >= 0 {
                if due_tick_between(steps, e, n - 1, w) {
                    let k = choose|k: int|
                        e < k < n - 1 && steps[k] is Tick && #[trigger] step_time(steps[k])
                            >= step_time(steps[e]) + w;
                    assert(due_tick_between(steps, e, n, w));
                } else if step_time(steps[n - 1]) >= step_time(steps[e]) + w {
                    assert(due_tick_between(steps, e, n, w));
                } else {
                    assert forall|k: int|
                        e < k < n && steps[k] is Tick implies !(#[trigger] step_time(steps[k])
                        >= step_time(steps[e]) + w) by {
                        if k < n - 1 {
                            assert(!(e < k < n - 1 && steps[k] is Tick && step_time(steps[k])
                                >= step_time(steps[e]) + w));
                        }
                    }
                }
            }
        }
    }
}

/// A burst: where each change comes less than the window after the one
/// before it, the trigger fires exactly once, provided the loop wakes once
/// the window has passed after the last change (and at no time does a
/// deadline pass the largest time).
pub proof fn lemma_burst_fires_once(d: Debouncer, steps: Seq<Step>, last: int, due: int)
    requires
        !d.pending,
        in_time_order(steps),
        close_changes(steps, d.window),
        no_saturation(steps, d.window),
        0 <= last < due < steps.len(),
        steps[last] is Change,
        forall|k: int| last < k < steps.len() ==> !(#[trigger] steps[k] is Change),
        steps[due] is Tick,
        step_time(steps[due]) >= step_time(steps[last]) + d.window,
    ensures
        run(d, steps).1 == 1,
{
    let n = steps.len() as int;
    lemma_burst_prefix(d, steps, n);
    lemma_last_change_bounds(steps, n);
    assert(steps.subrange(0, n) =~= steps);
    assert(due_tick_between(steps, last, n, d.window));
}

/// Each change comes more than the window after the change before it.
pub open spec fn spaced_changes(steps: Seq<Step>, w: u64) -> bool {
    forall|j: int|
        0 <= j < steps.len() && #[trigger] steps[j] is Change && last_change(steps, j) >= 0
            ==> step_time(steps[j]) > step_time(steps[last_change(steps, j)]) + w
}

/// After each change the loop wakes once the window has passed, before the
/// next change comes or the run ends.
pub open spec fn wakes_after_each_change(steps: Seq<Step>, w: u64) -> bool {
    &&& forall|j: int|
        0 <= j < steps.len() && #[trigger] steps[j] is Change && last_change(steps, j) >= 0
            ==> due_tick_between(steps, last_change(steps, j), j, w)
    &&& last_change(steps, steps.len() as int) >= 0 ==> due_tick_between(
        steps,
        last_change(steps, steps.len() as int),
        steps.len() as int,
        w,
    )
}

proof fn lemma_spaced_prefix(d: Debouncer, steps: Seq<Step>, n: int)
    requires
        !d.pending,
        0 <= n <= steps.len(),
        in_time_order(steps),
        wakes_after_each_change(steps, d.window),
        no_saturation(steps, d.window),
    ensures
        ({
            let (dn, fired) = run(d, steps.subrange(0, n));
            let e = last_change(steps, n);
            let c = change_count(steps.subrange(0, n));
            &&& dn.window == d.window
            &&& e < 0 ==> dn == d && fired == 0 && c == 0
            &&& e >= 0 ==> dn.deadline == step_time(steps[e]) + d.window
            &&& e >= 0 ==> (if due_tick_between(steps, e, n, d.window) {
                !dn.pending && fired == c
            } else {
                dn.pending && fired + 1 == c
            })
        }),
    decreases n,
{
    if n > 0 {
        lemma_spaced_prefix(d, steps, n - 1);
        lemma_last_change_bounds(steps, n);
        lemma_last_change_bounds(steps, n - 1);
        let pre = steps.subrange(0, n);
        assert(pre.drop_last() =~= steps.subrange(0, n - 1));
        assert(pre.last() == steps[n - 1]);
        let e = last_change(steps, n - 1);
        let w = d.window;
        if steps[n - 1] is Change {
            assert(!due_tick_between(steps, n - 1, n, w));
        } else {
            if e >= 0 {
                if due_tick_between(steps, e, n - 1, w) {
                    let k = choose|k: int|
                        e < k < n - 1 && steps[k] is Tick && #[trigger] step_time(steps[k])
                            >= step_time(steps[e]) + w;
                    assert(due_tick_between(steps, e, n, w));
                } else if step_time(steps[n - 1]) >= step_time(steps[e]) + w {
                    assert(due_tick_between(steps, e, n, w));
                } else {
                    assert forall|k: int|
                        e < k < n && steps[k] is Tick implies !(#[trigger] step_time(steps[k])
                        >= step_time(steps[e]) + w) by {
                        if k < n - 1 {
                            assert(!(e < k < n - 1 && steps[k] is Tick && step_time(steps[k])
                                >= step_time(steps[e]) + w));
                        }
                    }
                }
            }
        }
    }
}

/// Spaced changes: where each change comes more than the window after the
/// one before it, and the loop wakes once the window has passed after each
/// change, the trigger fires once per change.
pub proof fn lemma_spaced_changes_fire_each(d: Debouncer, steps: Seq<Step>)
    requires
        !d.pending,
        in_time_order(steps),
        spaced_changes(steps, d.window),
        wakes_after_each_change(steps, d.window),
        no_saturation(steps, d.window),
    ensures
        run(d, steps).1 == change_count(steps),
{
    let n = steps.len() as int;
    lemma_spaced_prefix(d, steps, n);
    assert(steps.subrange(0, n) =~= steps);
}

} // verus!
