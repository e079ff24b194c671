//! The scan coordinator: which target is started next, how many probes are
//! in flight, and where each result goes.
//!
//! The coordinator is a state machine. Its driver asks it what to do: start
//! the probe of a target, wait for one of the probes in flight, or stop. It
//! hands back each result as the probe that found it ends, in whatever order
//! the probes end. The report lists the targets in ascending order.

use crate::address::Target;
use crate::enumerate::strictly_ascending;
use crate::limiter::Limiter;
use crate::probe::ScanResult;
use vstd::prelude::*;

verus! {

/// Where the probe of one target stands.
#[derive(Clone, Copy, Debug, PartialEq, Eq)]
pub enum Slot {
    /// Not started yet.
    Waiting,
    /// In flight: it holds a slot of the limiter.
    Running,
    /// Ended, with this result.
    Done(ScanResult),
}

/// A kind of target that the coordinator keeps count of.
pub enum Tally {
    Running,
    Done,
    Alive,
}

pub open spec fn counts(slot: Slot, tally: Tally) -> bool {
    match tally {
        Tally::Running => slot is Running,
        Tally::Done => slot is Done,
        Tally::Alive => slot matches Slot::Done(r) && r.alive,
    }
}

/// How many of `slots` are of the kind `tally`.
pub open spec fn count(slots: Seq<Slot>, tally: Tally) -> nat
    decreases slots.len(),
{
    if slots.len() == 0 {
        0
    } else {
        count(slots.drop_last(), tally) + if counts(slots.last(), tally) {
            1nat
        } else {
            0nat
        }
    }
}

/// What the driver of a scan does next.
#[derive(Clone, Copy, Debug, PartialEq, Eq)]
pub enum Dispatch {
    /// Start the probe of `target`, the `index`-th of the scan. A slot of the
    /// limiter has been taken for it.
    Start { index: usize, target: Target },
    /// Every slot is taken, or every target is started: wait for a probe in
    /// flight to end.
    Wait,
    /// Every target has its result.
    Finished,
}

/// The running counters of a scan.
#[derive(Clone, Copy, Debug, PartialEq, Eq)]
pub struct Progress {
    /// Targets whose result is in.
    pub completed: usize,
    /// Those of them that are alive.
    pub alive: usize,
    /// Targets of the scan.
    pub total: usize,
    /// Whether a progress line is due: after every `report_every` results and
    /// after the last one, where the scan reports progress at all.
    pub due: bool,
}

/// The state of a scan as a mathematical value.
pub struct CoordinatorView {
    pub targets: Seq<Target>,
    pub slots: Seq<Slot>,
    /// The most probes that may be in flight at once.
    pub capacity: nat,
    pub active: nat,
    /// The targets before this index have been started.
    pub dispatched: nat,
    pub completed: nat,
    pub alive: nat,
    /// After how many results a progress line is due; 0 for none.
    pub report_every: nat,
}

impl CoordinatorView {
    /// The state in which a scan begins.
    pub open spec fn begin(targets: Seq<Target>, capacity: nat, report_every: nat) -> Self {
        CoordinatorView {
            targets,
            slots: Seq::new(targets.len(), |i: int| Slot::Waiting),
            capacity,
            active: 0,
            dispatched: 0,
            completed: 0,
            alive: 0,
            report_every,
        }
    }

    pub open spec fn wf(self) -> bool {
        &&& strictly_ascending(self.targets)
        &&& self.slots.len() == self.targets.len()
        &&& self.capacity >= 1
        &&& self.dispatched <= self.targets.len()
        &&& forall|i: int|
            0 <= i < self.slots.len() ==> ((#[trigger] self.slots[i]) is Waiting <==> i
                >= self.dispatched)
        &&& forall|i: int|
            0 <= i < self.slots.len() ==> ((#[trigger] self.slots[i]) matches Slot::Done(r)
                ==> r.ip == self.targets[i] && r.wf())
        &&& self.active == count(self.slots, Tally::Running)
        &&& self.completed == count(self.slots, Tally::Done)
        &&& self.alive == count(self.slots, Tally::Alive)
        &&& self.active <= self.capacity
        &&& self.alive <= self.completed
        &&& self.active + self.completed == self.dispatched
    }

    /// Whether a probe may be started: a target is left and a slot is free.
    pub open spec fn can_start(self) -> bool {
        self.dispatched < self.targets.len() && self.active < self.capacity
    }

    /// The state after the next target has been started.
    pub open spec fn started(self) -> Self {
        CoordinatorView {
            slots: self.slots.update(self.dispatched as int, Slot::Running),
            active: self.active + 1,
            dispatched: self.dispatched + 1,
            ..self
        }
    }

    /// Whether `result` is taken as the result of the `index`-th target: its
    /// probe is in flight, and the result is a well-formed one for it.
    pub open spec fn accepts(self, index: int, result: ScanResult) -> bool {
        &&& 0 <= index < self.slots.len()
        &&& self.slots[index] is Running
        &&& result.ip == self.targets[index]
        &&& result.wf()
    }

    /// The state after the `index`-th target has ended with `result`.
    pub open spec fn completed_with(self, index: int, result: ScanResult) -> Self {
        CoordinatorView {
            slots: self.slots.update(index, Slot::Done(result)),
            active: (self.active - 1) as nat,
            completed: self.completed + 1,
            alive: self.alive + if result.alive {
                1nat
            } else {
                0nat
            },
            ..self
        }
    }

    /// Whether every target has its result.
    pub open spec fn finished(self) -> bool {
        self.completed == self.targets.len()
    }

    pub open spec fn progress(self) -> Progress {
        Progress {
            completed: self.completed as usize,
            alive: self.alive as usize,
            total: self.targets.len() as usize,
            due: self.report_every > 0 && (self.completed % self.report_every == 0
                || self.completed == self.targets.len()),
        }
    }

    /// The results in the order of the targets.
    pub open spec fn report(self) -> Seq<ScanResult> {
        Seq::new(self.slots.len(), |i: int| self.slots[i]->Done_0)
    }
}

/// Changing one slot changes a count by what that slot counted for.
pub proof fn lemma_count_update(slots: Seq<Slot>, i: int, slot: Slot, tally: Tally)
    requires
        0 <= i < slots.len(),
    ensures
        count(slots.update(i, slot), tally) + (if counts(slots[i], tally) {
            1nat
        } else {
            0nat
        }) == count(slots, tally) + (if counts(slot, tally) {
            1nat
        } else {
            0nat
        }),
    decreases slots.len(),
{
    if i == slots.len() - 1 {
        assert(slots.update(i, slot).drop_last() =~= slots.drop_last());
    } else {
        lemma_count_update(slots.drop_last(), i, slot, tally);
        assert(slots.update(i, slot).drop_last() =~= slots.drop_last().update(i, slot));
    }
}

/// A count is the length exactly when every slot counts, and never more.
pub proof fn lemma_count_all(slots: Seq<Slot>, tally: Tally)
    ensures
        count(slots, tally) <= slots.len(),
        count(slots, tally) == slots.len() <==> forall|i: int|
            0 <= i < slots.len() ==> counts(#[trigger] slots[i], tally),
        count(slots, tally) == 0 <==> forall|i: int|
            0 <= i < slots.len() ==> !counts(#[trigger] slots[i], tally),
    decreases slots.len(),
{
    if slots.len() > 0 {
        let before = slots.drop_last();
        lemma_count_all(before, tally);
        assert(forall|i: int| 0 <= i < before.len() ==> before[i] == slots[i]);
    }
}

/// A scan begins well formed.
pub proof fn lemma_begin_wf(targets: Seq<Target>, capacity: nat, report_every: nat)
    requires
        strictly_ascending(targets),
        capacity >= 1,
    ensures
        CoordinatorView::begin(targets, capacity, report_every).wf(),
{
    let c = CoordinatorView::begin(targets, capacity, report_every);
    lemma_count_all(c.slots, Tally::Running);
    lemma_count_all(c.slots, Tally::Done);
    lemma_count_all(c.slots, Tally::Alive);
}

/// Starting a probe keeps a scan well formed.
pub proof fn lemma_started_wf(c: CoordinatorView)
    requires
        c.wf(),
        c.can_start(),
    ensures
        c.started().wf(),
{
    let i = c.dispatched as int;
    lemma_count_update(c.slots, i, Slot::Running, Tally::Running);
    lemma_count_update(c.slots, i, Slot::Running, Tally::Done);
    lemma_count_update(c.slots, i, Slot::Running, Tally::Alive);
}

/// Taking a result keeps a scan well formed.
pub proof fn lemma_completed_wf(c: CoordinatorView, index: int, result: ScanResult)
    requires
        c.wf(),
        c.accepts(index, result),
    ensures
        c.completed_with(index, result).wf(),
        c.active >= 1,
        c.completed < c.targets.len(),
{
    lemma_count_update(c.slots, index, Slot::Done(result), Tally::Running);
    lemma_count_update(c.slots, index, Slot::Done(result), Tally::Done);
    lemma_count_update(c.slots, index, Slot::Done(result), Tally::Alive);
    lemma_count_all(c.slots, Tally::Running);
}

/// At no time are more probes in flight than the limit allows: the targets
/// whose probe is running are as many as the limiter's slots that are held,
/// and those are at most the capacity.
pub proof fn lemma_in_flight_bounded(c: CoordinatorView)
    requires
        c.wf(),
    ensures
        count(c.slots, Tally::Running) == c.active,
        count(c.slots, Tally::Running) <= c.capacity,
{
}

/// Every result comes before all that follow it, by the address of its host.
pub open spec fn ascending_by_address(results: Seq<ScanResult>) -> bool {
    forall|i: int, j: int|
        0 <= i < j < results.len() ==> results[i].ip.value() < results[j].ip.value()
}

/// A scan comes to rest only when it is finished: while a target lacks its
/// result, either a probe can be started or one is in flight.
pub proof fn lemma_idle_is_finished(c: CoordinatorView)
    requires
        c.wf(),
    ensures
        (!c.can_start() && c.active == 0) <==> c.finished(),
        c.finished() ==> c.dispatched == c.targets.len(),
{
    lemma_count_all(c.slots, Tally::Done);
}

/// The report of a finished scan holds one result for each target, at the
/// target's own place: none is left out and none occurs twice. As the targets
/// ascend, so does the report, in whatever order the results came in.
pub proof fn lemma_report_complete(c: CoordinatorView)
    requires
        c.wf(),
        c.finished(),
    ensures
        c.report().len() == c.targets.len(),
        forall|i: int|
            0 <= i < c.targets.len() ==> c.slots[i] == Slot::Done(#[trigger] c.report()[i])
                && c.report()[i].ip == c.targets[i] && c.report()[i].wf(),
        ascending_by_address(c.report()),
        c.active == 0,
        c.dispatched == c.targets.len(),
{
    lemma_count_all(c.slots, Tally::Done);
}

/// The coordinator of one scan.
pub struct Coordinator {
    targets: Vec<Target>,
    slots: Vec<Slot>,
    limiter: Limiter,
    dispatched: usize,
    completed: usize,
    alive: usize,
    report_every: usize,
}

impl View for Coordinator {
    type V = CoordinatorView;

    closed spec fn view(&self) -> CoordinatorView {
        CoordinatorView {
            targets: self.targets@,
            slots: self.slots@,
            capacity: self.limiter@.capacity,
            active: self.limiter@.active,
            dispatched: self.dispatched as nat,
            completed: self.completed as nat,
            alive: self.alive as nat,
            report_every: self.report_every as nat,
        }
    }
}

/// Marks the next target as running and takes a slot for it.
fn start_next(slots: &mut Vec<Slot>, limiter: &mut Limiter, dispatched: &mut usize)
    requires
        *old(dispatched) < old(slots).len(),
        old(limiter)@.active < old(limiter)@.capacity,
    ensures
        final(slots)@ == old(slots)@.update(*old(dispatched) as int, Slot::Running),
        final(limiter)@.capacity == old(limiter)@.capacity,
        final(limiter)@.active == old(limiter)@.active + 1,
        *final(dispatched) == *old(dispatched) + 1,
    no_unwind
{
    limiter.try_acquire();
    slots[*dispatched] = Slot::Running;
    *dispatched = *dispatched + 1;
}

/// Puts `result` in the place of the `index`-th target, gives its slot back
/// and counts it.
fn finish(
    slots: &mut Vec<Slot>,
    limiter: &mut Limiter,
    completed: &mut usize,
    alive: &mut usize,
    index: usize,
    result: ScanResult,
)
    requires
        index < old(slots).len(),
        old(limiter)@.active >= 1,
        *old(alive) <= *old(completed) < old(slots).len(),
    ensures
        final(slots)@ == old(slots)@.update(index as int, Slot::Done(result)),
        final(limiter)@.capacity == old(limiter)@.capacity,
        final(limiter)@.active == old(limiter)@.active - 1,
        *final(completed) == *old(completed) + 1,
        *final(alive) == *old(alive) + if result.alive {
            1nat
        } else {
            0nat
        },
    no_unwind
{
    slots[index] = Slot::Done(result);
    limiter.release();
    *completed = *completed + 1;
    if result.alive {
        *alive = *alive + 1;
    }
}

impl Coordinator {
    #[verifier::type_invariant]
    spec fn inv(self) -> bool {
        self@.wf()
    }

    /// Begins the scan of `targets`, with at most `max_concurrent` probes in
    /// flight at once. A progress line is due after every `report_every`
    /// results, or never if that is 0.
    pub fn new(targets: Vec<Target>, max_concurrent: usize, report_every: usize) -> (c:
        Coordinator)
        requires
            strictly_ascending(targets@),
            max_concurrent >= 1,
        ensures
            c@ == CoordinatorView::begin(targets@, max_concurrent as nat, report_every as nat),
            c@.wf(),
    {
        let mut slots: Vec<Slot> = Vec::new();
        let mut i: usize = 0;
        while i < targets.len()
            invariant
                0 <= i <= targets.len(),
                slots.len() == i,
                forall|k: int| 0 <= k < i ==> slots[k] == Slot::Waiting,
            decreases targets.len() - i,
        {
            slots.push(Slot::Waiting);
            i = i + 1;
        }
        let limiter = Limiter::new(max_concurrent);
        proof {
            let begin = CoordinatorView::begin(
                targets@,
                max_concurrent as nat,
                report_every as nat,
            );
            assert(slots@ =~= begin.slots);
            lemma_begin_wf(targets@, max_concurrent as nat, report_every as nat);
        }
        Coordinator { targets, slots, limiter, dispatched: 0, completed: 0, alive: 0, report_every }
    }

    /// What to do next. Where a target is left and a slot is free, the slot is
    /// taken and the target's probe is to be started. A scan is finished
    /// exactly when every target has its result.
    pub fn dispatch(&mut self) -> (d: Dispatch)
        ensures
            final(self)@.wf(),
            old(self)@.can_start() ==> final(self)@ == old(self)@.started() && d == (
            Dispatch::Start {
                index: old(self)@.dispatched as usize,
                target: old(self)@.targets[old(self)@.dispatched as int],
            }),
            !old(self)@.can_start() ==> final(self)@ == old(self)@ && d == if old(self)@.active
                > 0 {
                Dispatch::Wait
            } else {
                Dispatch::Finished
            },
            d is Finished <==> old(self)@.finished(),
    {
        proof {
            use_type_invariant(&*self);
            lemma_idle_is_finished(self@);
        }
        let active = self.limiter.active();
        if self.dispatched < self.targets.len() && active < self.limiter.capacity() {
            let index = self.dispatched;
            let target = self.targets[index];
            proof {
                lemma_started_wf(self@);
            }
            start_next(&mut self.slots, &mut self.limiter, &mut self.dispatched);
            Dispatch::Start { index, target }
        } else if active > 0 {
            Dispatch::Wait
        } else {
            Dispatch::Finished
        }
    }

    /// Takes `result` as the result of the `index`-th target and frees its
    /// slot, if that target's probe is in flight and the result is a
    /// well-formed one for it. Otherwise nothing changes.
    pub fn complete(&mut self, index: usize, result: ScanResult) -> (p: Option<Progress>)
        ensures
            final(self)@.wf(),
            old(self)@.accepts(index as int, result) ==> final(self)@ == old(self)@.completed_with(
                index as int,
                result,
            ) && p == Some(final(self)@.progress()),
            !old(self)@.accepts(index as int, result) ==> final(self)@ == old(self)@ && p is None,
    {
        proof {
            use_type_invariant(&*self);
        }
        if index >= self.slots.len() {
            return None;
        }
        let running = match self.slots[index] {
            Slot::Running => true,
            _ => false,
        };
        if !running || result.ip != self.targets[index] || !result.is_well_formed() {
            return None;
        }
        proof {
            lemma_completed_wf(self@, index as int, result);
        }
        finish(
            &mut self.slots,
            &mut self.limiter,
            &mut self.completed,
            &mut self.alive,
            index,
            result,
        );
        Some(self.progress())
    }

    /// The running counters.
    pub fn progress(&self) -> (p: Progress)
        ensures
            self@.wf(),
            p == self@.progress(),
    {
        proof {
            use_type_invariant(self);
        }
        let total = self.targets.len();
        let due = self.report_every > 0 && (self.completed % self.report_every == 0
            || self.completed == total);
        Progress { completed: self.completed, alive: self.alive, total, due }
    }

    /// The number of probes in flight, which is never above the limit.
    pub fn in_flight(&self) -> (n: usize)
        ensures
            self@.wf(),
            n == self@.active,
            n <= self@.capacity,
    {
        proof {
            use_type_invariant(self);
        }
        self.limiter.active()
    }

    /// The results in ascending order of their targets, one for each target,
    /// once every target has one.
    pub fn report(&self) -> (r: Option<Vec<ScanResult>>)
        ensures
            self@.wf(),
            r is Some <==> self@.finished(),
            r matches Some(v) ==> v@ == self@.report() && v@.len() == self@.targets.len()
                && ascending_by_address(v@) && forall|i: int|
                0 <= i < v@.len() ==> (#[trigger] v@[i]).ip == self@.targets[i] && v@[i].wf(),
    {
        proof {
            use_type_invariant(self);
        }
        if self.completed != self.targets.len() {
            return None;
        }
        proof {
            lemma_report_complete(self@);
        }
        let mut results: Vec<ScanResult> = Vec::new();
        let mut i: usize = 0;
        while i < self.slots.len()
            invariant
                0 <= i <= self.slots.len(),
                self.slots.len() == self@.report().len(),
                forall|k: int|
                    0 <= k < self.slots.len() ==> self.slots@[k] == Slot::Done(
                        #[trigger] self@.report()[k],
                    ),
                results@ == self@.report().take(i as int),
            decreases self.slots.len() - i,
        {
            assert(self.slots@[i as int] == Slot::Done(self@.report()[i as int]));
            if let Slot::Done(result) = self.slots[i] {
                results.push(result);
            }
            i = i + 1;
        }
        Some(results)
    }
}

} // verus!
