//! The host prober: which port of one target is tried next, for how long,
//! and what the target is reported as.
//!
//! A probe is a state machine. Its driver asks for the next action, makes the
//! connection attempt that the action names, and records how the attempt
//! ended together with the time that has passed since the probe began. Times
//! are in nanoseconds.

use crate::address::Target;
use vstd::prelude::*;

verus! {

/// What one target turned out to be. A port and a round-trip time are set
/// exactly when the target is alive.
#[derive(Clone, Copy, Debug, PartialEq, Eq)]
pub struct ScanResult {
    pub ip: Target,
    pub alive: bool,
    /// Time from the start of the probe to the first connection.
    pub rtt: Option<u64>,
    pub open_port: Option<u16>,
}

impl ScanResult {
    pub open spec fn wf(self) -> bool {
        &&& self.alive <==> self.open_port is Some
        &&& self.alive <==> self.rtt is Some
    }

    /// The result for a target that accepted a connection on `port`.
    pub open spec fn alive_on(ip: Target, port: u16, rtt: u64) -> ScanResult {
        ScanResult { ip, alive: true, rtt: Some(rtt), open_port: Some(port) }
    }

    /// The result for a target none of whose ports accepted a connection.
    pub open spec fn not_alive(ip: Target) -> ScanResult {
        ScanResult { ip, alive: false, rtt: None, open_port: None }
    }

    pub fn is_well_formed(&self) -> (r: bool)
        ensures
            r == self.wf(),
    {
        self.alive == self.open_port.is_some() && self.alive == self.rtt.is_some()
    }
}

/// How one connection attempt ended. A refusal, another connection error and
/// a timeout are all `Failed`.
#[derive(Clone, Copy, Debug, PartialEq, Eq, Structural)]
pub enum Attempt {
    Connected,
    Failed,
}

/// What the driver of a probe does next.
#[derive(Clone, Copy, Debug, PartialEq, Eq)]
pub enum ProbeAction {
    /// Try to connect to `port`, and give up after `timeout`.
    Connect { port: u16, timeout: u64 },
    /// Nothing is left to try: this is the target's result.
    Done(ScanResult),
}

/// One answer of the network to a probe: how the attempt ended, and the time
/// since the probe began at which it did.
pub struct Reply {
    pub outcome: Attempt,
    pub at: u64,
}

/// The state of a probe as a mathematical value.
pub struct ProbeView {
    pub target: Target,
    /// The candidate ports, in the order in which they are tried.
    pub ports: Seq<u16>,
    /// The time that the whole probe may take.
    pub budget: u64,
    /// How many ports have been tried and have failed.
    pub tried: nat,
    /// The time since the probe began, as last reported.
    pub elapsed: u64,
    /// The port that accepted a connection and the time at which it did.
    pub found: Option<(u16, u64)>,
}

impl ProbeView {
    /// The state in which a probe begins.
    pub open spec fn begin(target: Target, ports: Seq<u16>, budget: u64) -> ProbeView {
        ProbeView { target, ports, budget, tried: 0, elapsed: 0, found: None }
    }

    pub open spec fn wf(self) -> bool {
        &&& self.ports.len() >= 1
        &&& self.budget >= 1
        &&& self.tried <= self.ports.len()
        &&& self.found matches Some((port, rtt)) ==> self.tried < self.ports.len() && port
            == self.ports[self.tried as int] && rtt == self.elapsed
    }

    /// The target's result, once it is known: alive on the port that
    /// connected; not alive when every port has failed or the budget is spent.
    pub open spec fn result(self) -> Option<ScanResult> {
        match self.found {
            Some((port, rtt)) => Some(ScanResult::alive_on(self.target, port, rtt)),
            None => if self.tried >= self.ports.len() || self.elapsed >= self.budget {
                Some(ScanResult::not_alive(self.target))
            } else {
                None
            },
        }
    }

    /// The share of the remaining time that the next port gets: the time left
    /// is split evenly over the ports not yet tried.
    pub open spec fn slice(self) -> int {
        (self.budget - self.elapsed) / (self.ports.len() - self.tried)
    }

    /// What the driver does in this state.
    pub open spec fn action(self) -> ProbeAction {
        match self.result() {
            Some(r) => ProbeAction::Done(r),
            None => ProbeAction::Connect {
                port: self.ports[self.tried as int],
                timeout: self.slice() as u64,
            },
        }
    }

    /// The state after the pending attempt ended with `outcome` at time `at`.
    /// A finished probe takes no further answers.
    pub open spec fn record(self, outcome: Attempt, at: u64) -> ProbeView {
        if self.result() is Some {
            self
        } else {
            match outcome {
                Attempt::Connected => ProbeView {
                    found: Some((self.ports[self.tried as int], at)),
                    elapsed: at,
                    ..self
                },
                Attempt::Failed => ProbeView { tried: self.tried + 1, elapsed: at, ..self },
            }
        }
    }

    /// The state after the network has given `replies`, one after the other.
    pub open spec fn run(self, replies: Seq<Reply>) -> ProbeView
        decreases replies.len(),
    {
        if replies.len() == 0 {
            self
        } else {
            self.run(replies.drop_last()).record(replies.last().outcome, replies.last().at)
        }
    }
}

/// The probe of one target.
pub struct Probe {
    target: Target,
    ports: Vec<u16>,
    budget: u64,
    tried: usize,
    elapsed: u64,
    found: Option<(u16, u64)>,
}

impl View for Probe {
    type V = ProbeView;

    closed spec fn view(&self) -> ProbeView {
        ProbeView {
            target: self.target,
            ports: self.ports@,
            budget: self.budget,
            tried: self.tried as nat,
            elapsed: self.elapsed,
            found: self.found,
        }
    }
}

impl Probe {
    #[verifier::type_invariant]
    spec fn inv(self) -> bool {
        self@.wf()
    }

    /// Begins the probe of `target`: `ports` are tried in order, within
    /// `timeout` for all of them together.
    pub fn new(target: Target, ports: Vec<u16>, timeout: u64) -> (p: Probe)
        requires
            ports.len() >= 1,
            timeout >= 1,
        ensures
            p@ == ProbeView::begin(target, ports@, timeout),
            p@.wf(),
    {
        Probe { target, ports, budget: timeout, tried: 0, elapsed: 0, found: None }
    }

    /// The target's result, if the probe has finished.
    pub fn result(&self) -> (r: Option<ScanResult>)
        ensures
            r == self@.result(),
            self@.wf(),
    {
        proof {
            use_type_invariant(self);
        }
        match self.found {
            Some((port, rtt)) => Some(
                ScanResult { ip: self.target, alive: true, rtt: Some(rtt), open_port: Some(port) },
            ),
            None => if self.tried >= self.ports.len() || self.elapsed >= self.budget {
                Some(ScanResult { ip: self.target, alive: false, rtt: None, open_port: None })
            } else {
                None
            },
        }
    }

    /// What to do next: the attempt to make, or the result to report.
    pub fn next_action(&self) -> (a: ProbeAction)
        ensures
            a == self@.action(),
            self@.wf(),
    {
        proof {
            use_type_invariant(self);
        }
        match self.result() {
            Some(r) => ProbeAction::Done(r),
            None => {
                let left = self.budget - self.elapsed;
                let untried = (self.ports.len() - self.tried) as u64;
                proof {
                    assert(0 <= (left as int) / (untried as int) <= left) by (nonlinear_arith)
                        requires
                            left >= 0,
                            untried >= 1,
                    ;
                }
                ProbeAction::Connect { port: self.ports[self.tried], timeout: left / untried }
            },
        }
    }

    /// Records how the pending attempt ended, `at` being the time since the
    /// probe began. A finished probe is left as it is.
    pub fn record(&mut self, outcome: Attempt, at: u64)
        ensures
            final(self)@ == old(self)@.record(outcome, at),
            final(self)@.wf(),
    {
        proof {
            use_type_invariant(&*self);
        }
        if self.result().is_some() {
            return ;
        }
        assert(self.tried < self.ports.len());
        self.elapsed = at;
        match outcome {
            Attempt::Connected => {
                self.found = Some((self.ports[self.tried], at));
            },
            Attempt::Failed => {
                self.tried = self.tried + 1;
            },
        }
    }
}

/// Recording an answer keeps a probe well formed.
pub proof fn lemma_record_wf(p: ProbeView, outcome: Attempt, at: u64)
    requires
        p.wf(),
    ensures
        p.record(outcome, at).wf(),
{
}

/// A finished probe stays finished, with the same result, whatever the
/// network answers afterwards.
pub proof fn lemma_result_final(p: ProbeView, replies: Seq<Reply>)
    requires
        p.result() is Some,
    ensures
        p.run(replies) == p,
    decreases replies.len(),
{
    if replies.len() > 0 {
        lemma_result_final(p, replies.drop_last());
    }
}

/// Running a probe on `first` and then on `rest` is running it on both.
pub proof fn lemma_run_concat(p: ProbeView, first: Seq<Reply>, rest: Seq<Reply>)
    ensures
        p.run(first + rest) == p.run(first).run(rest),
    decreases rest.len(),
{
    if rest.len() > 0 {
        lemma_run_concat(p, first, rest.drop_last());
        assert((first + rest).drop_last() =~= first + rest.drop_last());
    }
}

/// While every attempt fails before the budget is spent, the ports are tried
/// one after the other, each of them once.
pub proof fn lemma_failures_advance(p: ProbeView, replies: Seq<Reply>)
    requires
        p.wf(),
        p == ProbeView::begin(p.target, p.ports, p.budget),
        replies.len() <= p.ports.len(),
        forall|j: int|
            0 <= j < replies.len() ==> (#[trigger] replies[j]).outcome == Attempt::Failed
                && replies[j].at < p.budget,
    ensures
        p.run(replies).tried == replies.len(),
        p.run(replies).found is None,
        p.run(replies).wf(),
        p.run(replies).ports == p.ports,
        p.run(replies).budget == p.budget,
        p.run(replies).target == p.target,
        replies.len() > 0 ==> p.run(replies).elapsed == replies.last().at,
    decreases replies.len(),
{
    if replies.len() > 0 {
        lemma_failures_advance(p, replies.drop_last());
    }
}

/// First match wins: when the ports before the `k`-th fail and the `k`-th
/// connects, the target is reported alive on the `k`-th port, with the time of
/// that connection, and no later answer changes the report.
pub proof fn lemma_first_match_wins(p: ProbeView, replies: Seq<Reply>, k: int)
    requires
        p.wf(),
        p == ProbeView::begin(p.target, p.ports, p.budget),
        0 <= k < replies.len(),
        k < p.ports.len(),
        forall|j: int|
            0 <= j < k ==> (#[trigger] replies[j]).outcome == Attempt::Failed && replies[j].at
                < p.budget,
        replies[k].outcome == Attempt::Connected,
    ensures
        p.run(replies).result() == Some(
            ScanResult::alive_on(p.target, p.ports[k], replies[k].at),
        ),
{
    let failed = replies.take(k);
    let upto = replies.take(k + 1);
    let rest = replies.skip(k + 1);
    lemma_failures_advance(p, failed);
    assert(upto.drop_last() =~= failed);
    lemma_result_final(p.run(upto), rest);
    lemma_run_concat(p, upto, rest);
    assert(upto + rest =~= replies);
}

/// A target on which every attempt fails is never reported alive. Once
/// every port has been tried, and whenever the probe has finished, it is
/// reported as not alive, without port or round-trip time.
pub proof fn lemma_all_failed_is_dead(p: ProbeView, replies: Seq<Reply>)
    requires
        p.wf(),
        p == ProbeView::begin(p.target, p.ports, p.budget),
        forall|j: int| 0 <= j < replies.len() ==> (#[trigger] replies[j]).outcome == Attempt::Failed,
    ensures
        p.run(replies).wf(),
        p.run(replies).found is None,
        p.run(replies).target == p.target,
        p.run(replies).ports == p.ports,
        p.run(replies).budget == p.budget,
        p.run(replies).result() is None ==> p.run(replies).tried == replies.len(),
        p.run(replies).result() is Some ==> p.run(replies).result() == Some(
            ScanResult::not_alive(p.target),
        ),
        replies.len() >= p.ports.len() ==> p.run(replies).result() == Some(
            ScanResult::not_alive(p.target),
        ),
    decreases replies.len(),
{
    if replies.len() > 0 {
        lemma_all_failed_is_dead(p, replies.drop_last());
    }
}

/// The time budget: an attempt begins only before the budget is spent, and
/// the time it is given ends within the budget. So when every attempt ends at
/// most `overshoot` after the time it was given, the probe never takes more
/// than its budget and `overshoot`.
pub proof fn lemma_budget_respected(p: ProbeView, outcome: Attempt, at: u64, overshoot: nat)
    requires
        p.wf(),
        p.action() is Connect,
        at <= p.elapsed + p.slice() + overshoot,
    ensures
        p.elapsed < p.budget,
        0 <= p.slice(),
        p.elapsed + p.slice() <= p.budget,
        p.action() == (ProbeAction::Connect {
            port: p.ports[p.tried as int],
            timeout: p.slice() as u64,
        }),
        p.record(outcome, at).elapsed <= p.budget + overshoot,
        p.record(outcome, at).result() matches Some(r) ==> r.wf() && (r.rtt matches Some(t) ==> t
            <= p.budget + overshoot),
{
    let left = p.budget - p.elapsed;
    let untried = p.ports.len() - p.tried;
    assert(0 <= left / untried <= left) by (nonlinear_arith)
        requires
            left >= 0,
            untried >= 1,
    ;
}

} // verus!
