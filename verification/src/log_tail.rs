//! Which log streams are tailed, and how loudly a failed tail is reported.
//!
//! A fence names one log stream: one attempt of a step, or of a service beside it. A tail is
//! best effort: whatever becomes of it, the run goes on. Times are milliseconds of a clock that
//! never goes back.

use crate::text;
use vstd::prelude::*;

verus! {

/// Cool-down before a fence whose last tail failed is tailed again.
pub const RETRY_BACKOFF: u64 = 3_000;

/// How long a pod may sit in a benign state before its start and stay quiet.
pub const NOT_READY_GRACE: u64 = 180_000;

/// A stuck tail is restated at most this often.
pub const STUCK_WARN_INTERVAL: u64 = 60_000;

/// How long a claim to tail a fence holds.
pub const TAIL_LEASE_TTL_MS: i64 = 45_000;

/// How loudly a tail error is reported.
#[derive(Debug, Clone, Copy, PartialEq, Eq, Structural)]
pub enum TailErrorClass {
    /// Expected: the container is not up yet.
    Quiet,
    /// A state before the start that outlasted the grace period.
    StuckNotReady,
    /// A genuine failure of the tail.
    Failed,
}

/// The error only says that the pod has not started its container.
pub open spec fn not_ready(err: Seq<char>) -> bool {
    text::contains(err, "PodInitializing"@) || text::contains(err, "ContainerCreating"@)
}

/// Whether the error only says that the pod has not started its container yet.
pub fn is_pod_not_ready(err: &str) -> (r: bool)
    ensures
        r == not_ready(err@),
{
    text::has_substring(err, "PodInitializing") || text::has_substring(err, "ContainerCreating")
}

pub open spec fn tail_class(err: Seq<char>, not_ready_for: u64, since_last_warn: Option<u64>) -> TailErrorClass {
    if !not_ready(err) {
        TailErrorClass::Failed
    } else if not_ready_for < NOT_READY_GRACE {
        TailErrorClass::Quiet
    } else {
        match since_last_warn {
            Some(d) if d < STUCK_WARN_INTERVAL => TailErrorClass::Quiet,
            _ => TailErrorClass::StuckNotReady,
        }
    }
}

/// How loudly to report a tail error: a genuine one always, a pod that is not ready only once it
/// outlasted the grace period, and then not more often than the interval allows.
pub fn classify_tail_error(err: &str, not_ready_for: u64, since_last_warn: Option<u64>) -> (r: TailErrorClass)
    ensures
        r == tail_class(err@, not_ready_for, since_last_warn),
{
    if !is_pod_not_ready(err) {
        return TailErrorClass::Failed;
    }
    if not_ready_for < NOT_READY_GRACE {
        return TailErrorClass::Quiet;
    }
    match since_last_warn {
        None => TailErrorClass::StuckNotReady,
        Some(d) => if d >= STUCK_WARN_INTERVAL {
            TailErrorClass::StuckNotReady
        } else {
            TailErrorClass::Quiet
        },
    }
}

/// One log stream.
#[derive(Debug)]
pub struct Fence {
    pub run: String,
    pub step: String,
    pub attempt: String,
}

/// The mathematical model of a [`Fence`].
pub struct FenceView {
    pub run: Seq<char>,
    pub step: Seq<char>,
    pub attempt: Seq<char>,
}

impl View for Fence {
    type V = FenceView;

    open spec fn view(&self) -> FenceView {
        FenceView { run: self.run@, step: self.step@, attempt: self.attempt@ }
    }
}

impl Fence {
    fn same(&self, other: &Fence) -> (r: bool)
        ensures
            r == (self@ == other@),
    {
        self.run == other.run && self.step == other.step && self.attempt == other.attempt
    }

    fn copy(&self) -> (r: Fence)
        ensures
            r@ == self@,
    {
        Fence { run: self.run.clone(), step: self.step.clone(), attempt: self.attempt.clone() }
    }
}

/// A tail to start: the stream it drains into, and the name of the claim it needs.
#[derive(Debug)]
pub struct Tail {
    pub fence: Fence,
    pub resource: String,
}

/// The name of the claim to tail a step's attempt.
pub fn step_resource(fence: &Fence) -> (r: String)
    ensures
        r@ == "tail:"@ + fence@.run + ":"@ + fence@.step + ":"@ + fence@.attempt,
{
    let mut s: String = "tail:".to_owned();
    s.append(fence.run.as_str());
    s.append(":");
    s.append(fence.step.as_str());
    s.append(":");
    s.append(fence.attempt.as_str());
    s
}

/// The name of the claim to tail a shared service, in the attempt its stream is kept under.
pub fn service_resource(run: &str, name: &str, attempt: &str) -> (r: String)
    ensures
        r@ == "tail:"@ + run@ + ":service:"@ + name@ + ":"@ + attempt@,
{
    let mut s: String = "tail:".to_owned();
    s.append(run);
    s.append(":service:");
    s.append(name);
    s.append(":");
    s.append(attempt);
    s
}

/// The name of the claim to tail a sidecar service of a step's attempt.
pub fn sidecar_resource(run: &str, step: &str, index: u64, attempt: &str) -> (r: String)
    ensures
        r@ == "tail:"@ + run@ + ":"@ + step@ + ":sidecar-"@ + text::decimal(index as nat) + ":"@ + attempt@,
{
    let mut s: String = "tail:".to_owned();
    s.append(run);
    s.append(":");
    s.append(step);
    s.append(":sidecar-");
    s.append(text::u64_to_string(index).as_str());
    s.append(":");
    s.append(attempt);
    s
}

/// The container that a sidecar service runs in.
pub fn sidecar_container(index: u64) -> (r: String)
    ensures
        r@ == "service-"@ + text::decimal(index as nat),
{
    let mut s: String = "service-".to_owned();
    s.append(text::u64_to_string(index).as_str());
    s
}

/// The step name that a sidecar service's stream is kept under.
pub fn sidecar_stream_key(step: &str, index: u64) -> (r: String)
    ensures
        r@ == step@ + "::service-"@ + text::decimal(index as nat),
{
    let mut s: String = step.to_owned();
    s.append("::service-");
    s.append(text::u64_to_string(index).as_str());
    s
}

/// Since when a fence's tail keeps failing before the start, and when that was last escalated.
#[derive(Debug, Clone, Copy, PartialEq, Eq, Structural)]
pub struct NotReady {
    pub since: u64,
    pub last_warn: Option<u64>,
}

/// What is known of a fence: a tail in flight, a stream drained to its end, the earliest time of
/// the next try, and a streak of failures before the start.
#[derive(Debug, Clone, Copy, PartialEq, Eq, Structural)]
pub struct FenceState {
    pub active: bool,
    pub drained: bool,
    pub retry_at: Option<u64>,
    pub not_ready: Option<NotReady>,
}

/// A fence nothing is known of.
pub open spec fn unknown() -> FenceState {
    FenceState { active: false, drained: false, retry_at: None, not_ready: None }
}

/// What happens to a fence.
pub enum TailEvent {
    /// A driver tick asks for a tail.
    Wanted { now: u64 },
    /// The claim is held elsewhere or could not be had.
    Refused { now: u64 },
    /// The stream was drained to its end.
    Drained,
    /// The tail ended in an error.
    Broke { err: Seq<char>, now: u64 },
}

pub open spec fn later(now: u64, by: u64) -> u64 {
    if now + by > u64::MAX {
        u64::MAX
    } else {
        (now + by) as u64
    }
}

pub open spec fn elapsed(now: u64, since: u64) -> u64 {
    if now < since {
        0
    } else {
        (now - since) as u64
    }
}

/// A tick that asks for a tail gets one: the stream is not drained, the fence is not backing off
/// and no tail is in flight.
pub open spec fn startable(s: FenceState, now: u64) -> bool {
    !s.drained && !s.active && (s.retry_at matches Some(at) ==> at <= now)
}

/// The streak a failure before the start belongs to.
pub open spec fn streak(s: FenceState, now: u64) -> NotReady {
    match s.not_ready {
        Some(n) => n,
        None => NotReady { since: now, last_warn: None },
    }
}

/// How loudly an error of a fence's tail is reported, and for how long it has not been ready.
pub open spec fn reported(s: FenceState, err: Seq<char>, now: u64) -> (TailErrorClass, u64) {
    if not_ready(err) {
        let n = streak(s, now);
        let stuck_for = elapsed(now, n.since);
        let since_warn = match n.last_warn {
            Some(w) => Some(elapsed(now, w)),
            None => None,
        };
        (tail_class(err, stuck_for, since_warn), stuck_for)
    } else {
        (TailErrorClass::Failed, 0)
    }
}

/// The fence after an event.
pub open spec fn after(s: FenceState, ev: TailEvent) -> FenceState {
    match ev {
        TailEvent::Wanted { now } => FenceState { active: s.active || startable(s, now), ..s },
        TailEvent::Refused { now } => FenceState { active: false, retry_at: Some(later(now, RETRY_BACKOFF)), ..s },
        TailEvent::Drained => FenceState { active: false, drained: true, retry_at: None, not_ready: None },
        TailEvent::Broke { err, now } => FenceState {
            active: false,
            retry_at: Some(later(now, RETRY_BACKOFF)),
            not_ready: if not_ready(err) {
                if reported(s, err, now).0 == TailErrorClass::StuckNotReady {
                    Some(NotReady { last_warn: Some(now), ..streak(s, now) })
                } else {
                    Some(streak(s, now))
                }
            } else {
                None
            },
            ..s
        },
    }
}

/// The fences that something is known of.
#[derive(Debug)]
pub struct LogTailer {
    pub fences: Vec<(Fence, FenceState)>,
}

pub open spec fn last_known(fences: Seq<(Fence, FenceState)>, f: FenceView) -> FenceState
    decreases fences.len(),
{
    if fences.len() == 0 {
        unknown()
    } else if fences.last().0@ == f {
        fences.last().1
    } else {
        last_known(fences.drop_last(), f)
    }
}

/// What the tailer does with a claim to tail.
#[derive(Debug, Clone, Copy, PartialEq, Eq, Structural)]
pub enum ClaimAction {
    /// Tail, and renew the claim after each interval of so many milliseconds.
    Tail { renew_every_ms: u64 },
    /// Leave the fence to its holder.
    BackOff,
}

impl LogTailer {
    /// What is known of a fence.
    pub open spec fn state_of(self, f: FenceView) -> FenceState {
        last_known(self.fences@, f)
    }

    pub fn new() -> (r: LogTailer)
        ensures
            forall|f: FenceView| #[trigger] r.state_of(f) == unknown(),
    {
        LogTailer { fences: Vec::new() }
    }

    fn find(&self, f: &Fence) -> (r: Option<usize>)
        ensures
            match r {
                Some(i) => i < self.fences@.len() && self.fences@[i as int].0@ == f@ && self.fences@[i as int].1
                    == self.state_of(f@) && forall|j: int|
                    i < j < self.fences@.len() ==> (#[trigger] self.fences@[j]).0@ != f@,
                None => self.state_of(f@) == unknown() && forall|j: int|
                    0 <= j < self.fences@.len() ==> (#[trigger] self.fences@[j]).0@ != f@,
            },
    {
        let mut i: usize = self.fences.len();
        assert(self.fences@.take(i as int) =~= self.fences@);
        while i > 0
            invariant
                i <= self.fences@.len(),
                self.state_of(f@) == last_known(self.fences@.take(i as int), f@),
                forall|j: int| i <= j < self.fences@.len() ==> (#[trigger] self.fences@[j]).0@ != f@,
            decreases i,
        {
            let ghost seen = self.fences@.take(i as int);
            i = i - 1;
            assert(seen.drop_last() =~= self.fences@.take(i as int));
            assert(seen.last() == self.fences@[i as int]);
            if self.fences[i].0.same(f) {
                return Some(i);
            }
        }
        None
    }

    fn set(&mut self, f: &Fence, s: FenceState)
        ensures
            forall|g: FenceView|
                #[trigger] final(self).state_of(g) == (if g == f@ {
                    s
                } else {
                    old(self).state_of(g)
                }),
    {
        let ghost before = self.fences@;
        match self.find(f) {
            Some(i) => {
                let copy = f.copy();
                self.fences.set(i, (copy, s));
                proof {
                    let now = self.fences@;
                    assert forall|g: FenceView|
                        #[trigger] last_known(now, g) == (if g == f@ {
                            s
                        } else {
                            last_known(before, g)
                        }) by {
                        replaced_at(before, now, i as int, f@, s, g);
                    }
                }
            },
            None => {
                self.fences.push((f.copy(), s));
                proof {
                    assert(self.fences@.drop_last() =~= before);
                }
            },
        }
    }

    /// Asks for a tail of the fence; whether one is to be started.
    pub fn ensure(&mut self, fence: &Fence, now: u64) -> (r: bool)
        ensures
            r == startable(old(self).state_of(fence@), now),
            final(self).state_of(fence@) == after(old(self).state_of(fence@), TailEvent::Wanted { now }),
            forall|g: FenceView| g != fence@ ==> #[trigger] final(self).state_of(g) == old(self).state_of(g),
    {
        let s: FenceState = match self.find(fence) {
            Some(i) => self.fences[i].1,
            None => FenceState { active: false, drained: false, retry_at: None, not_ready: None },
        };
        if s.drained {
            return false;
        }
        match s.retry_at {
            Some(at) => {
                if now < at {
                    return false;
                }
            },
            None => {},
        }
        if s.active {
            return false;
        }
        self.set(fence, FenceState { active: true, drained: s.drained, retry_at: s.retry_at, not_ready: s.not_ready });
        true
    }

    /// Asks for a tail of a shared service's instance, which keeps its log under the step and the
    /// attempt of `stream`; the tail to start, if one is.
    pub fn ensure_service(&mut self, run: &str, name: &str, stream: (&str, &str), now: u64) -> (r: Option<Tail>)
        ensures
            ({
                let f = FenceView { run: run@, step: stream.0@, attempt: stream.1@ };
                &&& r is Some <==> startable(old(self).state_of(f), now)
                &&& r matches Some(t) ==> t.fence@ == f && t.resource@ == "tail:"@ + run@ + ":service:"@ + name@ + ":"@
                    + stream.1@
                &&& final(self).state_of(f) == after(old(self).state_of(f), TailEvent::Wanted { now })
                &&& forall|g: FenceView| g != f ==> #[trigger] final(self).state_of(g) == old(self).state_of(g)
            }),
    {
        let fence = Fence { run: run.to_owned(), step: stream.0.to_owned(), attempt: stream.1.to_owned() };
        if self.ensure(&fence, now) {
            let resource = service_resource(run, name, stream.1);
            Some(Tail { fence, resource })
        } else {
            None
        }
    }

    /// Asks for a tail of the sidecar at `index` of a step's current attempt; the tail to start,
    /// if one is. A step without an attempt has nothing to tail.
    pub fn ensure_sidecar(&mut self, run: &str, step: &str, attempt: Option<&str>, index: u64, now: u64) -> (r: Option<Tail>)
        ensures
            match attempt {
                None => r is None && *final(self) == *old(self),
                Some(a) => {
                    let f = FenceView {
                        run: run@,
                        step: step@ + "::service-"@ + text::decimal(index as nat),
                        attempt: a@,
                    };
                    &&& r is Some <==> startable(old(self).state_of(f), now)
                    &&& r matches Some(t) ==> t.fence@ == f && t.resource@ == "tail:"@ + run@ + ":"@ + step@
                        + ":sidecar-"@ + text::decimal(index as nat) + ":"@ + a@
                    &&& final(self).state_of(f) == after(old(self).state_of(f), TailEvent::Wanted { now })
                    &&& forall|g: FenceView| g != f ==> #[trigger] final(self).state_of(g) == old(self).state_of(g)
                },
            },
    {
        match attempt {
            None => None,
            Some(a) => {
                let key = sidecar_stream_key(step, index);
                let fence = Fence { run: run.to_owned(), step: key, attempt: a.to_owned() };
                if self.ensure(&fence, now) {
                    let resource = sidecar_resource(run, step, index, a);
                    Some(Tail { fence, resource })
                } else {
                    None
                }
            },
        }
    }

    /// The claim to tail was answered: with its holder, or not at all.
    pub fn claimed(&mut self, fence: &Fence, owner: &str, holder: Option<&str>, now: u64) -> (r: ClaimAction)
        ensures
            match holder {
                Some(h) if h@ == owner@ => r == (ClaimAction::Tail { renew_every_ms: 15_000 }) && *final(self) == *old(self),
                _ => r == ClaimAction::BackOff && final(self).state_of(fence@) == after(
                    old(self).state_of(fence@),
                    TailEvent::Refused { now },
                ),
            },
            forall|g: FenceView| g != fence@ ==> #[trigger] final(self).state_of(g) == old(self).state_of(g),
    {
        match holder {
            Some(h) => {
                if text::str_eq(h, owner) {
                    return ClaimAction::Tail { renew_every_ms: (TAIL_LEASE_TTL_MS / 3) as u64 };
                }
            },
            None => {},
        }
        let s: FenceState = match self.find(fence) {
            Some(i) => self.fences[i].1,
            None => FenceState { active: false, drained: false, retry_at: None, not_ready: None },
        };
        self.set(
            fence,
            FenceState {
                active: false,
                drained: s.drained,
                retry_at: Some(now.saturating_add(RETRY_BACKOFF)),
                not_ready: s.not_ready,
            },
        );
        ClaimAction::BackOff
    }

    /// The stream was drained to its end.
    pub fn drained(&mut self, fence: &Fence)
        ensures
            final(self).state_of(fence@) == after(old(self).state_of(fence@), TailEvent::Drained),
            forall|g: FenceView| g != fence@ ==> #[trigger] final(self).state_of(g) == old(self).state_of(g),
    {
        self.set(fence, FenceState { active: false, drained: true, retry_at: None, not_ready: None });
    }

    /// The tail ended in an error; how loudly to report it, and for how long the fence has not
    /// been ready.
    pub fn broke(&mut self, fence: &Fence, err: &str, now: u64) -> (r: (TailErrorClass, u64))
        ensures
            r == reported(old(self).state_of(fence@), err@, now),
            final(self).state_of(fence@) == after(old(self).state_of(fence@), TailEvent::Broke { err: err@, now }),
            forall|g: FenceView| g != fence@ ==> #[trigger] final(self).state_of(g) == old(self).state_of(g),
    {
        let s: FenceState = match self.find(fence) {
            Some(i) => self.fences[i].1,
            None => FenceState { active: false, drained: false, retry_at: None, not_ready: None },
        };
        let retry_at: Option<u64> = Some(now.saturating_add(RETRY_BACKOFF));
        if is_pod_not_ready(err) {
            let n: NotReady = match s.not_ready {
                Some(n) => n,
                None => NotReady { since: now, last_warn: None },
            };
            let stuck_for: u64 = now.saturating_sub(n.since);
            let since_warn: Option<u64> = match n.last_warn {
                Some(w) => Some(now.saturating_sub(w)),
                None => None,
            };
            let class = classify_tail_error(err, stuck_for, since_warn);
            let last_warn: Option<u64> = match class {
                TailErrorClass::StuckNotReady => Some(now),
                _ => n.last_warn,
            };
            self.set(
                fence,
                FenceState {
                    active: false,
                    drained: s.drained,
                    retry_at,
                    not_ready: Some(NotReady { since: n.since, last_warn }),
                },
            );
            (class, stuck_for)
        } else {
            self.set(fence, FenceState { active: false, drained: s.drained, retry_at, not_ready: None });
            (TailErrorClass::Failed, 0)
        }
    }
}

proof fn replaced_at(
    before: Seq<(Fence, FenceState)>,
    now: Seq<(Fence, FenceState)>,
    i: int,
    f: FenceView,
    s: FenceState,
    g: FenceView,
)
    requires
        0 <= i < before.len(),
        before.len() == now.len(),
        before[i].0@ == f,
        now[i].0@ == f,
        now[i].1 == s,
        forall|j: int| 0 <= j < now.len() && j != i ==> #[trigger] now[j] == before[j],
        forall|j: int| i < j < before.len() ==> (#[trigger] before[j]).0@ != f,
    ensures
        last_known(now, g) == (if g == f {
            s
        } else {
            last_known(before, g)
        }),
    decreases before.len(),
{
    if i == before.len() - 1 {
        assert(now.drop_last() =~= before.drop_last());
    } else {
        let k = before.len() - 1;
        assert(now[k] == before[k]);
        assert(now.drop_last()[i] == now[i]);
        assert(before.drop_last()[i] == before[i]);
        replaced_at(before.drop_last(), now.drop_last(), i, f, s, g);
    }
}

/// A stream that was drained to its end is never tailed again: no event makes it undrained, and
/// no tick starts a tail of it.
pub proof fn a_drained_stream_stays_drained(s: FenceState, ev: TailEvent, now: u64)
    requires
        s.drained,
    ensures
        after(s, ev).drained,
        !startable(after(s, ev), now),
{
}

/// While a tail is in flight no tick starts a second one.
pub proof fn one_tail_at_a_time(s: FenceState, first: u64, second: u64)
    requires
        startable(s, first),
    ensures
        after(s, TailEvent::Wanted { now: first }).active,
        !startable(after(s, TailEvent::Wanted { now: first }), second),
{
}

/// After a refused claim or an error no tail starts before the cool-down is over.
pub proof fn failures_back_off(s: FenceState, err: Seq<char>, failed: u64, now: u64)
    requires
        now < failed + RETRY_BACKOFF,
        failed + RETRY_BACKOFF <= u64::MAX,
    ensures
        !startable(after(s, TailEvent::Broke { err, now: failed }), now),
        !startable(after(s, TailEvent::Refused { now: failed }), now),
{
}

/// Within one streak of failures before the start, two escalations are at least the interval
/// apart.
pub proof fn escalations_are_rare(s: FenceState, err: Seq<char>, again: Seq<char>, first: u64, second: u64)
    requires
        not_ready(err),
        not_ready(again),
        reported(s, err, first).0 == TailErrorClass::StuckNotReady,
        first <= second < first + STUCK_WARN_INTERVAL,
    ensures
        reported(after(s, TailEvent::Broke { err, now: first }), again, second).0 == TailErrorClass::Quiet,
{
}

/// A pod that never starts does not stay silent: once its streak outlasts the grace period an
/// error that was not escalated before is.
pub proof fn a_stuck_pod_surfaces(s: FenceState, err: Seq<char>, now: u64)
    requires
        not_ready(err),
        s.not_ready matches Some(n) && n.last_warn is None && n.since + NOT_READY_GRACE <= now,
    ensures
        reported(s, err, now).0 == TailErrorClass::StuckNotReady,
{
}

/// One chunk of a tail: whether it is to be appended, and the total afterwards. An empty chunk
/// is skipped.
pub fn pump_log_stream(total: u64, chunk: &Vec<u8>) -> (r: (bool, u64))
    ensures
        r.0 == (chunk@.len() > 0),
        r.1 == (if total + chunk@.len() > u64::MAX {
            u64::MAX as int
        } else {
            total + chunk@.len()
        }),
{
    (chunk.len() > 0, total.saturating_add(chunk.len() as u64))
}

/// A stream that nothing is known of is tailed at the first tick, and one whose tail failed or
/// whose claim was refused is tailed again from the end of the cool-down, three seconds later.
pub proof fn failed_tails_are_tried_again(s: FenceState, err: Seq<char>, failed: u64, now: u64)
    requires
        failed + 3_000 <= now,
    ensures
        startable(unknown(), now),
        !s.drained ==> startable(after(s, TailEvent::Broke { err, now: failed }), now),
        !s.drained ==> startable(after(s, TailEvent::Refused { now: failed }), now),
        startable(s, now) ==> after(s, TailEvent::Wanted { now }) == (FenceState { active: true, ..s }),
        !startable(s, now) ==> after(s, TailEvent::Wanted { now }) == s,
        after(s, TailEvent::Drained).drained,
{
}

/// A genuine error is always reported and ends the streak of failures before the start. An error
/// before the start is quiet for the first three minutes of its streak, then escalated, and
/// escalated again a minute after the last time.
pub proof fn errors_are_as_loud_as_they_matter(s: FenceState, err: Seq<char>, now: u64)
    ensures
        !not_ready(err) ==> reported(s, err, now).0 == TailErrorClass::Failed && after(
            s,
            TailEvent::Broke { err, now },
        ).not_ready is None,
        not_ready(err) && s.not_ready is None ==> {
            &&& reported(s, err, now) == (TailErrorClass::Quiet, 0u64)
            &&& after(s, TailEvent::Broke { err, now }).not_ready == Some(NotReady { since: now, last_warn: None })
        },
        not_ready(err) ==> (s.not_ready matches Some(n) ==> {
            let class = reported(s, err, now).0;
            &&& now < n.since + 180_000 ==> class == TailErrorClass::Quiet
            &&& n.since + 180_000 <= now && (n.last_warn matches Some(w) ==> w + 60_000 <= now) ==> class
                == TailErrorClass::StuckNotReady
            &&& n.since <= now ==> reported(s, err, now).1 == now - n.since
            &&& after(s, TailEvent::Broke { err, now }).not_ready == Some(
                if class == TailErrorClass::StuckNotReady {
                    NotReady { since: n.since, last_warn: Some(now) }
                } else {
                    n
                },
            )
        }),
{
}

/// Only the two states before a container's start say that a pod is not ready.
pub proof fn pods_not_ready_say_so(before: Seq<char>, behind: Seq<char>)
    ensures
        not_ready(before + "PodInitializing"@ + behind),
        not_ready(before + "ContainerCreating"@ + behind),
        forall|err: Seq<char>|
            !text::contains(err, "PodInitializing"@) && !text::contains(err, "ContainerCreating"@) ==> !(#[trigger] not_ready(
                err,
            )),
{
    let a = before + "PodInitializing"@ + behind;
    let b = before + "ContainerCreating"@ + behind;
    assert(a.subrange(before.len() as int, before.len() as int + "PodInitializing"@.len()) =~= "PodInitializing"@);
    assert(text::occurs_at(a, "PodInitializing"@, before.len() as int));
    assert(b.subrange(before.len() as int, before.len() as int + "ContainerCreating"@.len()) =~= "ContainerCreating"@);
    assert(text::occurs_at(b, "ContainerCreating"@, before.len() as int));
}

} // verus!
