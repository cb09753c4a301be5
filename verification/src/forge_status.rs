//! Reporting run statuses back to the forge.
//!
//! A status change waits on the outbox until the forge has taken it. The drain decides, message
//! by message, what to post, what to retire and when to give a message up; the store and the
//! forge are asked elsewhere.

use crate::event::{self, RepoRef, RepoView};
use crate::json::Json;
use crate::metrics::{self, Metrics};
use crate::runs::RunStatus;
use crate::text;
use vstd::prelude::*;

verus! {

/// The states of a commit status.
#[derive(Debug, Clone, Copy, PartialEq, Eq, Structural)]
pub enum StatusState {
    Pending,
    Success,
    Failure,
    Error,
}

/// The commit status that shows a run's status.
pub open spec fn shown_as(s: RunStatus) -> StatusState {
    match s {
        RunStatus::Pending | RunStatus::Running | RunStatus::Suspended => StatusState::Pending,
        RunStatus::Succeeded => StatusState::Success,
        RunStatus::Failed | RunStatus::DeadLettered => StatusState::Failure,
        RunStatus::Cancelled => StatusState::Error,
    }
}

/// The commit status that shows a run's status.
pub fn run_status_to_forge(s: RunStatus) -> (r: StatusState)
    ensures
        r == shown_as(s),
{
    match s {
        RunStatus::Pending | RunStatus::Running | RunStatus::Suspended => StatusState::Pending,
        RunStatus::Succeeded => StatusState::Success,
        RunStatus::Failed | RunStatus::DeadLettered => StatusState::Failure,
        RunStatus::Cancelled => StatusState::Error,
    }
}

/// A commit is done exactly when its run is: only an unfinished run shows as pending.
pub proof fn only_unfinished_runs_are_pending(s: RunStatus)
    ensures
        shown_as(s) == StatusState::Pending <==> s == RunStatus::Pending || s == RunStatus::Running || s
            == RunStatus::Suspended,
{
}

/// A commit shows success exactly when its run succeeded, failure exactly when the run failed or
/// was given up, and an error exactly when it was cancelled.
pub proof fn commits_show_how_their_run_ended(s: RunStatus)
    ensures
        shown_as(s) == StatusState::Success <==> s == RunStatus::Succeeded,
        shown_as(s) == StatusState::Failure <==> s == RunStatus::Failed || s == RunStatus::DeadLettered,
        shown_as(s) == StatusState::Error <==> s == RunStatus::Cancelled,
{
}

/// A commit status.
#[derive(Debug)]
pub struct Status {
    pub context: String,
    pub state: StatusState,
    pub target_url: String,
}

/// The mathematical model of a [`Status`].
pub struct StatusView {
    pub context: Seq<char>,
    pub state: StatusState,
    pub target_url: Seq<char>,
}

impl View for Status {
    type V = StatusView;

    open spec fn view(&self) -> StatusView {
        StatusView { context: self.context@, state: self.state, target_url: self.target_url@ }
    }
}

/// The page of a run.
pub open spec fn run_url(public_url: Seq<char>, run: Seq<char>) -> Seq<char> {
    text::trim_end(public_url, '/') + "/runs/"@ + run
}

/// A status change on the outbox. `to` is the status it announces, where its payload holds one.
#[derive(Debug)]
pub struct OutboxMessage {
    pub id: i64,
    pub run: String,
    pub to: Option<RunStatus>,
}

/// The mathematical model of an [`OutboxMessage`].
pub struct MessageView {
    pub id: i64,
    pub run: Seq<char>,
    pub to: Option<RunStatus>,
}

impl View for OutboxMessage {
    type V = MessageView;

    open spec fn view(&self) -> MessageView {
        MessageView { id: self.id, run: self.run@, to: self.to }
    }
}

pub open spec fn message_views(v: Seq<OutboxMessage>) -> Seq<MessageView> {
    v.map_values(|m: OutboxMessage| m@)
}

/// What the drain wants done.
#[derive(Debug)]
pub enum DrainAction {
    /// Read the raw documents on the run's event log.
    ReadEvents { run: String },
    Post { repo: RepoRef, sha: String, status: Status },
    /// Mark the message as dispatched.
    Retire { id: i64 },
    /// Count a failed delivery of the message.
    RecordFailure { id: i64 },
    /// Take the message off the outbox as undeliverable.
    DeadLetter { id: i64 },
    /// The drain is over; so many statuses were posted, or the store failed.
    Done(Result<usize, String>),
}

/// The mathematical model of a [`DrainAction`].
pub enum DrainActionView {
    ReadEvents { run: Seq<char> },
    Post { repo: RepoView, sha: Seq<char>, status: StatusView },
    Retire { id: i64 },
    RecordFailure { id: i64 },
    DeadLetter { id: i64 },
    Done(Result<usize, Seq<char>>),
}

impl View for DrainAction {
    type V = DrainActionView;

    open spec fn view(&self) -> DrainActionView {
        match self {
            DrainAction::ReadEvents { run } => DrainActionView::ReadEvents { run: run@ },
            DrainAction::Post { repo, sha, status } => DrainActionView::Post {
                repo: repo@,
                sha: sha@,
                status: status@,
            },
            DrainAction::Retire { id } => DrainActionView::Retire { id: *id },
            DrainAction::RecordFailure { id } => DrainActionView::RecordFailure { id: *id },
            DrainAction::DeadLetter { id } => DrainActionView::DeadLetter { id: *id },
            DrainAction::Done(Ok(n)) => DrainActionView::Done(Ok(*n)),
            DrainAction::Done(Err(m)) => DrainActionView::Done(Err(m@)),
        }
    }
}

/// What came of the last action.
#[derive(Debug)]
pub enum DrainEvent {
    /// The raw documents of the run's event log.
    Events(Vec<Json>),
    /// Whether the forge took the status.
    Posted(bool),
    /// The message was retired or taken off.
    Performed,
    /// The message's failed deliveries so far.
    Failures(u32),
    StoreFailed(String),
}

/// What the drain waits for.
#[derive(Debug, Clone, Copy, PartialEq, Eq, Structural)]
pub enum DrainStage {
    AwaitEvents,
    AwaitPost,
    /// The message at hand leaves the outbox; `posted` says whether the forge took it.
    AwaitRetire { posted: bool },
    AwaitCount,
    AwaitDeadLetter,
    Over,
}

/// A drain of claimed messages, of which `next` are done.
#[derive(Debug)]
pub struct StatusDrain {
    pub public_url: String,
    /// The failed deliveries at which a message is given up.
    pub max_attempts: u32,
    pub messages: Vec<OutboxMessage>,
    pub next: usize,
    pub posted: usize,
    pub stage: DrainStage,
}

/// The mathematical model of a [`StatusDrain`].
#[verifier::ext_equal]
pub struct DrainView {
    pub public_url: Seq<char>,
    pub max_attempts: u32,
    pub messages: Seq<MessageView>,
    pub next: int,
    pub posted: int,
    pub stage: DrainStage,
}

impl View for StatusDrain {
    type V = DrainView;

    open spec fn view(&self) -> DrainView {
        DrainView {
            public_url: self.public_url@,
            max_attempts: self.max_attempts,
            messages: message_views(self.messages@),
            next: self.next as int,
            posted: self.posted as int,
            stage: self.stage,
        }
    }
}

impl DrainView {
    /// Unless the drain is over there is a message at hand, and no more statuses were posted than
    /// messages are done.
    pub open spec fn wf(self) -> bool {
        &&& 0 <= self.posted <= self.next <= self.messages.len()
        &&& self.stage != DrainStage::Over ==> self.next < self.messages.len()
    }

    /// What the drain does with the message at `next`, or the end behind the last.
    pub open spec fn resume(self) -> (DrainView, DrainActionView) {
        if self.next < self.messages.len() {
            (
                DrainView { stage: DrainStage::AwaitEvents, ..self },
                DrainActionView::ReadEvents { run: self.messages[self.next].run },
            )
        } else {
            (DrainView { stage: DrainStage::Over, ..self }, DrainActionView::Done(Ok(self.posted as usize)))
        }
    }

    pub open spec fn advance(self, posted: bool) -> (DrainView, DrainActionView) {
        DrainView {
            next: self.next + 1,
            posted: if posted {
                self.posted + 1
            } else {
                self.posted
            },
            ..self
        }.resume()
    }

    pub open spec fn retire(self, posted: bool) -> (DrainView, DrainActionView) {
        (
            DrainView { stage: DrainStage::AwaitRetire { posted }, ..self },
            DrainActionView::Retire { id: self.messages[self.next].id },
        )
    }

    pub open spec fn fail(self, message: Seq<char>) -> (DrainView, DrainActionView) {
        (DrainView { stage: DrainStage::Over, ..self }, DrainActionView::Done(Err(message)))
    }

    /// What follows an outcome. One that was not waited for ends the drain.
    pub open spec fn after(self, ev: DrainEvent) -> (DrainView, DrainActionView) {
        match (self.stage, ev) {
            (_, DrainEvent::StoreFailed(m)) => self.fail(m@),
            (DrainStage::AwaitEvents, DrainEvent::Events(docs)) => match (
                event::first_coords(docs@),
                self.messages[self.next].to,
            ) {
                (Some((repo, sha)), Some(to)) => (
                    DrainView { stage: DrainStage::AwaitPost, ..self },
                    DrainActionView::Post {
                        repo,
                        sha,
                        status: StatusView {
                            context: "scarab"@,
                            state: shown_as(to),
                            target_url: run_url(self.public_url, self.messages[self.next].run),
                        },
                    },
                ),
                _ => self.retire(false),
            },
            (DrainStage::AwaitPost, DrainEvent::Posted(true)) => self.retire(true),
            (DrainStage::AwaitPost, DrainEvent::Posted(false)) => (
                DrainView { stage: DrainStage::AwaitCount, ..self },
                DrainActionView::RecordFailure { id: self.messages[self.next].id },
            ),
            (DrainStage::AwaitCount, DrainEvent::Failures(n)) => if n >= self.max_attempts {
                (
                    DrainView { stage: DrainStage::AwaitDeadLetter, ..self },
                    DrainActionView::DeadLetter { id: self.messages[self.next].id },
                )
            } else {
                self.advance(false)
            },
            (DrainStage::AwaitRetire { posted }, DrainEvent::Performed) => self.advance(posted),
            (DrainStage::AwaitDeadLetter, DrainEvent::Performed) => self.advance(false),
            _ => self.fail("unexpected outcome"@),
        }
    }

    /// What an outcome does to the counters: a counted failure and a message given up each count.
    pub open spec fn counted(self, ev: DrainEvent, m: Metrics) -> Metrics {
        match (self.stage, ev) {
            (DrainStage::AwaitCount, DrainEvent::Failures(_)) => Metrics {
                forge_failures: metrics::bumped(m.forge_failures),
                ..m
            },
            (DrainStage::AwaitDeadLetter, DrainEvent::Performed) => Metrics {
                forge_dead_lettered: metrics::bumped(m.forge_dead_lettered),
                ..m
            },
            _ => m,
        }
    }
}

impl StatusDrain {
    fn resume(&mut self) -> (r: DrainAction)
        requires
            0 <= old(self)@.posted <= old(self)@.next <= old(self)@.messages.len(),
        ensures
            (final(self)@, r@) == old(self)@.resume(),
            final(self)@.wf(),
    {
        if self.next < self.messages.len() {
            self.stage = DrainStage::AwaitEvents;
            DrainAction::ReadEvents { run: self.messages[self.next].run.clone() }
        } else {
            self.stage = DrainStage::Over;
            DrainAction::Done(Ok(self.posted))
        }
    }

    fn advance(&mut self, posted: bool) -> (r: DrainAction)
        requires
            old(self)@.wf(),
            old(self)@.next < old(self)@.messages.len(),
        ensures
            (final(self)@, r@) == old(self)@.advance(posted),
            final(self)@.wf(),
    {
        let n: usize = self.messages.len();
        assert(self.next < n);
        self.next = self.next + 1;
        if posted {
            self.posted = self.posted + 1;
        }
        self.resume()
    }

    fn retire(&mut self, posted: bool) -> (r: DrainAction)
        requires
            old(self)@.wf(),
            old(self)@.next < old(self)@.messages.len(),
        ensures
            (final(self)@, r@) == old(self)@.retire(posted),
            final(self)@.wf(),
    {
        self.stage = DrainStage::AwaitRetire { posted };
        DrainAction::Retire { id: self.messages[self.next].id }
    }

    fn post(&mut self, docs: &Vec<Json>) -> (r: DrainAction)
        requires
            old(self)@.wf(),
            old(self).stage == DrainStage::AwaitEvents,
        ensures
            (final(self)@, r@) == old(self)@.after(DrainEvent::Events(*docs)),
            final(self)@.wf(),
    {
        match (event::run_forge_coords(docs), self.messages[self.next].to) {
            (Some((repo, sha)), Some(to)) => {
                let mut target_url = text::trim_end_char(self.public_url.as_str(), '/');
                target_url.append("/runs/");
                target_url.append(self.messages[self.next].run.as_str());
                self.stage = DrainStage::AwaitPost;
                DrainAction::Post {
                    repo,
                    sha,
                    status: Status { context: "scarab".to_owned(), state: run_status_to_forge(to), target_url },
                }
            },
            _ => self.retire(false),
        }
    }

    /// Take the outcome of the last action, count it, and say what comes next.
    pub fn step(&mut self, ev: DrainEvent, m: &mut Metrics) -> (r: DrainAction)
        requires
            old(self)@.wf(),
        ensures
            (final(self)@, r@) == old(self)@.after(ev),
            final(self)@.wf(),
            *final(m) == old(self)@.counted(ev, *old(m)),
    {
        match (self.stage, ev) {
            (_, DrainEvent::StoreFailed(e)) => {
                self.stage = DrainStage::Over;
                DrainAction::Done(Err(e))
            },
            (DrainStage::AwaitEvents, DrainEvent::Events(docs)) => self.post(&docs),
            (DrainStage::AwaitPost, DrainEvent::Posted(true)) => self.retire(true),
            (DrainStage::AwaitPost, DrainEvent::Posted(false)) => {
                self.stage = DrainStage::AwaitCount;
                DrainAction::RecordFailure { id: self.messages[self.next].id }
            },
            (DrainStage::AwaitCount, DrainEvent::Failures(n)) => {
                metrics::record_forge_status_failure(m);
                if n >= self.max_attempts {
                    self.stage = DrainStage::AwaitDeadLetter;
                    DrainAction::DeadLetter { id: self.messages[self.next].id }
                } else {
                    self.advance(false)
                }
            },
            (DrainStage::AwaitRetire { posted }, DrainEvent::Performed) => self.advance(posted),
            (DrainStage::AwaitDeadLetter, DrainEvent::Performed) => {
                metrics::record_forge_status_dead_lettered(m);
                self.advance(false)
            },
            _ => {
                self.stage = DrainStage::Over;
                DrainAction::Done(Err("unexpected outcome".to_owned()))
            },
        }
    }
}

/// Start draining the claimed messages.
pub fn drain_forge_statuses(public_url: String, max_attempts: u32, messages: Vec<OutboxMessage>) -> (r: (StatusDrain, DrainAction))
    ensures
        (r.0@, r.1@) == (DrainView {
            public_url: public_url@,
            max_attempts,
            messages: message_views(messages@),
            next: 0,
            posted: 0,
            stage: DrainStage::Over,
        }).resume(),
        r.0@.wf(),
{
    let mut d = StatusDrain { public_url, max_attempts, messages, next: 0, posted: 0, stage: DrainStage::Over };
    let a = d.resume();
    (d, a)
}

/// A message is retired only once the forge took its status, or where there is nothing to post:
/// its run came from no forge, or it announces no status.
pub proof fn only_settled_messages_are_retired(d: DrainView, ev: DrainEvent)
    requires
        d.after(ev).1 is Retire,
    ensures
        match ev {
            DrainEvent::Posted(taken) => d.stage == DrainStage::AwaitPost && taken,
            DrainEvent::Events(docs) => d.stage == DrainStage::AwaitEvents && (event::first_coords(docs@) is None
                || d.messages[d.next].to is None),
            _ => false,
        },
        d.after(ev).1->Retire_id == d.messages[d.next].id,
{
}

/// A message whose status the forge refused stays on the outbox, unless it was refused as often
/// as a message may be.
pub proof fn refused_messages_stay_until_poison(d: DrainView, failures: u32)
    requires
        d.stage == DrainStage::AwaitPost,
        d.wf(),
    ensures
        ({
            let (counting, action) = d.after(DrainEvent::Posted(false));
            let (settled, next) = counting.after(DrainEvent::Failures(failures));
            &&& action is RecordFailure
            &&& next is DeadLetter <==> failures >= d.max_attempts
            &&& next !is Retire
            &&& settled.posted == d.posted
        }),
{
}

/// A message that announces a status is posted to the commit that the run's event log names first,
/// as a status that says how the run stands.
pub proof fn every_announced_status_is_posted(
    d: DrainView,
    docs: Vec<Json>,
    i: int,
    owner: Seq<char>,
    name: Seq<char>,
    sha: Seq<char>,
    to: RunStatus,
)
    requires
        d.wf(),
        d.stage == DrainStage::AwaitEvents,
        d.messages[d.next].to == Some(to),
        0 <= i < docs@.len(),
        event::names_commit(docs@[i]@, owner, name, sha),
        forall|j: int| 0 <= j < i ==> event::names_no_commit(#[trigger] docs@[j]@),
    ensures
        ({
            let (next, action) = d.after(DrainEvent::Events(docs));
            &&& next == (DrainView { stage: DrainStage::AwaitPost, ..d })
            &&& action matches DrainActionView::Post { repo, sha: at, status } && {
                &&& repo.owner == owner && repo.name == name && at == sha
                &&& status.state == StatusState::Success <==> to == RunStatus::Succeeded
                &&& status.state == StatusState::Failure <==> to == RunStatus::Failed || to == RunStatus::DeadLettered
                &&& status.state == StatusState::Error <==> to == RunStatus::Cancelled
                &&& status.context == "scarab"@
                &&& status.target_url == text::trim_end(d.public_url, '/') + "/runs/"@ + d.messages[d.next].run
            }
        }),
{
    event::the_first_named_commit_counts(docs@, i, owner, name, sha);
}

/// A message that announces no status, or whose run names no commit, is retired unposted.
pub proof fn silent_messages_are_retired(d: DrainView, docs: Vec<Json>)
    requires
        d.wf(),
        d.stage == DrainStage::AwaitEvents,
        d.messages[d.next].to is None || forall|j: int|
            0 <= j < docs@.len() ==> event::names_no_commit(#[trigger] docs@[j]@),
    ensures
        d.after(DrainEvent::Events(docs)).1 == (DrainActionView::Retire { id: d.messages[d.next].id }),
{
    if d.messages[d.next].to is Some {
        event::unnamed_commits_are_not_found(docs@);
    }
}

/// Each write to the outbox is about the message at hand. A status that the forge took retires its
/// message; one that it refused is counted, and the message is given up exactly when it was refused
/// as often as a message may be.
pub proof fn writes_concern_the_message_at_hand(d: DrainView, ev: DrainEvent)
    requires
        d.wf(),
        d.stage != DrainStage::Over,
    ensures
        d.after(ev).1 matches DrainActionView::Retire { id } ==> id == d.messages[d.next].id,
        d.after(ev).1 matches DrainActionView::RecordFailure { id } ==> id == d.messages[d.next].id,
        d.after(ev).1 matches DrainActionView::DeadLetter { id } ==> id == d.messages[d.next].id,
        d.stage == DrainStage::AwaitPost && (ev matches DrainEvent::Posted(true)) ==> d.after(ev).1 is Retire,
        d.stage == DrainStage::AwaitPost && (ev matches DrainEvent::Posted(false)) ==> d.after(ev).1 is RecordFailure,
        d.stage == DrainStage::AwaitCount && (ev matches DrainEvent::Failures(n) && n >= d.max_attempts) <==> d.after(
            ev,
        ).1 is DeadLetter,
        ev matches DrainEvent::StoreFailed(m) ==> d.after(ev).1 == DrainActionView::Done(Err(m@)),
{
}

/// The failures count exactly the refused posts, the given up ones exactly those that were taken off
/// as undeliverable, and no other gauge moves.
pub proof fn the_counters_count_refusals(d: DrainView, ev: DrainEvent, m: Metrics)
    ensures
        ({
            let n = d.counted(ev, m);
            let refused = d.stage == DrainStage::AwaitCount && ev is Failures;
            let given_up = d.stage == DrainStage::AwaitDeadLetter && ev is Performed;
            &&& n.forge_failures == (if refused {
                (m.forge_failures + 1) % 0x1_0000_0000_0000_0000
            } else {
                m.forge_failures as int
            })
            &&& n.forge_dead_lettered == (if given_up {
                (m.forge_dead_lettered + 1) % 0x1_0000_0000_0000_0000
            } else {
                m.forge_dead_lettered as int
            })
            &&& n == (Metrics { forge_failures: n.forge_failures, forge_dead_lettered: n.forge_dead_lettered, ..m })
        }),
{
}

/// A drain under way: where it stands after the outcomes, and all it asked for.
pub open spec fn drained(start: (DrainView, DrainActionView), evs: Seq<DrainEvent>) -> (DrainView, Seq<DrainActionView>)
    decreases evs.len(),
{
    if evs.len() == 0 {
        (start.0, seq![start.1])
    } else {
        let (d, actions) = drained(start, evs.drop_last());
        let (next, action) = d.after(evs.last());
        (next, actions.push(action))
    }
}

/// The runs whose event logs were asked for, in that order.
pub open spec fn asked_for(actions: Seq<DrainActionView>) -> Seq<Seq<char>>
    decreases actions.len(),
{
    if actions.len() == 0 {
        Seq::empty()
    } else {
        match actions.last() {
            DrainActionView::ReadEvents { run } => asked_for(actions.drop_last()).push(run),
            _ => asked_for(actions.drop_last()),
        }
    }
}

/// How many statuses the forge took.
pub open spec fn taken(evs: Seq<DrainEvent>) -> nat
    decreases evs.len(),
{
    if evs.len() == 0 {
        0
    } else {
        taken(evs.drop_last()) + (if evs.last() matches DrainEvent::Posted(true) {
            1nat
        } else {
            0
        })
    }
}

/// The runs of the first `n` messages.
pub open spec fn runs_of(messages: Seq<MessageView>, n: int) -> Seq<Seq<char>> {
    Seq::new(n as nat, |i: int| messages[i].run)
}

proof fn drains_take_message_by_message(start: DrainView, evs: Seq<DrainEvent>)
    requires
        start.next == 0,
        start.posted == 0,
    ensures
        ({
            let (d, actions) = drained(start.resume(), evs);
            &&& actions.len() == evs.len() + 1
            &&& d.messages == start.messages
            &&& 0 <= d.posted <= d.next <= d.messages.len()
            &&& d.stage != DrainStage::Over ==> {
                &&& d.next < d.messages.len()
                &&& asked_for(actions) == runs_of(d.messages, d.next + 1)
                &&& taken(evs) == d.posted + (if d.stage == (DrainStage::AwaitRetire { posted: true }) {
                    1int
                } else {
                    0
                })
                &&& actions.last() !is Done
            }
            &&& actions.last() matches DrainActionView::Done(Ok(n)) ==> d.stage == DrainStage::Over && asked_for(actions)
                == runs_of(d.messages, d.messages.len() as int) && n == d.posted as usize && d.posted == taken(evs)
        }),
    decreases evs.len(),
{
    reveal_with_fuel(asked_for, 3);
    if evs.len() == 0 {
        let (d, actions) = drained(start.resume(), evs);
        assert(actions.drop_last() =~= Seq::<DrainActionView>::empty());
        if d.stage != DrainStage::Over {
            assert(asked_for(actions) =~= runs_of(d.messages, d.next + 1));
        } else {
            assert(asked_for(actions) =~= runs_of(d.messages, d.messages.len() as int));
        }
    } else {
        drains_take_message_by_message(start, evs.drop_last());
        let (d, actions) = drained(start.resume(), evs.drop_last());
        let (next, action) = d.after(evs.last());
        let all = actions.push(action);
        assert(all.drop_last() =~= actions);
        if next.next == d.next + 1 {
            if next.next < d.messages.len() {
                assert(asked_for(all) =~= runs_of(d.messages, next.next + 1));
            } else {
                assert(asked_for(all) =~= runs_of(d.messages, d.messages.len() as int));
            }
        }
    }
}

/// A drain that ends well has looked at every claimed message, each once and in order, and reports
/// how many statuses the forge took.
pub proof fn a_finished_drain_saw_every_message(start: DrainView, evs: Seq<DrainEvent>, posted: usize)
    requires
        start.next == 0,
        start.posted == 0,
        start.messages.len() <= usize::MAX,
        drained(start.resume(), evs).1.last() == DrainActionView::Done(Ok(posted)),
    ensures
        posted == taken(evs),
        asked_for(drained(start.resume(), evs).1) == start.messages.map_values(|m: MessageView| m.run),
{
    drains_take_message_by_message(start, evs);
    assert(runs_of(start.messages, start.messages.len() as int) =~= start.messages.map_values(|m: MessageView| m.run));
}

/// Every status that is posted links back to its run.
pub proof fn every_status_links_to_its_run(d: DrainView, ev: DrainEvent)
    requires
        d.after(ev).1 is Post,
    ensures
        d.after(ev).1->status.target_url == run_url(d.public_url, d.messages[d.next].run),
        d.after(ev).1->status.context == "scarab"@,
{
}

/// A run's page stands under the server's own address, without trailing slashes.
pub proof fn runs_have_their_page(public_url: Seq<char>, run: Seq<char>)
    ensures
        run_url(public_url, run) == text::trim_end(public_url, '/') + "/runs/"@ + run,
{
}

} // verus!
