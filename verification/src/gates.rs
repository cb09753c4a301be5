//! Gates: who approved one, when it is released, and what a step's results must prove.
//!
//! Approving a gate alternates reads and writes of the store with decisions. [`ApproveGate`]
//! hands out one action after another and takes the outcome of each.

use crate::errors::{self, ApiError, ApiErrorView, RerunError};
use crate::persist::{DeployContext, DeployView};
use crate::text;
use vstd::prelude::*;

verus! {

/// An event of a run's log, as far as gates read it.
#[derive(Debug)]
pub enum RunEvent {
    GateApproved { step: String, by: String },
    Other,
}

/// The mathematical model of a [`RunEvent`].
pub enum RunEventView {
    GateApproved { step: Seq<char>, by: Seq<char> },
    Other,
}

impl View for RunEvent {
    type V = RunEventView;

    open spec fn view(&self) -> RunEventView {
        match self {
            RunEvent::GateApproved { step, by } => RunEventView::GateApproved { step: step@, by: by@ },
            RunEvent::Other => RunEventView::Other,
        }
    }
}

pub open spec fn event_views(v: Seq<RunEvent>) -> Seq<RunEventView> {
    v.map_values(|e: RunEvent| e@)
}

/// Who approved the step, each once, in the order of their first approval.
pub open spec fn approvers_of(events: Seq<RunEventView>, step: Seq<char>) -> Seq<Seq<char>>
    decreases events.len(),
{
    if events.len() == 0 {
        Seq::empty()
    } else {
        let before = approvers_of(events.drop_last(), step);
        match events.last() {
            RunEventView::GateApproved { step: s, by } => if s == step && !before.contains(by) {
                before.push(by)
            } else {
                before
            },
            RunEventView::Other => before,
        }
    }
}

/// The distinct principals who approved a gate, in the order of their approvals.
pub fn gate_approvers(events: &Vec<RunEvent>, step: &str) -> (r: Vec<String>)
    ensures
        text::views(r@) == approvers_of(event_views(events@), step@),
{
    let ghost all = event_views(events@);
    let mut out: Vec<String> = Vec::new();
    let mut i: usize = 0;
    assert(text::views(out@) =~= approvers_of(all.take(0), step@));
    while i < events.len()
        invariant
            i <= events@.len(),
            all == event_views(events@),
            text::views(out@) == approvers_of(all.take(i as int), step@),
        decreases events@.len() - i,
    {
        let ghost before = text::views(out@);
        assert(all.take(i + 1).drop_last() =~= all.take(i as int));
        assert(all.take(i + 1).last() == events@[i as int]@);
        match &events[i] {
            RunEvent::GateApproved { step: s, by } => {
                if text::str_eq(s.as_str(), step) && !text::contains_string(&out, by.as_str()) {
                    out.push(by.clone());
                    assert(text::views(out@) =~= before.push(by@));
                }
            },
            RunEvent::Other => {},
        }
        i = i + 1;
    }
    assert(all.take(i as int) =~= all);
    out
}

/// Exactly those who approved a step count, and each counts once however often they approve.
pub proof fn approvers_count_once(events: Seq<RunEventView>, step: Seq<char>)
    ensures
        forall|i: int, j: int|
            #![trigger approvers_of(events, step)[i], approvers_of(events, step)[j]]
            0 <= i < j < approvers_of(events, step).len() ==> approvers_of(events, step)[i] != approvers_of(events, step)[j],
        forall|by: Seq<char>|
            #[trigger] approvers_of(events, step).contains(by) <==> events.contains(RunEventView::GateApproved { step, by }),
    decreases events.len(),
{
    if events.len() > 0 {
        let rest = events.drop_last();
        let before = approvers_of(rest, step);
        let now = approvers_of(events, step);
        approvers_count_once(rest, step);
        assert forall|by: Seq<char>| #[trigger] now.contains(by) <==> events.contains(
            RunEventView::GateApproved { step, by },
        ) by {
            let ev = RunEventView::GateApproved { step, by };
            if rest.contains(ev) {
                let k = choose|k: int| 0 <= k < rest.len() && rest[k] == ev;
                assert(events[k] == ev);
            }
            if events.contains(ev) {
                let k = choose|k: int| 0 <= k < events.len() && events[k] == ev;
                if k < rest.len() {
                    assert(rest[k] == ev);
                }
            }
            assert(before.contains(by) <==> rest.contains(ev));
            if before.contains(by) {
                let k = choose|k: int| 0 <= k < before.len() && before[k] == by;
                assert(now[k] == by);
            }
            if now.len() > before.len() {
                assert(now[before.len() as int] == now.last());
                assert(events[events.len() - 1] == events.last());
            }
            if now.contains(by) {
                let k = choose|k: int| 0 <= k < now.len() && now[k] == by;
                if k < before.len() {
                    assert(before[k] == by);
                }
            }
        }
        assert forall|i: int, j: int| #![trigger now[i], now[j]] 0 <= i < j < now.len() implies now[i] != now[j] by {
            assert(before[i] == now[i]);
            assert(before.contains(before[i]));
            if j < before.len() {
                assert(before[j] == now[j]);
            }
        }
    }
}

/// Approvers are named in the order of their first approval: whoever is named earlier had approved
/// before any approval of one who is named later.
pub proof fn approvers_come_in_order(events: Seq<RunEventView>, step: Seq<char>, i: int, j: int, q: int)
    requires
        0 <= i < j < approvers_of(events, step).len(),
        0 <= q < events.len(),
        events[q] == (RunEventView::GateApproved { step, by: approvers_of(events, step)[j] }),
    ensures
        exists|p: int|
            0 <= p < q && #[trigger] events[p] == (RunEventView::GateApproved { step, by: approvers_of(events, step)[i] }),
    decreases events.len(),
{
    let rest = events.drop_last();
    let before = approvers_of(rest, step);
    let now = approvers_of(events, step);
    approvers_count_once(rest, step);
    approvers_count_once(events, step);
    let first = RunEventView::GateApproved { step, by: now[i] };
    if j < before.len() {
        if q < rest.len() {
            approvers_come_in_order(rest, step, i, j, q);
            let p = choose|p: int| 0 <= p < q && #[trigger] rest[p] == first;
            assert(events[p] == first);
        } else {
            assert(before[i] == now[i]);
            assert(before.contains(before[i]));
            let p = choose|p: int| 0 <= p < rest.len() && rest[p] == first;
            assert(events[p] == first);
        }
    } else {
        let later = RunEventView::GateApproved { step, by: now[j] };
        if q < rest.len() {
            assert(rest[q] == later);
            assert(rest.contains(later));
            assert(before.contains(now[j]));
        } else {
            assert(before[i] == now[i]);
            assert(before.contains(before[i]));
            let p = choose|p: int| 0 <= p < rest.len() && rest[p] == first;
            assert(events[p] == first);
        }
    }
}

/// A step as far as gates read it.
#[derive(Debug)]
pub struct StepState {
    pub id: String,
    pub succeeded: bool,
    pub gate_kind: Option<String>,
}

/// The step has succeeded: its gate is released.
pub open spec fn is_released(steps: Seq<StepState>, step: Seq<char>) -> bool {
    exists|i: int| 0 <= i < steps.len() && (#[trigger] steps[i]).id@ == step && steps[i].succeeded
}

/// Whether a gate's step has succeeded.
pub fn gate_released(steps: &Vec<StepState>, step: &str) -> (r: bool)
    ensures
        r == is_released(steps@, step@),
{
    let mut i: usize = 0;
    while i < steps.len()
        invariant
            i <= steps@.len(),
            forall|j: int| 0 <= j < i ==> !((#[trigger] steps@[j]).id@ == step@ && steps@[j].succeeded),
        decreases steps@.len() - i,
    {
        if steps[i].succeeded && text::str_eq(steps[i].id.as_str(), step) {
            return true;
        }
        i = i + 1;
    }
    false
}

/// A deployment as history keeps it.
#[derive(Debug)]
pub struct Deployment {
    pub org: String,
    pub project: String,
    pub environment: String,
    pub git_ref: String,
    pub run: String,
    pub approved_by: Vec<String>,
    pub at: i64,
}

/// The mathematical model of a [`Deployment`].
#[verifier::ext_equal]
pub struct DeploymentView {
    pub org: Seq<char>,
    pub project: Seq<char>,
    pub environment: Seq<char>,
    pub git_ref: Seq<char>,
    pub run: Seq<char>,
    pub approved_by: Seq<Seq<char>>,
    pub at: i64,
}

impl View for Deployment {
    type V = DeploymentView;

    open spec fn view(&self) -> DeploymentView {
        DeploymentView {
            org: self.org@,
            project: self.project@,
            environment: self.environment@,
            git_ref: self.git_ref@,
            run: self.run@,
            approved_by: text::views(self.approved_by@),
            at: self.at,
        }
    }
}

/// Where the approval of a gate stands.
#[derive(Debug)]
pub enum GatePhase {
    /// The approval is being recorded.
    Recording,
    /// The steps are read, for a gate that was released before.
    Checking,
    /// The run's events are read.
    Listing,
    /// The run's deploy target is read.
    Locating { approvers: Vec<String> },
    /// The environment's rules judge the approvers.
    Ruling { approvers: Vec<String>, target: DeployContext },
    /// The release is under way.
    Releasing { approvers: Vec<String>, ctx: Option<DeployContext> },
    /// The steps are read again, for what the release came to.
    Confirming { approvers: Vec<String>, ctx: Option<DeployContext> },
    /// The deployment is being written to history.
    Deploying { approvers: Vec<String> },
    Done,
}

/// The mathematical model of a [`GatePhase`].
pub enum PhaseView {
    Recording,
    Checking,
    Listing,
    Locating { approvers: Seq<Seq<char>> },
    Ruling { approvers: Seq<Seq<char>>, target: DeployView },
    Releasing { approvers: Seq<Seq<char>>, ctx: Option<DeployView> },
    Confirming { approvers: Seq<Seq<char>>, ctx: Option<DeployView> },
    Deploying { approvers: Seq<Seq<char>> },
    Done,
}

pub open spec fn ctx_view(c: Option<DeployContext>) -> Option<DeployView> {
    match c {
        Some(c) => Some(c@),
        None => None,
    }
}

impl View for GatePhase {
    type V = PhaseView;

    open spec fn view(&self) -> PhaseView {
        match self {
            GatePhase::Recording => PhaseView::Recording,
            GatePhase::Checking => PhaseView::Checking,
            GatePhase::Listing => PhaseView::Listing,
            GatePhase::Locating { approvers } => PhaseView::Locating { approvers: text::views(approvers@) },
            GatePhase::Ruling { approvers, target } => PhaseView::Ruling {
                approvers: text::views(approvers@),
                target: target@,
            },
            GatePhase::Releasing { approvers, ctx } => PhaseView::Releasing {
                approvers: text::views(approvers@),
                ctx: ctx_view(*ctx),
            },
            GatePhase::Confirming { approvers, ctx } => PhaseView::Confirming {
                approvers: text::views(approvers@),
                ctx: ctx_view(*ctx),
            },
            GatePhase::Deploying { approvers } => PhaseView::Deploying { approvers: text::views(approvers@) },
            GatePhase::Done => PhaseView::Done,
        }
    }
}

/// What the approval of a gate does next.
#[derive(Debug)]
pub enum GateAction {
    RecordApproval,
    ReadSteps,
    ReadEvents,
    ReadContext,
    /// Read the environment's rules and let them judge the ref and the approvers.
    JudgeRules { org: String, project: String, environment: String, git_ref: String, approvers: Vec<String> },
    Release,
    RecordDeployment(Deployment),
    /// Answer that the approval was accepted.
    Answer { released: bool, approvals: Option<Vec<String>> },
    Fail(ApiError),
}

/// The mathematical model of a [`GateAction`].
pub enum ActionView {
    RecordApproval,
    ReadSteps,
    ReadEvents,
    ReadContext,
    JudgeRules {
        org: Seq<char>,
        project: Seq<char>,
        environment: Seq<char>,
        git_ref: Seq<char>,
        approvers: Seq<Seq<char>>,
    },
    Release,
    RecordDeployment(DeploymentView),
    Answer { released: bool, approvals: Option<Seq<Seq<char>>> },
    Fail(ApiErrorView),
}

impl View for GateAction {
    type V = ActionView;

    open spec fn view(&self) -> ActionView {
        match self {
            GateAction::RecordApproval => ActionView::RecordApproval,
            GateAction::ReadSteps => ActionView::ReadSteps,
            GateAction::ReadEvents => ActionView::ReadEvents,
            GateAction::ReadContext => ActionView::ReadContext,
            GateAction::JudgeRules { org, project, environment, git_ref, approvers } => ActionView::JudgeRules {
                org: org@,
                project: project@,
                environment: environment@,
                git_ref: git_ref@,
                approvers: text::views(approvers@),
            },
            GateAction::Release => ActionView::Release,
            GateAction::RecordDeployment(d) => ActionView::RecordDeployment(d@),
            GateAction::Answer { released, approvals } => ActionView::Answer {
                released: *released,
                approvals: match approvals {
                    Some(a) => Some(text::views(a@)),
                    None => None,
                },
            },
            GateAction::Fail(e) => ActionView::Fail(e@),
        }
    }
}

/// The outcome of an action.
#[derive(Debug)]
pub enum GateEvent {
    Recorded(Result<(), RerunError>),
    Steps { found: Result<Vec<StepState>, String>, now: i64 },
    Events(Result<Vec<RunEvent>, String>),
    Context(Result<Option<DeployContext>, String>),
    /// The rules' verdict; `None` where the environment has no rules.
    Judged(Result<Option<bool>, String>),
    Released(Result<(), RerunError>),
    Deployed(Result<(), String>),
}

/// The approval of one gate.
#[derive(Debug)]
pub struct ApproveGate {
    pub run: String,
    pub step: String,
    /// Whether environments are kept at all.
    pub environments: bool,
    pub phase: GatePhase,
}

/// The mathematical model of an [`ApproveGate`].
pub struct GateView {
    pub run: Seq<char>,
    pub step: Seq<char>,
    pub environments: bool,
    pub phase: PhaseView,
}

impl View for ApproveGate {
    type V = GateView;

    open spec fn view(&self) -> GateView {
        GateView { run: self.run@, step: self.step@, environments: self.environments, phase: self.phase@ }
    }
}

/// The deployment that a released gate writes to history.
pub open spec fn deployment_of(run: Seq<char>, ctx: DeployView, approvers: Seq<Seq<char>>, now: i64) -> DeploymentView {
    DeploymentView {
        org: ctx.org,
        project: ctx.project,
        environment: ctx.environment,
        git_ref: ctx.git_ref,
        run,
        approved_by: approvers,
        at: now,
    }
}

impl GateView {
    /// The event answers the action that was handed out last.
    pub open spec fn expects(self, ev: GateEvent) -> bool {
        match self.phase {
            PhaseView::Recording => ev is Recorded,
            PhaseView::Checking => ev is Steps,
            PhaseView::Listing => ev is Events,
            PhaseView::Locating { .. } => ev is Context,
            PhaseView::Ruling { .. } => ev is Judged,
            PhaseView::Releasing { .. } => ev is Released,
            PhaseView::Confirming { .. } => ev is Steps,
            PhaseView::Deploying { .. } => ev is Deployed,
            PhaseView::Done => false,
        }
    }

    /// The phase and the action that follow an event.
    pub open spec fn after(self, ev: GateEvent) -> (PhaseView, ActionView) {
        match (self.phase, ev) {
            (PhaseView::Recording, GateEvent::Recorded(Ok(_))) => (PhaseView::Checking, ActionView::ReadSteps),
            (PhaseView::Recording, GateEvent::Recorded(Err(e))) => (
                PhaseView::Done,
                ActionView::Fail(errors::api_error_of_rerun(e)),
            ),
            (PhaseView::Checking, GateEvent::Steps { found: Ok(steps), now }) => if is_released(steps@, self.step) {
                (PhaseView::Done, ActionView::Answer { released: true, approvals: None })
            } else {
                (PhaseView::Listing, ActionView::ReadEvents)
            },
            (PhaseView::Listing, GateEvent::Events(Ok(events))) => (
                PhaseView::Locating { approvers: approvers_of(event_views(events@), self.step) },
                ActionView::ReadContext,
            ),
            (PhaseView::Locating { approvers }, GateEvent::Context(Ok(Some(c)))) if self.environments => (
                PhaseView::Ruling { approvers, target: c@ },
                ActionView::JudgeRules {
                    org: c@.org,
                    project: c@.project,
                    environment: c@.environment,
                    git_ref: c@.git_ref,
                    approvers,
                },
            ),
            (PhaseView::Locating { approvers }, GateEvent::Context(Ok(c))) => (
                PhaseView::Releasing { approvers, ctx: ctx_view(c) },
                ActionView::Release,
            ),
            (PhaseView::Ruling { approvers, target }, GateEvent::Judged(Ok(verdict))) => if verdict == Some(false) {
                (PhaseView::Done, ActionView::Answer { released: false, approvals: Some(approvers) })
            } else {
                (PhaseView::Releasing { approvers, ctx: Some(target) }, ActionView::Release)
            },
            (PhaseView::Releasing { approvers, ctx }, GateEvent::Released(Ok(_))) => (
                PhaseView::Confirming { approvers, ctx },
                ActionView::ReadSteps,
            ),
            (PhaseView::Releasing { approvers, ctx }, GateEvent::Released(Err(e))) => (
                PhaseView::Done,
                ActionView::Fail(errors::api_error_of_rerun(e)),
            ),
            (PhaseView::Confirming { approvers, ctx }, GateEvent::Steps { found: Ok(steps), now }) => match ctx {
                Some(c) if is_released(steps@, self.step) && self.environments => (
                    PhaseView::Deploying { approvers },
                    ActionView::RecordDeployment(deployment_of(self.run, c, approvers, now)),
                ),
                _ => (
                    PhaseView::Done,
                    ActionView::Answer { released: is_released(steps@, self.step), approvals: Some(approvers) },
                ),
            },
            (PhaseView::Deploying { approvers }, GateEvent::Deployed(Ok(_))) => (
                PhaseView::Done,
                ActionView::Answer { released: true, approvals: Some(approvers) },
            ),
            (_, GateEvent::Steps { found: Err(m), now }) => (PhaseView::Done, ActionView::Fail(ApiErrorView::Db(m@))),
            (_, GateEvent::Events(Err(m))) => (PhaseView::Done, ActionView::Fail(ApiErrorView::Db(m@))),
            (_, GateEvent::Context(Err(m))) => (PhaseView::Done, ActionView::Fail(ApiErrorView::Db(m@))),
            (_, GateEvent::Judged(Err(m))) => (PhaseView::Done, ActionView::Fail(ApiErrorView::BadRequest(m@))),
            (_, GateEvent::Deployed(Err(m))) => (PhaseView::Done, ActionView::Fail(ApiErrorView::BadRequest(m@))),
            _ => (PhaseView::Done, ActionView::Fail(ApiErrorView::NotFound)),
        }
    }
}

impl ApproveGate {
    /// Begins by recording the approval.
    pub fn begin(run: String, step: String, environments: bool) -> (r: (ApproveGate, GateAction))
        ensures
            r.0@ == (GateView { run: run@, step: step@, environments, phase: PhaseView::Recording }),
            r.1@ == ActionView::RecordApproval,
    {
        (ApproveGate { run, step, environments, phase: GatePhase::Recording }, GateAction::RecordApproval)
    }

    /// Takes the outcome of the last action and says what comes next.
    pub fn step(self, ev: GateEvent) -> (r: (ApproveGate, GateAction))
        requires
            self@.expects(ev),
        ensures
            r.0@.run == self@.run,
            r.0@.step == self@.step,
            r.0@.environments == self@.environments,
            (r.0@.phase, r.1@) == self@.after(ev),
    {
        let ApproveGate { run, step, environments, phase } = self;
        let (phase, action) = match (phase, ev) {
            (GatePhase::Recording, GateEvent::Recorded(Ok(_))) => (GatePhase::Checking, GateAction::ReadSteps),
            (GatePhase::Recording, GateEvent::Recorded(Err(e))) => (
                GatePhase::Done,
                GateAction::Fail(ApiError::from_rerun(e)),
            ),
            (GatePhase::Checking, GateEvent::Steps { found: Ok(steps), now: _ }) => {
                if gate_released(&steps, step.as_str()) {
                    (GatePhase::Done, GateAction::Answer { released: true, approvals: None })
                } else {
                    (GatePhase::Listing, GateAction::ReadEvents)
                }
            },
            (GatePhase::Listing, GateEvent::Events(Ok(events))) => {
                let approvers = gate_approvers(&events, step.as_str());
                (GatePhase::Locating { approvers }, GateAction::ReadContext)
            },
            (GatePhase::Locating { approvers }, GateEvent::Context(Ok(ctx))) => match ctx {
                Some(c) => if environments {
                    let action = GateAction::JudgeRules {
                        org: c.org.clone(),
                        project: c.project.clone(),
                        environment: c.environment.clone(),
                        git_ref: c.git_ref.clone(),
                        approvers: text::clone_strings(&approvers),
                    };
                    (GatePhase::Ruling { approvers, target: c }, action)
                } else {
                    (GatePhase::Releasing { approvers, ctx: Some(c) }, GateAction::Release)
                },
                None => (GatePhase::Releasing { approvers, ctx: None }, GateAction::Release),
            },
            (GatePhase::Ruling { approvers, target }, GateEvent::Judged(Ok(verdict))) => {
                let refused: bool = match verdict {
                    Some(ok) => !ok,
                    None => false,
                };
                if refused {
                    (GatePhase::Done, GateAction::Answer { released: false, approvals: Some(approvers) })
                } else {
                    (GatePhase::Releasing { approvers, ctx: Some(target) }, GateAction::Release)
                }
            },
            (GatePhase::Releasing { approvers, ctx }, GateEvent::Released(Ok(_))) => (
                GatePhase::Confirming { approvers, ctx },
                GateAction::ReadSteps,
            ),
            (GatePhase::Releasing { approvers: _, ctx: _ }, GateEvent::Released(Err(e))) => (
                GatePhase::Done,
                GateAction::Fail(ApiError::from_rerun(e)),
            ),
            (GatePhase::Confirming { approvers, ctx }, GateEvent::Steps { found: Ok(steps), now }) => {
                let released = gate_released(&steps, step.as_str());
                match ctx {
                    Some(c) => if released && environments {
                        let d = Deployment {
                            org: c.org,
                            project: c.project,
                            environment: c.environment,
                            git_ref: c.git_ref,
                            run: run.clone(),
                            approved_by: text::clone_strings(&approvers),
                            at: now,
                        };
                        assert(d@ =~= deployment_of(run@, c@, text::views(approvers@), now));
                        (GatePhase::Deploying { approvers }, GateAction::RecordDeployment(d))
                    } else {
                        (GatePhase::Done, GateAction::Answer { released, approvals: Some(approvers) })
                    },
                    None => (GatePhase::Done, GateAction::Answer { released, approvals: Some(approvers) }),
                }
            },
            (GatePhase::Deploying { approvers }, GateEvent::Deployed(Ok(_))) => (
                GatePhase::Done,
                GateAction::Answer { released: true, approvals: Some(approvers) },
            ),
            (_, GateEvent::Steps { found: Err(m), now: _ }) => (GatePhase::Done, GateAction::Fail(ApiError::Db(m))),
            (_, GateEvent::Events(Err(m))) => (GatePhase::Done, GateAction::Fail(ApiError::Db(m))),
            (_, GateEvent::Context(Err(m))) => (GatePhase::Done, GateAction::Fail(ApiError::Db(m))),
            (_, GateEvent::Judged(Err(m))) => (GatePhase::Done, GateAction::Fail(ApiError::BadRequest(m))),
            (_, GateEvent::Deployed(Err(m))) => (GatePhase::Done, GateAction::Fail(ApiError::BadRequest(m))),
            _ => (GatePhase::Done, GateAction::Fail(ApiError::NotFound)),
        };
        (ApproveGate { run, step, environments, phase }, action)
    }
}

impl GateView {
    /// The approval behind an event.
    pub open spec fn behind(self, ev: GateEvent) -> GateView {
        GateView { phase: self.after(ev).0, ..self }
    }
}

/// A recorded approval releases a step that has not succeeded yet: at once where the run deploys
/// nowhere or no environments are kept, and else unless the rules of the environment refuse those
/// who approved. Only a refusal answers that nothing was released.
pub proof fn an_approval_releases_the_gate(
    run: Seq<char>,
    step: Seq<char>,
    environments: bool,
    steps: Vec<StepState>,
    now: i64,
    events: Vec<RunEvent>,
    ctx: Option<DeployContext>,
    verdict: Option<bool>,
)
    requires
        forall|i: int| 0 <= i < steps@.len() && (#[trigger] steps@[i]).id@ == step ==> !steps@[i].succeeded,
    ensures
        ({
            let recording = GateView { run, step, environments, phase: PhaseView::Recording };
            let recorded = GateEvent::Recorded(Ok(()));
            let checking = recording.behind(recorded);
            let seen = GateEvent::Steps { found: Ok(steps), now };
            let listing = checking.behind(seen);
            let told = GateEvent::Events(Ok(events));
            let locating = listing.behind(told);
            let located = GateEvent::Context(Ok(ctx));
            let ruling = locating.behind(located);
            let judged = GateEvent::Judged(Ok(verdict));
            let approved = |by: Seq<char>| event_views(events@).contains(RunEventView::GateApproved { step, by });
            &&& recording.after(recorded).1 is ReadSteps
            &&& checking.after(seen).1 is ReadEvents
            &&& listing.after(told).1 is ReadContext
            &&& ctx is None || !environments ==> locating.after(located).1 is Release
            &&& ctx is Some && environments ==> {
                let c = ctx->0;
                &&& locating.after(located).1 matches ActionView::JudgeRules {
                    org,
                    project,
                    environment,
                    git_ref,
                    approvers,
                } && {
                    &&& org == c.org@ && project == c.project@ && environment == c.environment@ && git_ref == c.git_ref@
                    &&& approvers.no_duplicates()
                    &&& forall|by: Seq<char>| #[trigger] approvers.contains(by) <==> approved(by)
                    &&& ruling.after(judged).1 == (if verdict == Some(false) {
                        ActionView::Answer { released: false, approvals: Some(approvers) }
                    } else {
                        ActionView::Release
                    })
                }
            }
        }),
{
    approvers_count_once(event_views(events@), step);
    let approvers = approvers_of(event_views(events@), step);
    assert(approvers.no_duplicates()) by {
        assert forall|i: int, j: int| 0 <= i < approvers.len() && 0 <= j < approvers.len() && i != j implies approvers[i]
            != approvers[j] by {
            if i < j {
                assert(approvers[i] != approvers[j]);
            } else {
                assert(approvers[j] != approvers[i]);
            }
        }
    }
}

/// Behind a release the steps are read again. A deploy whose step succeeded enters history, under
/// its target, with the run and all who approved, and is answered as released; anything else is
/// answered by what the step came to.
pub proof fn a_release_is_confirmed(
    g: GateView,
    ev: GateEvent,
    approvers: Seq<Seq<char>>,
    ctx: Option<DeployView>,
    steps: Vec<StepState>,
    now: i64,
)
    requires
        g.expects(ev),
        g.after(ev).1 is Release,
        match g.phase {
            PhaseView::Locating { approvers: a } => a == approvers && (ev matches GateEvent::Context(Ok(c)) && ctx == ctx_view(
                c,
            )),
            PhaseView::Ruling { approvers: a, target } => a == approvers && ctx == Some(target),
            _ => false,
        },
    ensures
        ({
            let releasing = g.behind(ev);
            let done = GateEvent::Released(Ok(()));
            let confirming = releasing.behind(done);
            let seen = GateEvent::Steps { found: Ok(steps), now };
            let deploying = confirming.behind(seen);
            let succeeded = exists|i: int| 0 <= i < steps@.len() && (#[trigger] steps@[i]).id@ == g.step && steps@[i].succeeded;
            &&& releasing.after(done).1 is ReadSteps
            &&& succeeded && g.environments && ctx is Some ==> {
                &&& confirming.after(seen).1 matches ActionView::RecordDeployment(d) && {
                    &&& d.org == ctx->0.org && d.project == ctx->0.project && d.environment == ctx->0.environment
                    &&& d.git_ref == ctx->0.git_ref && d.run == g.run && d.approved_by == approvers && d.at == now
                }
                &&& deploying.after(GateEvent::Deployed(Ok(()))).1 == (ActionView::Answer {
                    released: true,
                    approvals: Some(approvers),
                })
            }
            &&& !(succeeded && g.environments && ctx is Some) ==> confirming.after(seen).1 == (ActionView::Answer {
                released: succeeded,
                approvals: Some(approvers),
            })
        }),
{
}

/// A gate whose step has succeeded is not released again.
pub proof fn a_released_gate_stays_released(g: GateView, steps: Vec<StepState>, now: i64, i: int)
    requires
        g.phase is Checking,
        0 <= i < steps@.len(),
        steps@[i].id@ == g.step,
        steps@[i].succeeded,
    ensures
        g.after(GateEvent::Steps { found: Ok(steps), now }).1 == (ActionView::Answer { released: true, approvals: None }),
        g.after(GateEvent::Steps { found: Ok(steps), now }).0 is Done,
{
}

/// An approval is answered as not released only where the rules refused it, or where the step was
/// not seen to succeed behind its release.
pub proof fn only_a_refusal_withholds_the_release(g: GateView, ev: GateEvent, approvals: Option<Seq<Seq<char>>>)
    requires
        g.expects(ev),
        g.after(ev).1 == (ActionView::Answer { released: false, approvals }),
    ensures
        (g.phase is Ruling && (ev matches GateEvent::Judged(Ok(Some(false))))) || (g.phase is Confirming && (ev
            matches GateEvent::Steps { found: Ok(steps), now } && forall|i: int|
            0 <= i < steps@.len() && (#[trigger] steps@[i]).id@ == g.step ==> !steps@[i].succeeded)),
{
}

/// A store that fails ends the approval with its message, and nothing is released or written to
/// history; and nothing but a failure does.
pub proof fn failures_end_the_approval(g: GateView, ev: GateEvent)
    requires
        g.expects(ev),
    ensures
        ({
            let failed = match ev {
                GateEvent::Recorded(r) => r is Err,
                GateEvent::Steps { found, now } => found is Err,
                GateEvent::Events(r) => r is Err,
                GateEvent::Context(r) => r is Err,
                GateEvent::Judged(r) => r is Err,
                GateEvent::Released(r) => r is Err,
                GateEvent::Deployed(r) => r is Err,
            };
            &&& failed <==> g.after(ev).1 is Fail
            &&& failed ==> g.after(ev).0 is Done
            &&& match ev {
                GateEvent::Steps { found: Err(m), now } => g.after(ev).1 == ActionView::Fail(ApiErrorView::Db(m@)),
                GateEvent::Events(Err(m)) => g.after(ev).1 == ActionView::Fail(ApiErrorView::Db(m@)),
                GateEvent::Context(Err(m)) => g.after(ev).1 == ActionView::Fail(ApiErrorView::Db(m@)),
                GateEvent::Judged(Err(m)) => g.after(ev).1 == ActionView::Fail(ApiErrorView::BadRequest(m@)),
                GateEvent::Deployed(Err(m)) => g.after(ev).1 == ActionView::Fail(ApiErrorView::BadRequest(m@)),
                GateEvent::Recorded(Err(e)) => g.after(ev).1 == ActionView::Fail(errors::api_error_of_rerun(e)),
                GateEvent::Released(Err(e)) => g.after(ev).1 == ActionView::Fail(errors::api_error_of_rerun(e)),
                _ => true,
            }
        }),
{
}

/// A deploy gate whose environments are kept is released only after the environment's rules
/// judged its approvers, and not against their verdict.
pub proof fn protected_gates_await_their_rules(g: GateView, ev: GateEvent)
    requires
        g.expects(ev),
        g.after(ev).1 is Release,
    ensures
        (g.phase is Ruling && (ev matches GateEvent::Judged(Ok(verdict)) && verdict != Some(false))) || (g.phase is Locating
            && (!g.environments || (ev matches GateEvent::Context(Ok(c)) && c is None))),
{
}

/// A deployment is written to history only where the step was seen to have succeeded after the
/// release, and it names the run and everyone who approved.
pub proof fn only_released_deploys_enter_history(g: GateView, ev: GateEvent)
    requires
        g.expects(ev),
        g.after(ev).1 is RecordDeployment,
    ensures
        g.phase is Confirming,
        ev matches GateEvent::Steps { found: Ok(steps), now } && is_released(steps@, g.step),
        g.after(ev).1->RecordDeployment_0.run == g.run,
        g.after(ev).1->RecordDeployment_0.approved_by == g.phase->Confirming_approvers,
{
}

/// The header that carries the token of an external gate.
pub const GATE_TOKEN_HEADER: &'static str = "x-scarab-gate-token";

/// The header that carries the token of a step's results.
pub const RESULTS_TOKEN_HEADER: &'static str = "x-scarab-results-token";

/// The header that names the attempt a results token is for.
pub const RESULTS_ATTEMPT_HEADER: &'static str = "x-scarab-attempt";

/// How many bytes a step's results may have.
pub const RESULTS_MAX_BYTES: usize = 65536;

/// What the token of an external gate signs.
pub fn gate_token_message(run: &str, step: &str) -> (r: String)
    ensures
        r@ == run@ + ":"@ + step@,
{
    let mut s: String = run.to_owned();
    s.append(":");
    s.append(step);
    s
}

/// What a results token signs: the run, the step and the attempt.
pub fn results_token_message(run: &str, step: &str, attempt: &str) -> (r: String)
    ensures
        r@ == run@ + ":"@ + step@ + ":"@ + attempt@,
{
    let mut s: String = run.to_owned();
    s.append(":");
    s.append(step);
    s.append(":");
    s.append(attempt);
    s
}

/// There is such a step, and its gate waits for an outside system.
pub open spec fn is_external_gate(steps: Seq<StepState>, step: Seq<char>) -> bool {
    exists|i: int|
        0 <= i < steps.len() && (#[trigger] steps[i]).id@ == step && text::opt_view(steps[i].gate_kind) == Some("external"@)
}

/// Whether a step is a gate that an outside system releases.
pub fn external_gate(steps: &Vec<StepState>, step: &str) -> (r: bool)
    ensures
        r == is_external_gate(steps@, step@),
{
    let mut i: usize = 0;
    while i < steps.len()
        invariant
            i <= steps@.len(),
            forall|j: int|
                0 <= j < i ==> !((#[trigger] steps@[j]).id@ == step@ && text::opt_view(steps@[j].gate_kind) == Some(
                    "external"@,
                )),
        decreases steps@.len() - i,
    {
        let external: bool = match &steps[i].gate_kind {
            Some(k) => text::str_eq(k.as_str(), "external"),
            None => false,
        };
        if external && text::str_eq(steps[i].id.as_str(), step) {
            return true;
        }
        i = i + 1;
    }
    false
}

/// What a request to release an external gate comes to before the release: nothing is released
/// without a configured secret, an external gate and a token that verifies.
pub fn release_gate_external(secret_configured: bool, steps: &Vec<StepState>, step: &str, token_verified: bool) -> (r: Result<
    (),
    ApiError,
>)
    ensures
        match r {
            Ok(_) => secret_configured && is_external_gate(steps@, step@) && token_verified,
            Err(e) => if secret_configured && is_external_gate(steps@, step@) {
                !token_verified && e@ == ApiErrorView::Unauthorized
            } else {
                e@ == ApiErrorView::NotFound
            },
        },
{
    if !secret_configured {
        return Err(ApiError::NotFound);
    }
    if !external_gate(steps, step) {
        return Err(ApiError::NotFound);
    }
    if !token_verified {
        return Err(ApiError::Unauthorized);
    }
    Ok(())
}

/// The attempt that a results request names.
pub fn results_attempt(header: Option<&str>) -> (r: String)
    ensures
        r@ == (match header {
            Some(a) => a@,
            None => "0"@,
        }),
{
    match header {
        Some(a) => a.to_owned(),
        None => "0".to_owned(),
    }
}

/// A step with the id exists.
pub open spec fn has_step(steps: Seq<StepState>, step: Seq<char>) -> bool {
    exists|i: int| 0 <= i < steps.len() && (#[trigger] steps[i]).id@ == step
}

pub fn step_exists(steps: &Vec<StepState>, step: &str) -> (r: bool)
    ensures
        r == has_step(steps@, step@),
{
    let mut i: usize = 0;
    while i < steps.len()
        invariant
            i <= steps@.len(),
            forall|j: int| 0 <= j < i ==> (#[trigger] steps@[j]).id@ != step@,
        decreases steps@.len() - i,
    {
        if text::str_eq(steps[i].id.as_str(), step) {
            return true;
        }
        i = i + 1;
    }
    false
}

/// What a step's results must pass before they are kept: a configured secret, a token for the
/// run, step and attempt, the size limit, and a step that exists.
pub fn ingest_step_results(
    secret_configured: bool,
    token_verified: bool,
    encoded_len: usize,
    steps: &Vec<StepState>,
    step: &str,
) -> (r: Result<(), ApiError>)
    ensures
        match r {
            Ok(_) => secret_configured && token_verified && encoded_len <= RESULTS_MAX_BYTES && has_step(steps@, step@),
            Err(e) => e@ == (if !secret_configured {
                ApiErrorView::NotFound
            } else if !token_verified {
                ApiErrorView::Unauthorized
            } else if encoded_len > RESULTS_MAX_BYTES {
                ApiErrorView::TooLarge("results exceed 65536 bytes"@)
            } else {
                ApiErrorView::NotFound
            }) && !(secret_configured && token_verified && encoded_len <= RESULTS_MAX_BYTES && has_step(steps@, step@)),
        },
{
    if !secret_configured {
        return Err(ApiError::NotFound);
    }
    if !token_verified {
        return Err(ApiError::Unauthorized);
    }
    if encoded_len > RESULTS_MAX_BYTES {
        return Err(ApiError::TooLarge("results exceed 65536 bytes".to_owned()));
    }
    if !step_exists(steps, step) {
        return Err(ApiError::NotFound);
    }
    Ok(())
}

/// A released gate's deployment goes to the environment that the run deploys to, with the run, the
/// ref and those who approved.
pub proof fn deployments_say_what_was_deployed(run: Seq<char>, ctx: DeployView, approvers: Seq<Seq<char>>, now: i64)
    ensures
        ({
            let d = deployment_of(run, ctx, approvers, now);
            &&& d.org == ctx.org && d.project == ctx.project && d.environment == ctx.environment
            &&& d.git_ref == ctx.git_ref
            &&& d.run == run
            &&& d.approved_by == approvers
            &&& d.at == now
        }),
{
}

/// Only a step that exists and whose gate waits for an outside system is released from outside.
pub proof fn outside_systems_release_their_own_gates(steps: Seq<StepState>, step: Seq<char>, i: int)
    ensures
        0 <= i < steps.len() && steps[i].id@ == step && steps[i].gate_kind is Some && steps[i].gate_kind->0@ == "external"@
            ==> is_external_gate(steps, step),
        is_external_gate(steps, step) ==> has_step(steps, step),
        (forall|j: int|
            0 <= j < steps.len() && (#[trigger] steps[j]).id@ == step ==> steps[j].gate_kind is None
                || steps[j].gate_kind->0@ != "external"@) ==> !is_external_gate(steps, step),
        0 <= i < steps.len() ==> has_step(steps, steps[i].id@),
        (forall|j: int| 0 <= j < steps.len() ==> (#[trigger] steps[j]).id@ != step) ==> !has_step(steps, step),
{
}

} // verus!
