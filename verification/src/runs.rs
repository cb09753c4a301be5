//! Runs as they are listed and shown.

use crate::connections;
use crate::errors::{ApiError, ApiErrorView};
use crate::event::RepoRef;
use crate::json::Json;
use crate::model::{self, ServiceSpec};
use crate::onboarding::ResolvedRepo;
use crate::order;
use crate::sort::{self, Ranked};
use crate::text;
use vstd::prelude::*;

verus! {

#[derive(Debug, Clone, Copy, PartialEq, Eq, Structural)]
pub enum RunStatus {
    Pending,
    Running,
    Suspended,
    Succeeded,
    Failed,
    Cancelled,
    DeadLettered,
}

#[derive(Debug, Clone, Copy, PartialEq, Eq, Structural)]
pub enum StepStatus {
    Pending,
    Ready,
    Running,
    Succeeded,
    Failed,
    Skipped,
    Cancelled,
}

pub open spec fn run_word(s: RunStatus) -> Seq<char> {
    match s {
        RunStatus::Pending => "pending"@,
        RunStatus::Running => "running"@,
        RunStatus::Suspended => "suspended"@,
        RunStatus::Succeeded => "succeeded"@,
        RunStatus::Failed => "failed"@,
        RunStatus::Cancelled => "cancelled"@,
        RunStatus::DeadLettered => "dead_lettered"@,
    }
}

/// The word a run's status goes by.
pub fn run_status_name(s: RunStatus) -> (r: &'static str)
    ensures
        r@ == run_word(s),
{
    match s {
        RunStatus::Pending => "pending",
        RunStatus::Running => "running",
        RunStatus::Suspended => "suspended",
        RunStatus::Succeeded => "succeeded",
        RunStatus::Failed => "failed",
        RunStatus::Cancelled => "cancelled",
        RunStatus::DeadLettered => "dead_lettered",
    }
}

pub open spec fn step_word(s: StepStatus) -> Seq<char> {
    match s {
        StepStatus::Pending => "pending"@,
        StepStatus::Ready => "ready"@,
        StepStatus::Running => "running"@,
        StepStatus::Succeeded => "succeeded"@,
        StepStatus::Failed => "failed"@,
        StepStatus::Skipped => "skipped"@,
        StepStatus::Cancelled => "cancelled"@,
    }
}

/// The run is over: nothing more happens in it.
pub open spec fn terminal(s: RunStatus) -> bool {
    s is Succeeded || s is Failed || s is Cancelled || s is DeadLettered
}

/// Whether a run is over.
pub fn is_terminal(s: RunStatus) -> (r: bool)
    ensures
        r == terminal(s),
{
    match s {
        RunStatus::Succeeded | RunStatus::Failed | RunStatus::Cancelled | RunStatus::DeadLettered => true,
        RunStatus::Pending | RunStatus::Running | RunStatus::Suspended => false,
    }
}

/// The word a step's status goes by.
pub fn step_status_name(s: StepStatus) -> (r: &'static str)
    ensures
        r@ == step_word(s),
{
    match s {
        StepStatus::Pending => "pending",
        StepStatus::Ready => "ready",
        StepStatus::Running => "running",
        StepStatus::Succeeded => "succeeded",
        StepStatus::Failed => "failed",
        StepStatus::Skipped => "skipped",
        StepStatus::Cancelled => "cancelled",
    }
}

/// How many runs a listing has unless the request says.
pub const DEFAULT_RUNS_LIMIT: u32 = 50;

/// How many runs a listing has at most.
pub const MAX_RUNS_LIMIT: u32 = 200;

/// A request for a list of runs.
#[derive(Debug)]
pub struct ListRunsQuery {
    pub limit: Option<u32>,
}

/// The number of runs to read.
pub fn runs_limit(q: &ListRunsQuery) -> (r: u32)
    ensures
        r == (match q.limit {
            None => DEFAULT_RUNS_LIMIT,
            Some(n) => if n > MAX_RUNS_LIMIT {
                MAX_RUNS_LIMIT
            } else {
                n
            },
        }),
{
    match q.limit {
        None => DEFAULT_RUNS_LIMIT,
        Some(n) => if n > MAX_RUNS_LIMIT {
            MAX_RUNS_LIMIT
        } else {
            n
        },
    }
}

/// A run as the store lists it.
#[derive(Debug)]
pub struct RunSummary {
    pub run: String,
    pub status: RunStatus,
    pub created_at: i64,
    pub updated_at: i64,
    pub tenant: Option<(String, String)>,
    pub run_number: Option<i64>,
    pub trigger_kind: Option<String>,
    pub actor: Option<String>,
    pub git_ref: Option<String>,
    pub sha: Option<String>,
    pub pr_number: Option<i64>,
    pub pr_base: Option<String>,
    pub pipeline: Option<String>,
    pub trigger_title: Option<String>,
}

/// A run as a list shows it.
#[derive(Debug)]
pub struct RunSummaryDto {
    pub id: String,
    pub status: String,
    pub created_at: i64,
    pub duration_ms: i64,
    pub org: Option<String>,
    pub project: Option<String>,
    pub run_number: Option<i64>,
    pub trigger_kind: Option<String>,
    pub actor: Option<String>,
    pub git_ref: Option<String>,
    pub sha: Option<String>,
    pub pr_number: Option<i64>,
    pub origin_pr_base: Option<String>,
    pub pipeline: Option<String>,
    pub trigger_title: Option<String>,
}

#[derive(Debug)]
pub struct RunListResponse {
    pub runs: Vec<RunSummaryDto>,
}

/// The time from creation to the last transition, never negative.
pub open spec fn duration(created: i64, updated: i64) -> i64 {
    if updated <= created {
        0
    } else if updated - created > i64::MAX {
        i64::MAX
    } else {
        (updated - created) as i64
    }
}

/// The listing of a run.
pub open spec fn shown(d: RunSummaryDto, s: RunSummary) -> bool {
    &&& d.id == s.run
    &&& d.status@ == run_word(s.status)
    &&& d.created_at == s.created_at
    &&& d.duration_ms == duration(s.created_at, s.updated_at)
    &&& text::opt_view(d.org) == (match s.tenant {
        Some(t) => Some(t.0@),
        None => None,
    })
    &&& text::opt_view(d.project) == (match s.tenant {
        Some(t) => Some(t.1@),
        None => None,
    })
    &&& d.run_number == s.run_number
    &&& d.trigger_kind == s.trigger_kind
    &&& d.actor == s.actor
    &&& d.git_ref == s.git_ref
    &&& d.sha == s.sha
    &&& d.pr_number == s.pr_number
    &&& d.origin_pr_base == s.pr_base
    &&& d.pipeline == s.pipeline
    &&& d.trigger_title == s.trigger_title
}

impl RunSummaryDto {
    /// A run as a list shows it.
    pub fn of(s: RunSummary) -> (r: RunSummaryDto)
        ensures
            shown(r, s),
    {
        let (org, project) = match s.tenant {
            Some((o, p)) => (Some(o), Some(p)),
            None => (None, None),
        };
        let elapsed: i128 = s.updated_at as i128 - s.created_at as i128;
        let duration_ms: i64 = if elapsed <= 0 {
            0
        } else if elapsed > i64::MAX as i128 {
            i64::MAX
        } else {
            elapsed as i64
        };
        RunSummaryDto {
            id: s.run,
            status: run_status_name(s.status).to_owned(),
            created_at: s.created_at,
            duration_ms,
            org,
            project,
            run_number: s.run_number,
            trigger_kind: s.trigger_kind,
            actor: s.actor,
            git_ref: s.git_ref,
            sha: s.sha,
            pr_number: s.pr_number,
            origin_pr_base: s.pr_base,
            pipeline: s.pipeline,
            trigger_title: s.trigger_title,
        }
    }
}

/// The runs of a list, in their order.
pub fn run_list(runs: Vec<RunSummary>) -> (r: RunListResponse)
    ensures
        r.runs@.len() == runs@.len(),
        forall|i: int| 0 <= i < runs@.len() ==> shown(#[trigger] r.runs@[i], runs@[i]),
{
    let mut out: Vec<RunSummaryDto> = Vec::new();
    for s in it: runs
        invariant
            it.seq() == runs@,
            out@.len() == it.index(),
            forall|i: int| 0 <= i < it.index() ==> shown(#[trigger] out@[i], runs@[i]),
    {
        out.push(RunSummaryDto::of(s));
    }
    RunListResponse { runs: out }
}

pub open spec fn tenant_view(t: (String, String)) -> (Seq<char>, Seq<char>) {
    (t.0@, t.1@)
}

pub open spec fn tenant_views(v: Seq<(String, String)>) -> Seq<(Seq<char>, Seq<char>)> {
    v.map_values(|t: (String, String)| tenant_view(t))
}

/// The tenants of the runs, each once, in the order they first occur.
pub open spec fn tenants_of(runs: Seq<RunSummary>) -> Seq<(Seq<char>, Seq<char>)>
    decreases runs.len(),
{
    if runs.len() == 0 {
        Seq::empty()
    } else {
        let before = tenants_of(runs.drop_last());
        match runs.last().tenant {
            Some(t) => if before.contains(tenant_view(t)) {
                before
            } else {
                before.push(tenant_view(t))
            },
            None => before,
        }
    }
}

fn find_tenant(tenants: &Vec<(String, String)>, t: &(String, String)) -> (r: Option<usize>)
    ensures
        match r {
            Some(i) => i < tenants@.len() && tenant_views(tenants@)[i as int] == tenant_view(*t) && forall|j: int|
                0 <= j < i ==> #[trigger] tenant_views(tenants@)[j] != tenant_view(*t),
            None => !tenant_views(tenants@).contains(tenant_view(*t)),
        },
{
    let mut i: usize = 0;
    while i < tenants.len()
        invariant
            i <= tenants@.len(),
            forall|j: int| 0 <= j < i ==> #[trigger] tenant_views(tenants@)[j] != tenant_view(*t),
        decreases tenants@.len() - i,
    {
        if tenants[i].0 == t.0 && tenants[i].1 == t.1 {
            return Some(i);
        }
        i = i + 1;
    }
    None
}

/// The tenants a caller's bindings are asked for: each once, however many runs it has.
pub fn tenants_to_ask(runs: &Vec<RunSummary>) -> (r: Vec<(String, String)>)
    ensures
        tenant_views(r@) == tenants_of(runs@),
{
    let mut out: Vec<(String, String)> = Vec::new();
    let mut i: usize = 0;
    assert(tenant_views(out@) =~= tenants_of(runs@.take(0)));
    while i < runs.len()
        invariant
            i <= runs@.len(),
            tenant_views(out@) == tenants_of(runs@.take(i as int)),
        decreases runs@.len() - i,
    {
        let ghost before = tenant_views(out@);
        assert(runs@.take(i + 1).drop_last() =~= runs@.take(i as int));
        assert(runs@.take(i + 1).last() == runs@[i as int]);
        match &runs[i].tenant {
            Some(t) => match find_tenant(&out, t) {
                Some(k) => {
                    assert(before.contains(tenant_view(*t)));
                },
                None => {
                    out.push((t.0.clone(), t.1.clone()));
                    assert(tenant_views(out@) =~= before.push(tenant_view(*t)));
                },
            },
            None => {},
        }
        i = i + 1;
    }
    assert(runs@.take(i as int) =~= runs@);
    out
}

/// The run is visible to a caller whose bindings allow reading the marked tenants.
pub open spec fn visible(tenants: Seq<(Seq<char>, Seq<char>)>, allowed: Seq<bool>, run: RunSummary) -> bool {
    run.tenant matches Some(t) && exists|i: int|
        0 <= i < tenants.len() && #[trigger] tenants[i] == tenant_view(t) && allowed[i] && forall|j: int|
            0 <= j < i ==> #[trigger] tenants[j] != tenant_view(t)
}

/// The visible runs, in their order.
pub open spec fn visible_runs(runs: Seq<RunSummary>, tenants: Seq<(Seq<char>, Seq<char>)>, allowed: Seq<bool>) -> Seq<RunSummary>
    decreases runs.len(),
{
    if runs.len() == 0 {
        runs
    } else if visible(tenants, allowed, runs.last()) {
        visible_runs(runs.drop_last(), tenants, allowed).push(runs.last())
    } else {
        visible_runs(runs.drop_last(), tenants, allowed)
    }
}

/// The runs that a caller without a role of its own may see: those of the tenants its bindings
/// let it read. A run without a tenant is not among them.
pub fn list_runs(runs: Vec<RunSummary>, tenants: &Vec<(String, String)>, allowed: &Vec<bool>) -> (r: Vec<RunSummary>)
    requires
        tenants@.len() == allowed@.len(),
    ensures
        r@ == visible_runs(runs@, tenant_views(tenants@), allowed@),
{
    let ghost ts = tenant_views(tenants@);
    let mut out: Vec<RunSummary> = Vec::new();
    assert(out@ =~= visible_runs(runs@.take(0), ts, allowed@));
    for s in it: runs
        invariant
            it.seq() == runs@,
            ts == tenant_views(tenants@),
            tenants@.len() == allowed@.len(),
            out@ == visible_runs(runs@.take(it.index()), ts, allowed@),
    {
        let ghost k = it.index();
        assert(runs@.take(k + 1).drop_last() =~= runs@.take(k));
        assert(runs@.take(k + 1).last() == s);
        let ok: bool = match &s.tenant {
            Some(t) => match find_tenant(tenants, t) {
                Some(i) => {
                    let a: bool = allowed[i];
                    proof {
                        assert(ts[i as int] == tenant_view(*t));
                        if visible(ts, allowed@, s) {
                            let m = choose|m: int|
                                0 <= m < ts.len() && #[trigger] ts[m] == tenant_view(*t) && allowed@[m] && forall|j: int|
                                    0 <= j < m ==> #[trigger] ts[j] != tenant_view(*t);
                            assert(m == i);
                        }
                    }
                    a
                },
                None => {
                    proof {
                        if visible(ts, allowed@, s) {
                            let m = choose|m: int|
                                0 <= m < ts.len() && #[trigger] ts[m] == tenant_view(*t) && allowed@[m] && forall|j: int|
                                    0 <= j < m ==> #[trigger] ts[j] != tenant_view(*t);
                            assert(ts.contains(ts[m]));
                        }
                    }
                    false
                },
            },
            None => false,
        };
        if ok {
            out.push(s);
        }
    }
    assert(runs@.take(runs@.len() as int) =~= runs@);
    out
}

/// Nothing of another tenant is listed: every listed run has a tenant that the caller's bindings
/// let it read.
pub proof fn listed_runs_are_readable(runs: Seq<RunSummary>, tenants: Seq<(Seq<char>, Seq<char>)>, allowed: Seq<bool>, i: int)
    requires
        0 <= i < visible_runs(runs, tenants, allowed).len(),
    ensures
        visible(tenants, allowed, visible_runs(runs, tenants, allowed)[i]),
    decreases runs.len(),
{
    let rest = visible_runs(runs.drop_last(), tenants, allowed);
    if i < rest.len() {
        listed_runs_are_readable(runs.drop_last(), tenants, allowed, i);
    }
}

/// How an attempt failed.
#[derive(Debug, Clone, Copy, PartialEq, Eq, Structural)]
pub enum FailureKind {
    Infra,
    Step,
    Timeout,
    Lost,
    Config,
}

/// An attempt of a step as the store keeps it.
#[derive(Debug)]
pub struct Attempt {
    pub id: String,
    pub started_at: i64,
    pub failure: Option<FailureKind>,
    pub outcome: String,
}

/// An attempt as a run's page shows it.
#[derive(Debug)]
pub struct AttemptDto {
    pub id: String,
    pub started_at: i64,
    pub failed: bool,
    pub failure: Option<String>,
    pub outcome: String,
}

pub open spec fn failure_word(f: FailureKind) -> Seq<char> {
    match f {
        FailureKind::Infra => "infra"@,
        FailureKind::Step => "step"@,
        FailureKind::Timeout => "timeout"@,
        FailureKind::Lost => "lost"@,
        FailureKind::Config => "config"@,
    }
}

pub open spec fn attempt_shown(d: AttemptDto, a: Attempt) -> bool {
    &&& d.id@ == a.id@
    &&& d.started_at == a.started_at
    &&& d.failed == (a.failure is Some)
    &&& text::opt_view(d.failure) == (match a.failure {
        Some(f) => Some(failure_word(f)),
        None => None,
    })
    &&& d.outcome@ == a.outcome@
}

/// An attempt as a run's page shows it.
pub fn attempt_dto(a: &Attempt) -> (r: AttemptDto)
    ensures
        attempt_shown(r, *a),
{
    let failure: Option<String> = match a.failure {
        Some(f) => Some(
            match f {
                FailureKind::Infra => "infra",
                FailureKind::Step => "step",
                FailureKind::Timeout => "timeout",
                FailureKind::Lost => "lost",
                FailureKind::Config => "config",
            }.to_owned(),
        ),
        None => None,
    };
    let failed: bool = match a.failure {
        Some(_) => true,
        None => false,
    };
    AttemptDto { id: a.id.clone(), started_at: a.started_at, failed, failure, outcome: a.outcome.clone() }
}

/// A step as the store keeps it, with the services its specification declares.
#[derive(Debug)]
pub struct StepRecord {
    pub id: String,
    pub status: StepStatus,
    pub attempts: Vec<Attempt>,
    pub needs: Vec<String>,
    pub gate_kind: Option<String>,
    pub services: Vec<ServiceSpec>,
    pub uses: Vec<String>,
}

/// A service beside a step.
#[derive(Debug)]
pub struct StepServiceDto {
    pub index: usize,
    pub image: String,
    pub ports: Vec<u16>,
}

/// A step as a run's page shows it.
#[derive(Debug)]
pub struct StepStatusDto {
    pub id: String,
    pub status: String,
    pub attempts: usize,
    pub attempt_list: Vec<AttemptDto>,
    pub needs: Vec<String>,
    pub gate: Option<String>,
    pub services: Vec<StepServiceDto>,
    pub uses: Vec<String>,
}

pub open spec fn step_shown(d: StepStatusDto, s: StepRecord) -> bool {
    &&& d.id == s.id
    &&& d.status@ == step_word(s.status)
    &&& d.attempts == s.attempts@.len()
    &&& d.attempt_list@.len() == s.attempts@.len()
    &&& forall|i: int| 0 <= i < s.attempts@.len() ==> attempt_shown(#[trigger] d.attempt_list@[i], s.attempts@[i])
    &&& d.needs == s.needs
    &&& d.gate == s.gate_kind
    &&& d.services@.len() == s.services@.len()
    &&& forall|i: int|
        0 <= i < s.services@.len() ==> (#[trigger] d.services@[i]).index == i && d.services@[i].image@
            == s.services@[i].image@ && d.services@[i].ports@ == s.services@[i].ports@
    &&& d.uses == s.uses
}

/// A step as a run's page shows it.
pub fn step_status_dto(s: StepRecord) -> (r: StepStatusDto)
    ensures
        step_shown(r, s),
{
    let mut attempt_list: Vec<AttemptDto> = Vec::new();
    let mut i: usize = 0;
    while i < s.attempts.len()
        invariant
            i <= s.attempts@.len(),
            attempt_list@.len() == i,
            forall|j: int| 0 <= j < i ==> attempt_shown(#[trigger] attempt_list@[j], s.attempts@[j]),
        decreases s.attempts@.len() - i,
    {
        attempt_list.push(attempt_dto(&s.attempts[i]));
        i = i + 1;
    }
    let mut services: Vec<StepServiceDto> = Vec::new();
    let mut k: usize = 0;
    while k < s.services.len()
        invariant
            k <= s.services@.len(),
            services@.len() == k,
            forall|j: int|
                0 <= j < k ==> (#[trigger] services@[j]).index == j && services@[j].image@ == s.services@[j].image@
                    && services@[j].ports@ == s.services@[j].ports@,
        decreases s.services@.len() - k,
    {
        services.push(
            StepServiceDto {
                index: k,
                image: s.services[k].image.clone(),
                ports: model::copy_ports(&s.services[k].ports),
            },
        );
        k = k + 1;
    }
    StepStatusDto {
        id: s.id,
        status: step_status_name(s.status).to_owned(),
        attempts: s.attempts.len(),
        attempt_list,
        needs: s.needs,
        gate: s.gate_kind,
        services,
        uses: s.uses,
    }
}

/// A run's page.
#[derive(Debug)]
pub struct RunStatusResponse {
    pub id: String,
    pub status: String,
    pub run_number: Option<i64>,
    pub steps: Vec<StepStatusDto>,
    pub params: Vec<(String, Json)>,
    pub pipeline: Option<String>,
    pub trigger_title: Option<String>,
    pub origin_pr_base: Option<String>,
}

/// What the store says of a run besides its steps.
#[derive(Debug)]
pub struct RunFacts {
    pub status: RunStatus,
    pub run_number: Option<i64>,
    pub params: Vec<(String, Json)>,
    pub pipeline: Option<String>,
    pub trigger_title: Option<String>,
    pub pr_base: Option<String>,
}

/// A run's page, or that there is no such run.
pub fn get_run(id: String, facts: Option<RunFacts>, steps: Vec<StepRecord>) -> (r: Result<RunStatusResponse, ApiError>)
    ensures
        match facts {
            None => r matches Err(e) && e@ == ApiErrorView::NotFound,
            Some(f) => r matches Ok(p) && p.id == id && p.status@ == run_word(f.status) && p.run_number == f.run_number
                && p.params == f.params && p.pipeline == f.pipeline && p.trigger_title == f.trigger_title && p.origin_pr_base
                == f.pr_base && p.steps@.len() == steps@.len() && forall|i: int|
                0 <= i < steps@.len() ==> step_shown(#[trigger] p.steps@[i], steps@[i]),
        },
{
    let f = match facts {
        None => {
            return Err(ApiError::NotFound);
        },
        Some(f) => f,
    };
    let mut out: Vec<StepStatusDto> = Vec::new();
    for s in it: steps
        invariant
            it.seq() == steps@,
            out@.len() == it.index(),
            forall|i: int| 0 <= i < it.index() ==> step_shown(#[trigger] out@[i], steps@[i]),
    {
        out.push(step_status_dto(s));
    }
    Ok(
        RunStatusResponse {
            id,
            status: run_status_name(f.status).to_owned(),
            run_number: f.run_number,
            steps: out,
            params: f.params,
            pipeline: f.pipeline,
            trigger_title: f.trigger_title,
            origin_pr_base: f.pr_base,
        },
    )
}

/// The status that a cancellation is answered with: accepted, or a conflict where the run was
/// over already.
pub fn cancel_run(known: bool, cancelled: Result<bool, String>) -> (r: Result<u16, ApiError>)
    ensures
        if !known {
            r matches Err(e) && e@ == ApiErrorView::NotFound
        } else {
            match cancelled {
                Ok(true) => r == Ok::<u16, ApiError>(202u16),
                Ok(false) => r == Ok::<u16, ApiError>(409u16),
                Err(m) => r matches Err(e) && e@ == ApiErrorView::BadRequest(m@),
            }
        },
{
    if !known {
        return Err(ApiError::NotFound);
    }
    match cancelled {
        Ok(true) => Ok(202),
        Ok(false) => Ok(409),
        Err(m) => Err(ApiError::BadRequest(m)),
    }
}

/// Whether a debug shell may be attached to a step: it must exist and be running.
pub fn attach_step(status: Option<StepStatus>) -> (r: Result<(), ApiError>)
    ensures
        match status {
            None => r matches Err(e) && e@ == ApiErrorView::NotFound,
            Some(s) => if s == StepStatus::Running {
                r is Ok
            } else {
                r matches Err(e) && e@ == ApiErrorView::BadRequest(
                    "step is not running — a debug shell needs a live Pod"@,
                )
            },
        },
{
    match status {
        None => Err(ApiError::NotFound),
        Some(s) => if s == StepStatus::Running {
            Ok(())
        } else {
            Err(ApiError::BadRequest("step is not running — a debug shell needs a live Pod".to_owned()))
        },
    }
}

/// The image that a step is reproduced from, for a debug pod. It is asked for once the step is
/// known to exist; a step without a recorded spec cannot be reproduced.
pub fn debug_pod_step(known: bool, image: Option<String>) -> (r: Result<String, ApiError>)
    ensures
        match r {
            Ok(i) => known && image == Some(i),
            Err(e) => (!known || image is None) && e@ == ApiErrorView::NotFound,
        },
{
    match image {
        Some(i) if known => Ok(i),
        _ => Err(ApiError::NotFound),
    }
}

/// The seconds for which a debug pod lives.
pub const DEBUG_POD_TTL_SECS: u64 = 3600;

/// A registered project.
#[derive(Debug)]
pub struct ProjectDto {
    pub org: String,
    pub project: String,
    pub owner: String,
    pub name: String,
    pub repo_url: String,
    pub last_run_at: Option<i64>,
}

/// `a` was active later than `b`; a project that never ran counts as the earliest.
pub open spec fn more_recent(a: Option<i64>, b: Option<i64>) -> bool {
    match (a, b) {
        (Some(x), Some(y)) => x > y,
        (Some(_), None) => true,
        (None, _) => false,
    }
}

/// A repo of a connection, with what the registry and the run index say of it.
#[derive(Debug)]
pub struct ProjectFacts {
    pub repo: RepoRef,
    /// The project that the repo is; a repo that resolves to none is no project.
    pub resolved: Option<ResolvedRepo>,
    /// A binding of the caller's lets them read the project.
    pub readable: bool,
    /// When the project's most recent run was created.
    pub last_run_at: Option<i64>,
}

impl ProjectFacts {
    /// The org and project that the repo is.
    pub open spec fn tenant(self) -> (Seq<char>, Seq<char>) {
        match self.resolved {
            Some(x) => (x.org@, x.project@),
            None => (""@, ""@),
        }
    }

    /// The caller sees the project: through a role that reads everywhere, or through a binding.
    pub open spec fn visible(self, reads_all: bool) -> bool {
        self.resolved is Some && (reads_all || self.readable)
    }
}

impl Ranked for ProjectFacts {
    open spec fn ranks_before(&self, other: &Self) -> bool {
        if self.last_run_at == other.last_run_at {
            order::named_before(self.tenant(), other.tenant())
        } else {
            more_recent(self.last_run_at, other.last_run_at)
        }
    }

    proof fn rank_total(a: &Self, b: &Self) {
        order::named_before_total(a.tenant(), b.tenant());
    }

    proof fn rank_transitive(a: &Self, b: &Self, c: &Self) {
        if a.last_run_at == b.last_run_at && b.last_run_at == c.last_run_at {
            order::named_before_transitive(a.tenant(), b.tenant(), c.tenant());
        }
    }

    fn may_precede(&self, other: &Self) -> (r: bool) {
        match (self.last_run_at, other.last_run_at) {
            (Some(x), Some(y)) => {
                if x != y {
                    return x > y;
                }
            },
            (Some(_), None) => {
                return true;
            },
            (None, Some(_)) => {
                return false;
            },
            (None, None) => {},
        }
        let mine = match &self.resolved {
            Some(x) => (x.org.as_str(), x.project.as_str()),
            None => ("", ""),
        };
        let theirs = match &other.resolved {
            Some(x) => (x.org.as_str(), x.project.as_str()),
            None => ("", ""),
        };
        order::pair_le(mine, theirs)
    }
}

/// The projects that a caller sees, in their order.
pub open spec fn visible_projects(facts: Seq<ProjectFacts>, reads_all: bool) -> Seq<ProjectFacts>
    decreases facts.len(),
{
    if facts.len() == 0 {
        facts
    } else if facts.last().visible(reads_all) {
        visible_projects(facts.drop_last(), reads_all).push(facts.last())
    } else {
        visible_projects(facts.drop_last(), reads_all)
    }
}

/// A project as the dashboard shows it, with a link to its repo on the forge.
pub open spec fn project_shown(d: ProjectDto, f: ProjectFacts) -> bool {
    f.resolved matches Some(x) && {
        &&& d.org == x.org
        &&& d.project == x.project
        &&& d.owner == f.repo.owner
        &&& d.name == f.repo.name
        &&& d.repo_url@ == connections::web_host(x.connection.kind, x.connection.base_url@) + "/"@ + f.repo.owner@ + "/"@
            + f.repo.name@
        &&& d.last_run_at == f.last_run_at
    }
}

/// The projects as the dashboard lists them for a caller: the most recently active first, the
/// rest by org and name.
pub fn list_projects(facts: Vec<ProjectFacts>, reads_all: bool) -> (r: Vec<ProjectDto>)
    ensures
        r@.len() == visible_projects(facts@, reads_all).len(),
        r@.len() == sort::sorted(visible_projects(facts@, reads_all)).len(),
        forall|i: int|
            0 <= i < r@.len() ==> project_shown(#[trigger] r@[i], sort::sorted(visible_projects(facts@, reads_all))[i]),
{
    let ghost want = visible_projects(facts@, reads_all);
    let mut kept: Vec<ProjectFacts> = Vec::new();
    assert(kept@ =~= visible_projects(facts@.take(0), reads_all));
    for f in it: facts
        invariant
            it.seq() == facts@,
            kept@ == visible_projects(facts@.take(it.index()), reads_all),
            forall|i: int| 0 <= i < kept@.len() ==> (#[trigger] kept@[i]).resolved is Some,
    {
        let ghost k = it.index();
        assert(facts@.take(k + 1).drop_last() =~= facts@.take(k));
        assert(facts@.take(k + 1).last() == f);
        if f.resolved.is_some() && (reads_all || f.readable) {
            kept.push(f);
        }
    }
    assert(facts@.take(facts@.len() as int) =~= facts@);
    proof {
        sort::sorted_is_ordered_permutation(want);
        assert forall|i: int| 0 <= i < sort::sorted(want).len() implies (#[trigger] sort::sorted(want)[i]).resolved is Some by {
            let x = sort::sorted(want)[i];
            assert(sort::sorted(want).to_multiset().count(x) > 0) by {
                sort::sorted(want).to_multiset_ensures();
                assert(sort::sorted(want).contains(x));
            }
            want.to_multiset_ensures();
            assert(want.contains(x));
        }
    }
    let ordered = sort::sort(kept);
    let mut out: Vec<ProjectDto> = Vec::new();
    for f in it: ordered
        invariant
            it.seq() == ordered@,
            ordered@ == sort::sorted(want),
            forall|i: int| 0 <= i < ordered@.len() ==> (#[trigger] ordered@[i]).resolved is Some,
            out@.len() == it.index(),
            forall|i: int| 0 <= i < it.index() ==> project_shown(#[trigger] out@[i], ordered@[i]),
    {
        let ghost fact = f;
        assert(fact == ordered@[it.index()]);
        match f.resolved {
            Some(x) => {
                let repo_url = connections::web_repo_url(
                    x.connection.kind,
                    x.connection.base_url.as_str(),
                    f.repo.owner.as_str(),
                    f.repo.name.as_str(),
                );
                out.push(
                    ProjectDto {
                        org: x.org,
                        project: x.project,
                        owner: f.repo.owner,
                        name: f.repo.name,
                        repo_url,
                        last_run_at: f.last_run_at,
                    },
                );
            },
            None => {},
        }
    }
    out
}

/// Nobody is shown a project that neither a role of theirs nor a binding lets them read.
pub proof fn listed_projects_are_readable(facts: Seq<ProjectFacts>, reads_all: bool, i: int)
    requires
        0 <= i < visible_projects(facts, reads_all).len(),
    ensures
        facts.contains(visible_projects(facts, reads_all)[i]),
        visible_projects(facts, reads_all)[i].visible(reads_all),
    decreases facts.len(),
{
    let rest = facts.drop_last();
    if facts.last().visible(reads_all) && i == visible_projects(facts, reads_all).len() - 1 {
        assert(facts[facts.len() - 1] == facts.last());
    } else {
        listed_projects_are_readable(rest, reads_all, i);
        let k = choose|k: int| 0 <= k < rest.len() && rest[k] == visible_projects(rest, reads_all)[i];
        assert(facts[k] == rest[k]);
    }
}

/// Every status of a run goes by its own word.
pub proof fn runs_go_by_their_status(s: RunStatus)
    ensures
        run_word(s) == match s {
            RunStatus::Pending => "pending"@,
            RunStatus::Running => "running"@,
            RunStatus::Suspended => "suspended"@,
            RunStatus::Succeeded => "succeeded"@,
            RunStatus::Failed => "failed"@,
            RunStatus::Cancelled => "cancelled"@,
            RunStatus::DeadLettered => "dead_lettered"@,
        },
        !terminal(s) <==> s is Pending || s is Running || s is Suspended,
{
}

/// Every status of a step and every way an attempt fails goes by its own word.
pub proof fn steps_go_by_their_status(s: StepStatus, f: FailureKind)
    ensures
        step_word(s) == match s {
            StepStatus::Pending => "pending"@,
            StepStatus::Ready => "ready"@,
            StepStatus::Running => "running"@,
            StepStatus::Succeeded => "succeeded"@,
            StepStatus::Failed => "failed"@,
            StepStatus::Skipped => "skipped"@,
            StepStatus::Cancelled => "cancelled"@,
        },
        failure_word(f) == match f {
            FailureKind::Infra => "infra"@,
            FailureKind::Step => "step"@,
            FailureKind::Timeout => "timeout"@,
            FailureKind::Lost => "lost"@,
            FailureKind::Config => "config"@,
        },
{
}

/// A run's creation and its duration add up to its last transition; only a clock that went
/// backwards gives none, and only a time that does not fit is cut.
pub proof fn durations_reach_the_last_transition(created: i64, updated: i64)
    ensures
        created <= updated <= created + i64::MAX ==> created + duration(created, updated) == updated,
        updated < created ==> duration(created, updated) == 0,
        updated > created + i64::MAX ==> duration(created, updated) == i64::MAX,
{
}

/// A listed run says what the store says of it.
pub proof fn runs_are_listed_as_they_are(d: RunSummaryDto, s: RunSummary)
    requires
        shown(d, s),
    ensures
        d.id == s.run && d.created_at == s.created_at && d.run_number == s.run_number,
        s.updated_at >= s.created_at && s.updated_at - s.created_at <= i64::MAX ==> d.created_at + d.duration_ms
            == s.updated_at,
        s.tenant matches Some(t) ==> text::opt_view(d.org) == Some(t.0@) && text::opt_view(d.project) == Some(t.1@),
        s.tenant is None ==> d.org is None && d.project is None,
        d.trigger_kind == s.trigger_kind && d.actor == s.actor && d.git_ref == s.git_ref && d.sha == s.sha,
        d.pr_number == s.pr_number && d.origin_pr_base == s.pr_base && d.pipeline == s.pipeline && d.trigger_title
            == s.trigger_title,
        s.status is Succeeded <==> d.status@ == "succeeded"@,
        s.status is Failed <==> d.status@ == "failed"@,
        s.status is Running <==> d.status@ == "running"@,
{
    reveal_strlit("pending");
    reveal_strlit("running");
    reveal_strlit("suspended");
    reveal_strlit("succeeded");
    reveal_strlit("failed");
    reveal_strlit("cancelled");
    reveal_strlit("dead_lettered");
    assert("pending"@[0] == 'p');
    assert("running"@[0] == 'r');
    assert("suspended"@[1] == 'u');
    assert("succeeded"@[2] == 'c');
    assert("suspended"@[2] == 's');
    assert("failed"@[0] == 'f');
    assert("cancelled"@[0] == 'c');
    assert("dead_lettered"@[0] == 'd');
}

/// Every attempt of a step is on its page, in order: its failure is shown exactly where it
/// failed. So is every service, under its position, and what the step needs, uses and waits for.
pub proof fn steps_are_shown_as_they_are(d: StepStatusDto, s: StepRecord, i: int)
    requires
        step_shown(d, s),
    ensures
        d.id == s.id && d.needs == s.needs && d.uses == s.uses && d.gate == s.gate_kind,
        d.attempts == s.attempts@.len() && d.attempt_list@.len() == s.attempts@.len(),
        0 <= i < s.attempts@.len() ==> {
            let a = d.attempt_list@[i];
            &&& a.id@ == s.attempts@[i].id@
            &&& a.started_at == s.attempts@[i].started_at
            &&& a.outcome@ == s.attempts@[i].outcome@
            &&& a.failed <==> s.attempts@[i].failure is Some
            &&& a.failure is Some <==> a.failed
            &&& s.attempts@[i].failure is Some ==> a.failure->0@ == failure_word(s.attempts@[i].failure->0)
        },
        d.services@.len() == s.services@.len(),
        0 <= i < s.services@.len() ==> d.services@[i].index == i && d.services@[i].image@ == s.services@[i].image@
            && d.services@[i].ports@ == s.services@[i].ports@,
        d.status@ == step_word(s.status),
{
    if 0 <= i < s.attempts@.len() {
        assert(attempt_shown(d.attempt_list@[i], s.attempts@[i]));
    }
}

/// Each tenant with a run is asked for once, and no other tenant is.
pub proof fn every_tenant_is_asked_for_once(runs: Seq<RunSummary>, t: (Seq<char>, Seq<char>))
    ensures
        tenants_of(runs).no_duplicates(),
        tenants_of(runs).contains(t) <==> exists|i: int|
            0 <= i < runs.len() && (#[trigger] runs[i]).tenant is Some && tenant_view(runs[i].tenant->0) == t,
    decreases runs.len(),
{
    if runs.len() > 0 {
        let rest = runs.drop_last();
        let before = tenants_of(rest);
        let all = tenants_of(runs);
        every_tenant_is_asked_for_once(rest, t);
        if all.contains(t) {
            let k = choose|k: int| 0 <= k < all.len() && all[k] == t;
            if k < before.len() {
                assert(before[k] == t);
                let i = choose|i: int|
                    0 <= i < rest.len() && (#[trigger] rest[i]).tenant is Some && tenant_view(rest[i].tenant->0) == t;
                assert(runs[i] == rest[i]);
            } else {
                assert(runs[runs.len() - 1] == runs.last());
            }
        }
        if exists|i: int| 0 <= i < runs.len() && (#[trigger] runs[i]).tenant is Some && tenant_view(runs[i].tenant->0) == t {
            let i = choose|i: int|
                0 <= i < runs.len() && (#[trigger] runs[i]).tenant is Some && tenant_view(runs[i].tenant->0) == t;
            if i < rest.len() {
                assert(rest[i] == runs[i]);
                let k = choose|k: int| 0 <= k < before.len() && before[k] == t;
                assert(all[k] == t);
            } else if !before.contains(t) {
                assert(all[all.len() - 1] == t);
            } else {
                assert(all == before);
            }
        }
    }
}

/// Where each tenant stands once, a run is visible exactly where its tenant was allowed.
pub proof fn allowed_tenants_show_their_runs(
    tenants: Seq<(Seq<char>, Seq<char>)>,
    allowed: Seq<bool>,
    run: RunSummary,
    i: int,
)
    requires
        tenants.no_duplicates(),
        0 <= i < tenants.len(),
        run.tenant is Some,
        tenant_view(run.tenant->0) == tenants[i],
    ensures
        visible(tenants, allowed, run) <==> allowed[i],
{
    assert forall|j: int| 0 <= j < i implies #[trigger] tenants[j] != tenants[i] by {}
    if visible(tenants, allowed, run) {
        let m = choose|m: int|
            0 <= m < tenants.len() && #[trigger] tenants[m] == tenants[i] && allowed[m] && forall|j: int|
                0 <= j < m ==> #[trigger] tenants[j] != tenants[i];
        assert(m == i);
    }
}

/// A run without a tenant, or of a tenant that was not asked for, is not visible.
pub proof fn other_runs_stay_hidden(tenants: Seq<(Seq<char>, Seq<char>)>, allowed: Seq<bool>, run: RunSummary)
    ensures
        run.tenant is None ==> !visible(tenants, allowed, run),
        run.tenant is Some && !tenants.contains(tenant_view(run.tenant->0)) ==> !visible(tenants, allowed, run),
{
    if run.tenant is Some && visible(tenants, allowed, run) {
        let t = run.tenant->0;
        let m = choose|m: int|
            0 <= m < tenants.len() && #[trigger] tenants[m] == tenant_view(t) && allowed[m] && forall|j: int|
                0 <= j < m ==> #[trigger] tenants[j] != tenant_view(t);
        assert(tenants.contains(tenants[m]));
    }
}

/// A list keeps every visible run in its place: two lists behind each other show what each of
/// them shows, a list of one visible run shows it, and one of a hidden run shows nothing.
pub proof fn visible_runs_are_all_listed(
    first: Seq<RunSummary>,
    more: Seq<RunSummary>,
    run: RunSummary,
    tenants: Seq<(Seq<char>, Seq<char>)>,
    allowed: Seq<bool>,
)
    ensures
        visible_runs(first + more, tenants, allowed) == visible_runs(first, tenants, allowed) + visible_runs(
            more,
            tenants,
            allowed,
        ),
        visible_runs(seq![run], tenants, allowed) == if visible(tenants, allowed, run) {
            seq![run]
        } else {
            Seq::<RunSummary>::empty()
        },
    decreases more.len(),
{
    reveal_with_fuel(visible_runs, 2);
    assert(seq![run].drop_last() =~= Seq::<RunSummary>::empty());
    assert(Seq::<RunSummary>::empty().push(run) =~= seq![run]);
    if more.len() == 0 {
        assert(first + more =~= first);
        assert(visible_runs(first, tenants, allowed) + visible_runs(more, tenants, allowed) =~= visible_runs(
            first,
            tenants,
            allowed,
        ));
    } else {
        let rest = more.drop_last();
        visible_runs_are_all_listed(first, rest, run, tenants, allowed);
        assert((first + more).drop_last() =~= first + rest);
        assert((first + more).last() == more.last());
        assert(visible_runs(first, tenants, allowed) + visible_runs(rest, tenants, allowed).push(more.last()) =~= (
        visible_runs(first, tenants, allowed) + visible_runs(rest, tenants, allowed)).push(more.last()));
    }
}

/// A caller sees every project that a role of theirs or a binding lets them read, and a repo that
/// is no project is never seen.
pub proof fn readable_projects_are_seen(facts: Seq<ProjectFacts>, reads_all: bool, i: int)
    requires
        0 <= i < facts.len(),
    ensures
        facts[i].resolved is Some && (reads_all || facts[i].readable) ==> visible_projects(facts, reads_all).contains(
            facts[i],
        ),
        facts[i].visible(reads_all) ==> facts[i].resolved is Some && (reads_all || facts[i].readable),
        visible_projects(facts, reads_all).len() <= facts.len(),
    decreases facts.len(),
{
    let rest = facts.drop_last();
    let before = visible_projects(rest, reads_all);
    let all = visible_projects(facts, reads_all);
    if i < rest.len() {
        readable_projects_are_seen(rest, reads_all, i);
        assert(rest[i] == facts[i]);
        if before.contains(facts[i]) {
            let k = choose|k: int| 0 <= k < before.len() && before[k] == facts[i];
            assert(all[k] == facts[i]);
        }
    } else {
        if rest.len() > 0 {
            readable_projects_are_seen(rest, reads_all, 0);
        }
        if facts[i].visible(reads_all) {
            assert(all[all.len() - 1] == facts[i]);
        }
    }
}

/// Projects stand in the order of their last run, the latest first and those that never ran last;
/// those that ran at one time stand by org and name.
pub proof fn recent_projects_come_first(a: ProjectFacts, b: ProjectFacts)
    ensures
        a.last_run_at is Some && b.last_run_at is Some && a.last_run_at->0 != b.last_run_at->0 ==> (a.ranks_before(&b)
            <==> a.last_run_at->0 > b.last_run_at->0),
        a.last_run_at is Some && b.last_run_at is None ==> a.ranks_before(&b) && !b.ranks_before(&a),
        a.last_run_at == b.last_run_at ==> (a.ranks_before(&b) <==> order::named_before(a.tenant(), b.tenant())),
        a.resolved matches Some(r) ==> a.tenant() == (r.org@, r.project@),
{
}

/// A project's entry names the project, the repo and its page on the forge.
pub proof fn projects_are_shown_as_they_are(d: ProjectDto, f: ProjectFacts)
    requires
        project_shown(d, f),
    ensures
        f.resolved is Some,
        d.org == f.resolved->0.org && d.project == f.resolved->0.project,
        d.owner == f.repo.owner && d.name == f.repo.name && d.last_run_at == f.last_run_at,
        f.resolved->0.connection.kind is Forgejo ==> d.repo_url@ == text::trim_end(
            f.resolved->0.connection.base_url@,
            '/',
        ) + "/"@ + f.repo.owner@ + "/"@ + f.repo.name@,
{
}

} // verus!
