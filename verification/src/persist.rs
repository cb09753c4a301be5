//! What creating a run writes to the durable store, as an ordered plan of store operations.
//!
//! A plan that fails carries the message of the failure and no operation: nothing of a rejected
//! run is written.

use crate::admission;
use crate::admission::RunGovernance;
use crate::event;
use crate::event::Event;
use crate::json::{Json, JsonView};
use crate::model;
use crate::model::{
    AdmittedGrants,
    BuildConfig,
    BuildDirective,
    BuildView,
    CloneConfig,
    CloneDirective,
    CloneView,
    Concurrency,
    GrantsView,
    IrStep,
    PipelineIr,
    SpecView,
    StepSpec,
};
use crate::refs;
use crate::text;
use vstd::prelude::*;

verus! {

/// The coordinates a deploy run is admitted and recorded under.
#[derive(Debug)]
pub struct DeployContext {
    pub org: String,
    pub project: String,
    pub environment: String,
    pub git_ref: String,
    pub locked_out: bool,
}

/// The mathematical model of a [`DeployContext`].
pub struct DeployView {
    pub org: Seq<char>,
    pub project: Seq<char>,
    pub environment: Seq<char>,
    pub git_ref: Seq<char>,
    pub locked_out: bool,
}

impl View for DeployContext {
    type V = DeployView;

    open spec fn view(&self) -> DeployView {
        DeployView {
            org: self.org@,
            project: self.project@,
            environment: self.environment@,
            git_ref: self.git_ref@,
            locked_out: self.locked_out,
        }
    }
}

/// How a run waits for its concurrency group: by the policy the pipeline declares, or always in
/// the queue.
#[derive(Debug)]
pub enum GroupPolicy {
    Declared(String),
    Queue,
}

pub enum GroupPolicyView {
    Declared(Seq<char>),
    Queue,
}

impl View for GroupPolicy {
    type V = GroupPolicyView;

    open spec fn view(&self) -> GroupPolicyView {
        match self {
            GroupPolicy::Declared(p) => GroupPolicyView::Declared(p@),
            GroupPolicy::Queue => GroupPolicyView::Queue,
        }
    }
}

/// One write to the durable store on behalf of a new run.
#[derive(Debug)]
pub enum DbOp {
    CreateRun { ir_version: u32 },
    SetTenant { org: String, project: String },
    AllocateRunNumber { org: String, project: String },
    SetOrigin {
        kind: String,
        actor: Option<String>,
        git_ref: Option<String>,
        sha: Option<String>,
        pr_number: Option<i64>,
        pr_base: Option<String>,
    },
    SetPipeline { name: String },
    SetTriggerTitle { title: String },
    /// Store the compiled pipeline on the run.
    StoreIr,
    /// Freeze the resolved launch parameters on the run.
    SetParams,
    SetDeployContext { context: DeployContext },
    SetConcurrency { group: String, policy: GroupPolicy },
    SetSupersedeKey { key: String },
    AppendRunCreated,
    /// Append the trigger's context document to the event log.
    AppendTrigger,
    CreateStep { step: String, spec: Option<StepSpec>, needs: Vec<String> },
    SetGate { step: String, kind: String, timer_seconds: Option<i64> },
    SetStepInputs { step: String, inputs: Vec<String> },
    /// Move a step from pending to skipped.
    SkipStep { step: String },
    /// Append that move to the event log.
    AppendSkipped { step: String },
}

/// The mathematical model of a [`DbOp`].
pub enum OpView {
    CreateRun { ir_version: u32 },
    SetTenant { org: Seq<char>, project: Seq<char> },
    AllocateRunNumber { org: Seq<char>, project: Seq<char> },
    SetOrigin {
        kind: Seq<char>,
        actor: Option<Seq<char>>,
        git_ref: Option<Seq<char>>,
        sha: Option<Seq<char>>,
        pr_number: Option<i64>,
        pr_base: Option<Seq<char>>,
    },
    SetPipeline { name: Seq<char> },
    SetTriggerTitle { title: Seq<char> },
    StoreIr,
    SetParams,
    SetDeployContext { context: DeployView },
    SetConcurrency { group: Seq<char>, policy: GroupPolicyView },
    SetSupersedeKey { key: Seq<char> },
    AppendRunCreated,
    AppendTrigger,
    CreateStep { step: Seq<char>, spec: Option<SpecView>, needs: Seq<Seq<char>> },
    SetGate { step: Seq<char>, kind: Seq<char>, timer_seconds: Option<i64> },
    SetStepInputs { step: Seq<char>, inputs: Seq<Seq<char>> },
    SkipStep { step: Seq<char> },
    AppendSkipped { step: Seq<char> },
}

impl View for DbOp {
    type V = OpView;

    open spec fn view(&self) -> OpView {
        match self {
            DbOp::CreateRun { ir_version } => OpView::CreateRun { ir_version: *ir_version },
            DbOp::SetTenant { org, project } => OpView::SetTenant { org: org@, project: project@ },
            DbOp::AllocateRunNumber { org, project } => OpView::AllocateRunNumber { org: org@, project: project@ },
            DbOp::SetOrigin { kind, actor, git_ref, sha, pr_number, pr_base } => OpView::SetOrigin {
                kind: kind@,
                actor: text::opt_view(*actor),
                git_ref: text::opt_view(*git_ref),
                sha: text::opt_view(*sha),
                pr_number: *pr_number,
                pr_base: text::opt_view(*pr_base),
            },
            DbOp::SetPipeline { name } => OpView::SetPipeline { name: name@ },
            DbOp::SetTriggerTitle { title } => OpView::SetTriggerTitle { title: title@ },
            DbOp::StoreIr => OpView::StoreIr,
            DbOp::SetParams => OpView::SetParams,
            DbOp::SetDeployContext { context } => OpView::SetDeployContext { context: context@ },
            DbOp::SetConcurrency { group, policy } => OpView::SetConcurrency { group: group@, policy: policy@ },
            DbOp::SetSupersedeKey { key } => OpView::SetSupersedeKey { key: key@ },
            DbOp::AppendRunCreated => OpView::AppendRunCreated,
            DbOp::AppendTrigger => OpView::AppendTrigger,
            DbOp::CreateStep { step, spec, needs } => OpView::CreateStep {
                step: step@,
                spec: match spec {
                    Some(s) => Some(s@),
                    None => None,
                },
                needs: text::views(needs@),
            },
            DbOp::SetGate { step, kind, timer_seconds } => OpView::SetGate {
                step: step@,
                kind: kind@,
                timer_seconds: *timer_seconds,
            },
            DbOp::SetStepInputs { step, inputs } => OpView::SetStepInputs {
                step: step@,
                inputs: text::views(inputs@),
            },
            DbOp::SkipStep { step } => OpView::SkipStep { step: step@ },
            DbOp::AppendSkipped { step } => OpView::AppendSkipped { step: step@ },
        }
    }
}

pub open spec fn op_views(ops: Seq<DbOp>) -> Seq<OpView> {
    ops.map_values(|o: DbOp| o@)
}

/// The operations of a run's creation, and the failure that ends them where one does.
#[derive(Debug)]
pub struct PersistPlan {
    pub ops: Vec<DbOp>,
    pub failure: Option<String>,
}

/// The mathematical model of a [`PersistPlan`].
#[verifier::ext_equal]
pub struct PlanView {
    pub ops: Seq<OpView>,
    pub failure: Option<Seq<char>>,
}

impl View for PersistPlan {
    type V = PlanView;

    open spec fn view(&self) -> PlanView {
        PlanView { ops: op_views(self.ops@), failure: text::opt_view(self.failure) }
    }
}

/// Append an operation to a list under construction.
pub fn push_op(ops: &mut Vec<DbOp>, op: DbOp)
    ensures
        op_views(final(ops)@) == op_views(old(ops)@).push(op@),
        final(ops)@ == old(ops)@.push(op),
{
    ops.push(op);
    assert(op_views(ops@) =~= op_views(old(ops)@).push(op@));
}

/// Append a list of operations to a list under construction.
pub fn push_ops(ops: &mut Vec<DbOp>, more: Vec<DbOp>)
    ensures
        op_views(final(ops)@) == op_views(old(ops)@) + op_views(more@),
{
    let mut more = more;
    let ghost added = more@;
    ops.append(&mut more);
    assert(op_views(ops@) =~= op_views(old(ops)@) + op_views(added));
}

/// The message of a step's rejected request.
pub open spec fn step_message(id: Seq<char>, middle: Seq<char>, violations: Seq<Seq<char>>) -> Seq<char> {
    "step `"@ + id + middle + text::join(violations, "; "@)
}

/// The message of a step's rejected request, with the words `middle` behind the step's name.
pub fn step_message_of(id: &str, middle: &str, violations: &Vec<String>) -> (r: String)
    ensures
        r@ == step_message(id@, middle@, text::views(violations@)),
{
    let mut s = "step `".to_owned();
    s.append(id);
    s.append(middle);
    s.append(text::join_strings(violations, "; ").as_str());
    s
}

/// What a clone step launches: the canonical checkout pinned to the event's commit. A locked
/// out or fork run only ever gets a read-only credential.
pub open spec fn clone_spec(
    step: IrStep,
    clone: CloneDirective,
    event: Event,
    gov: RunGovernance,
    overlay: Option<JsonView>,
) -> SpecView {
    let (repo, sha) = event::clone_source(event)->0;
    SpecView {
        image: Seq::<char>::empty(),
        command: Seq::<Seq<char>>::empty(),
        env: model::pair_views(step.env@),
        secrets: Seq::<Seq<char>>::empty(),
        grants: model::no_grants(),
        timeout_seconds: step.timeout,
        workspace_inputs: Seq::<Seq<char>>::empty(),
        workspace_outputs: model::declared_outputs(step.outputs),
        clone: Some(
            CloneView {
                owner: repo.owner,
                name: repo.name,
                sha,
                depth_full: clone.full_depth,
                submodules: clone.submodules,
                lfs: clone.lfs,
                read_only: gov.is_locked_out() || event.fork_pr,
                url: Seq::<char>::empty(),
                credential: None,
            },
        ),
        build: None,
        artifacts: JsonView::Array(Seq::<JsonView>::empty()),
        placement_profiles: text::views(step.placement_profiles@),
        resources: step.resources@,
        k8s_overlay: overlay,
        oidc_token: None,
        services: Seq::<model::ServiceView>::empty(),
        uses: Seq::<Seq<char>>::empty(),
        matrix_values: step.matrix_values@,
    }
}

/// `s`, or `default` where `s` is empty.
pub open spec fn or_default(s: Seq<char>, default: Seq<char>) -> Seq<char> {
    if s.len() == 0 {
        default
    } else {
        s
    }
}

/// What a build step builds. A locked out run never pushes.
pub open spec fn build_view(b: BuildDirective, event: Event, gov: RunGovernance) -> BuildView {
    BuildView {
        context: or_default(b.context@, "."@),
        dockerfile: or_default(b.dockerfile@, "Dockerfile"@),
        image: b.image@,
        repo_owner: match event.repo {
            Some(r) => r.owner@,
            None => Seq::<char>::empty(),
        },
        repo_name: match event.repo {
            Some(r) => r.name@,
            None => Seq::<char>::empty(),
        },
        push: b.push && !gov.is_locked_out(),
        insecure_push: false,
        registry_auth_json: None,
        derived_auth: None,
    }
}

/// What an ordinary or build step launches.
pub open spec fn work_spec(
    step: IrStep,
    event: Event,
    gov: RunGovernance,
    grants: GrantsView,
    overlay: Option<JsonView>,
) -> SpecView {
    SpecView {
        image: step.image@,
        command: text::views(step.command@),
        env: model::pair_views(step.env@),
        secrets: text::views(step.secrets@),
        grants,
        timeout_seconds: step.timeout,
        workspace_inputs: Seq::<Seq<char>>::empty(),
        workspace_outputs: model::declared_outputs(step.outputs),
        clone: None,
        build: match step.build {
            Some(b) => Some(build_view(b, event, gov)),
            None => None,
        },
        artifacts: step.artifacts@,
        placement_profiles: text::views(step.placement_profiles@),
        resources: step.resources@,
        k8s_overlay: overlay,
        oidc_token: None,
        services: model::service_views(step.services@),
        uses: text::views(step.uses@),
        matrix_values: step.matrix_values@,
    }
}

pub open spec fn ruling_of(step: IrStep, gov: RunGovernance) -> Option<model::GrantRuling> {
    if gov.rules() is Some {
        Some(step.ruling)
    } else {
        None
    }
}

/// The operations that create a step's row, or the message that rejects it.
pub open spec fn creation_ops(step: IrStep, event: Event, gov: RunGovernance) -> Result<Seq<OpView>, Seq<char>> {
    let needs = text::views(step.needs@);
    let overlay = admission::step_overlay(admission::permits_overlay(gov.rules()), step.k8s_overlay);
    match (step.gate, step.clone) {
        (Some(kind), _) => Ok(
            seq![
                OpView::CreateStep { step: step.id@, spec: None, needs },
                OpView::SetGate {
                    step: step.id@,
                    kind: kind@,
                    timer_seconds: match step.gate_after {
                        Some(s) => Some(s as i64),
                        None => None,
                    },
                },
            ],
        ),
        (None, Some(clone)) => match (event::clone_source(event), overlay) {
            (None, _) => Err(
                "step `"@ + step.id@
                    + "`: a clone step needs a sha-carrying trigger (push/pull_request/manual/api) — this run was triggered by `"@
                    + event.kind@ + "`"@,
            ),
            (Some(_), Err(v)) => Err(step_message(step.id@, "`: "@, v)),
            (Some(_), Ok(o)) => Ok(
                seq![
                    OpView::CreateStep {
                        step: step.id@,
                        spec: Some(clone_spec(step, clone, event, gov, o)),
                        needs,
                    },
                ],
            ),
        },
        (None, None) => match (admission::step_grants(ruling_of(step, gov), step.security), overlay) {
            (Err(v), _) => Err(step_message(step.id@, "`: privilege request rejected: "@, v)),
            (Ok(_), Err(v)) => Err(step_message(step.id@, "`: "@, v)),
            (Ok(g), Ok(o)) => Ok(
                seq![
                    OpView::CreateStep {
                        step: step.id@,
                        spec: Some(work_spec(step, event, gov, g, o)),
                        needs,
                    },
                ],
            ),
        },
    }
}

/// The operation that threads a step's declared input workspaces.
pub open spec fn input_ops(id: Seq<char>, inputs: Option<Vec<String>>) -> Seq<OpView> {
    match inputs {
        Some(v) => seq![OpView::SetStepInputs { step: id, inputs: text::views(v@) }],
        None => Seq::<OpView>::empty(),
    }
}

/// The operations that start a guarded-off step as skipped, its edges intact.
pub open spec fn skip_ops(id: Seq<char>, excluded: Seq<Seq<char>>) -> Seq<OpView> {
    if excluded.contains(id) {
        seq![OpView::SkipStep { step: id }, OpView::AppendSkipped { step: id }]
    } else {
        Seq::<OpView>::empty()
    }
}

/// All operations of one step, or the message that rejects it.
pub open spec fn step_ops(step: IrStep, event: Event, gov: RunGovernance, excluded: Seq<Seq<char>>) -> Result<
    Seq<OpView>,
    Seq<char>,
> {
    match creation_ops(step, event, gov) {
        Err(m) => Err(m),
        Ok(ops) => Ok(ops + input_ops(step.id@, step.inputs) + skip_ops(step.id@, excluded)),
    }
}

/// The operations of the steps in order; where one is rejected there are none, and the first
/// rejection is the failure.
pub open spec fn steps_plan(steps: Seq<IrStep>, event: Event, gov: RunGovernance, excluded: Seq<Seq<char>>) -> PlanView
    decreases steps.len(),
{
    if steps.len() == 0 {
        PlanView { ops: Seq::<OpView>::empty(), failure: None }
    } else {
        let before = steps_plan(steps.drop_last(), event, gov, excluded);
        if before.failure is Some {
            before
        } else {
            match step_ops(steps.last(), event, gov, excluded) {
                Err(m) => PlanView { ops: Seq::<OpView>::empty(), failure: Some(m) },
                Ok(more) => PlanView { ops: before.ops + more, failure: None },
            }
        }
    }
}

/// The run's tenant and number, from the event's repository.
pub open spec fn tenant_ops(event: Event) -> Seq<OpView> {
    match event.repo {
        Some(r) => seq![
            OpView::SetTenant { org: r.owner@, project: r.name@ },
            OpView::AllocateRunNumber { org: r.owner@, project: r.name@ },
        ],
        None => Seq::<OpView>::empty(),
    }
}

/// The trigger facts the run was born from.
pub open spec fn origin_op(event: Event) -> OpView {
    OpView::SetOrigin {
        kind: event.kind@,
        actor: text::opt_view(event.actor),
        git_ref: text::opt_view(event.protection_ref),
        sha: event::pinned_sha(event.trigger),
        pr_number: match event.trigger {
            event::Trigger::PullRequest { number, head, base } => Some(number as i64),
            _ => None,
        },
        pr_base: event::pr_base(event.trigger),
    }
}

/// The pipeline's own name, else the bare name of its path.
pub open spec fn pipeline_name(ir: PipelineIr, path: Seq<char>) -> Seq<char> {
    match ir.name {
        Some(n) => n@,
        None => refs::bare_name(path),
    }
}

pub open spec fn title_ops(title: Option<String>) -> Seq<OpView> {
    match title {
        Some(t) => seq![OpView::SetTriggerTitle { title: t@ }],
        None => Seq::<OpView>::empty(),
    }
}

/// The symbolic ref a deploy is admitted and recorded under.
pub open spec fn deploy_ref(event: Event) -> Seq<char> {
    match event.protection_ref {
        Some(r) => r@,
        None => event::config_ref_of(event.trigger),
    }
}

/// A deploy run's coordinates; an ordinary run has none.
pub open spec fn deploy_ops(event: Event, gov: RunGovernance) -> Seq<OpView> {
    match (gov, event.repo) {
        (RunGovernance::Governed { environment, locked_out, protection }, Some(r)) => seq![
            OpView::SetDeployContext {
                context: DeployView {
                    org: r.owner@,
                    project: r.name@,
                    environment: environment@,
                    git_ref: deploy_ref(event),
                    locked_out,
                },
            },
        ],
        _ => Seq::<OpView>::empty(),
    }
}

/// The policy of a concurrency group: a deploy always queues.
pub open spec fn group_policy(gov: RunGovernance, declared: Seq<char>) -> GroupPolicyView {
    if gov is Ungoverned {
        GroupPolicyView::Declared(declared)
    } else {
        GroupPolicyView::Queue
    }
}

/// The auto-cancel key of an ordinary run; a deploy has none.
pub open spec fn supersede_ops(event: Event, gov: RunGovernance, path: Seq<char>) -> Seq<OpView> {
    match event::supersede_key_of(event, path) {
        Some(key) => if gov is Ungoverned {
            seq![OpView::SetSupersedeKey { key }]
        } else {
            Seq::<OpView>::empty()
        },
        None => Seq::<OpView>::empty(),
    }
}

/// The operations before the concurrency group is claimed.
pub open spec fn head_ops(ir: PipelineIr, event: Event, path: Seq<char>, gov: RunGovernance) -> Seq<OpView> {
    seq![OpView::CreateRun { ir_version: ir.ir_version }] + tenant_ops(event) + seq![
        origin_op(event),
        OpView::SetPipeline { name: pipeline_name(ir, path) },
    ] + title_ops(event.trigger_title) + seq![OpView::StoreIr] + deploy_ops(event, gov)
}

pub open spec fn group_ops(c: Option<Concurrency>, gov: RunGovernance) -> Result<Seq<OpView>, Seq<char>> {
    match c {
        None => Ok(Seq::<OpView>::empty()),
        Some(c) => match c.resolved {
            Ok(group) => Ok(
                seq![OpView::SetConcurrency { group: group@, policy: group_policy(gov, c.policy@) }],
            ),
            Err(e) => Err("concurrency group `"@ + c.group@ + "`: "@ + e@),
        },
    }
}

/// The whole plan of a run's creation. A rejected run has no operation: nothing of it is written.
pub open spec fn run_plan(
    ir: PipelineIr,
    event: Event,
    path: Seq<char>,
    gov: RunGovernance,
    excluded: Seq<Seq<char>>,
) -> PlanView {
    let head = head_ops(ir, event, path, gov);
    match group_ops(ir.concurrency, gov) {
        Err(m) => PlanView { ops: Seq::<OpView>::empty(), failure: Some(m) },
        Ok(group) => {
            let steps = steps_plan(ir.steps@, event, gov, excluded);
            if steps.failure is Some {
                steps
            } else {
                PlanView {
                    ops: head + group + supersede_ops(event, gov, path) + seq![
                        OpView::AppendRunCreated,
                        OpView::AppendTrigger,
                    ] + steps.ops,
                    failure: None,
                }
            }
        },
    }
}

fn clone_step_spec(
    step: &IrStep,
    clone: &CloneDirective,
    event: &Event,
    gov: &RunGovernance,
    source: (event::RepoRef, String),
    overlay: Option<Json>,
) -> (r: StepSpec)
    requires
        event::clone_source(*event) == Some((source.0@, source.1@)),
    ensures
        r@ == clone_spec(*step, *clone, *event, *gov, model::opt_json(overlay)),
{
    let (repo, sha) = source;
    let r = StepSpec {
        image: String::new(),
        command: Vec::new(),
        env: model::copy_pairs(&step.env),
        secrets: Vec::new(),
        run_as_root: false,
        add_capabilities: Vec::new(),
        privileged: false,
        timeout_seconds: step.timeout,
        workspace_inputs: Vec::new(),
        workspace_outputs: model::outputs_or_whole(&step.outputs),
        clone: Some(
            CloneConfig {
                owner: repo.owner,
                name: repo.name,
                sha,
                depth_full: clone.full_depth,
                submodules: clone.submodules,
                lfs: clone.lfs,
                read_only: gov.locked_out() || event.fork_pr,
                url: String::new(),
                credential: None,
            },
        ),
        build: None,
        artifacts: Json::Array(Vec::new()),
        placement_profiles: text::clone_strings(&step.placement_profiles),
        resources: step.resources.copy(),
        k8s_overlay: overlay,
        oidc_token: None,
        services: Vec::new(),
        uses: Vec::new(),
        matrix_values: step.matrix_values.copy(),
    };
    proof {
        let want = clone_spec(*step, *clone, *event, *gov, model::opt_json(overlay));
        assert(r@.command =~= want.command);
        assert(r@.secrets =~= want.secrets);
        assert(r@.grants.add_capabilities =~= want.grants.add_capabilities);
        assert(r@.workspace_inputs =~= want.workspace_inputs);
        assert(r@.artifacts->Array_0 =~= want.artifacts->Array_0);
        assert(r@.services =~= want.services);
        assert(r@.uses =~= want.uses);
    }
    r
}

fn non_empty_or(s: &str, default: &str) -> (r: String)
    ensures
        r@ == or_default(s@, default@),
{
    if s.is_empty() {
        default.to_owned()
    } else {
        s.to_owned()
    }
}

fn build_config(b: &BuildDirective, event: &Event, gov: &RunGovernance) -> (r: BuildConfig)
    ensures
        r@ == build_view(*b, *event, *gov),
{
    let (repo_owner, repo_name) = match &event.repo {
        Some(repo) => (repo.owner.clone(), repo.name.clone()),
        None => (String::new(), String::new()),
    };
    BuildConfig {
        context: non_empty_or(b.context.as_str(), "."),
        dockerfile: non_empty_or(b.dockerfile.as_str(), "Dockerfile"),
        image: b.image.clone(),
        repo_owner,
        repo_name,
        push: b.push && !gov.locked_out(),
        insecure_push: false,
        registry_auth_json: None,
        derived_auth: None,
    }
}

fn work_step_spec(
    step: &IrStep,
    event: &Event,
    gov: &RunGovernance,
    grants: AdmittedGrants,
    overlay: Option<Json>,
) -> (r: StepSpec)
    ensures
        r@ == work_spec(*step, *event, *gov, grants@, model::opt_json(overlay)),
{
    let build = match &step.build {
        Some(b) => Some(build_config(b, event, gov)),
        None => None,
    };
    let r = StepSpec {
        image: step.image.clone(),
        command: text::clone_strings(&step.command),
        env: model::copy_pairs(&step.env),
        secrets: text::clone_strings(&step.secrets),
        run_as_root: grants.run_as_root,
        add_capabilities: grants.add_capabilities,
        privileged: grants.privileged,
        timeout_seconds: step.timeout,
        workspace_inputs: Vec::new(),
        workspace_outputs: model::outputs_or_whole(&step.outputs),
        clone: None,
        build,
        artifacts: step.artifacts.copy(),
        placement_profiles: text::clone_strings(&step.placement_profiles),
        resources: step.resources.copy(),
        k8s_overlay: overlay,
        oidc_token: None,
        services: model::copy_services(&step.services),
        uses: text::clone_strings(&step.uses),
        matrix_values: step.matrix_values.copy(),
    };
    proof {
        let want = work_spec(*step, *event, *gov, grants@, model::opt_json(overlay));
        assert(r@.workspace_inputs =~= want.workspace_inputs);
    }
    r
}

pub open spec fn ops_result(r: Result<Vec<DbOp>, String>) -> Result<Seq<OpView>, Seq<char>> {
    match r {
        Ok(ops) => Ok(op_views(ops@)),
        Err(m) => Err(m@),
    }
}

fn plan_creation(step: &IrStep, event: &Event, gov: &RunGovernance) -> (r: Result<Vec<DbOp>, String>)
    ensures
        ops_result(r) == creation_ops(*step, *event, *gov),
{
    let mut ops: Vec<DbOp> = Vec::new();
    assert(op_views(ops@) =~= Seq::<OpView>::empty());
    let needs = text::clone_strings(&step.needs);
    if let Some(kind) = &step.gate {
        let timer_seconds = match step.gate_after {
            Some(s) => Some(s as i64),
            None => None,
        };
        push_op(&mut ops, DbOp::CreateStep { step: step.id.clone(), spec: None, needs });
        push_op(&mut ops, DbOp::SetGate { step: step.id.clone(), kind: kind.clone(), timer_seconds });
        assert(op_views(ops@) =~= creation_ops(*step, *event, *gov)->Ok_0);
        return Ok(ops);
    }
    if let Some(clone) = &step.clone {
        let source = match event::clone_context(event) {
            Some(source) => source,
            None => {
                let mut m = "step `".to_owned();
                m.append(step.id.as_str());
                m.append(
                    "`: a clone step needs a sha-carrying trigger (push/pull_request/manual/api) — this run was triggered by `",
                );
                m.append(event.kind.as_str());
                m.append("`");
                return Err(m);
            },
        };
        let overlay = match admission::admit_k8s_overlay(gov.protection(), step.k8s_overlay.as_ref()) {
            Ok(o) => o,
            Err(v) => {
                return Err(step_message_of(step.id.as_str(), "`: ", &v));
            },
        };
        let spec = clone_step_spec(step, clone, event, gov, source, overlay);
        push_op(&mut ops, DbOp::CreateStep { step: step.id.clone(), spec: Some(spec), needs });
        assert(op_views(ops@) =~= creation_ops(*step, *event, *gov)->Ok_0);
        return Ok(ops);
    }
    let ruling = match gov.protection() {
        Some(_) => Some(&step.ruling),
        None => None,
    };
    let grants = match admission::admit_step_grants(ruling, step.security.as_ref()) {
        Ok(g) => g,
        Err(v) => {
            return Err(step_message_of(step.id.as_str(), "`: privilege request rejected: ", &v));
        },
    };
    let overlay = match admission::admit_k8s_overlay(gov.protection(), step.k8s_overlay.as_ref()) {
        Ok(o) => o,
        Err(v) => {
            return Err(step_message_of(step.id.as_str(), "`: ", &v));
        },
    };
    let spec = work_step_spec(step, event, gov, grants, overlay);
    push_op(&mut ops, DbOp::CreateStep { step: step.id.clone(), spec: Some(spec), needs });
    assert(op_views(ops@) =~= creation_ops(*step, *event, *gov)->Ok_0);
    Ok(ops)
}

fn plan_step(step: &IrStep, event: &Event, gov: &RunGovernance, excluded: &Vec<String>) -> (r: Result<
    Vec<DbOp>,
    String,
>)
    ensures
        ops_result(r) == step_ops(*step, *event, *gov, text::views(excluded@)),
{
    let mut ops = match plan_creation(step, event, gov) {
        Ok(ops) => ops,
        Err(m) => {
            return Err(m);
        },
    };
    let ghost created = op_views(ops@);
    if let Some(inputs) = &step.inputs {
        push_op(&mut ops, DbOp::SetStepInputs { step: step.id.clone(), inputs: text::clone_strings(inputs) });
    }
    assert(op_views(ops@) =~= created + input_ops(step.id@, step.inputs));
    if text::contains_string(excluded, step.id.as_str()) {
        push_op(&mut ops, DbOp::SkipStep { step: step.id.clone() });
        push_op(&mut ops, DbOp::AppendSkipped { step: step.id.clone() });
    }
    assert(op_views(ops@) =~= created + input_ops(step.id@, step.inputs) + skip_ops(
        step.id@,
        text::views(excluded@),
    ));
    Ok(ops)
}

fn plan_steps(steps: &Vec<IrStep>, event: &Event, gov: &RunGovernance, excluded: &Vec<String>) -> (r: PersistPlan)
    ensures
        r@ == steps_plan(steps@, *event, *gov, text::views(excluded@)),
{
    let mut ops: Vec<DbOp> = Vec::new();
    let ghost skip = text::views(excluded@);
    let mut i: usize = 0;
    assert(op_views(ops@) =~= Seq::<OpView>::empty());
    while i < steps.len()
        invariant
            i <= steps@.len(),
            skip == text::views(excluded@),
            steps_plan(steps@.take(i as int), *event, *gov, skip) == (PlanView { ops: op_views(ops@), failure: None }),
        decreases steps@.len() - i,
    {
        let ghost next = steps@.take(i + 1);
        assert(next.drop_last() =~= steps@.take(i as int));
        assert(next.last() == steps@[i as int]);
        match plan_step(&steps[i], event, gov, excluded) {
            Err(m) => {
                let r = PersistPlan { ops: Vec::new(), failure: Some(m) };
                assert(op_views(r.ops@) =~= Seq::<OpView>::empty());
                proof {
                    first_rejection_ends_the_plan(steps@, i as int, *event, *gov, skip);
                }
                return r;
            },
            Ok(more) => {
                push_ops(&mut ops, more);
            },
        }
        i = i + 1;
    }
    assert(steps@.take(i as int) =~= steps@);
    PersistPlan { ops, failure: None }
}

/// A rejected step ends the plan: no step has an operation, and the message of the first that is
/// rejected is the run's failure.
pub proof fn first_rejection_ends_the_plan(
    steps: Seq<IrStep>,
    i: int,
    event: Event,
    gov: RunGovernance,
    excluded: Seq<Seq<char>>,
)
    requires
        0 <= i < steps.len(),
        steps_plan(steps.take(i), event, gov, excluded).failure is None,
        step_ops(steps[i], event, gov, excluded) is Err,
    ensures
        steps_plan(steps, event, gov, excluded) == (PlanView {
            ops: Seq::<OpView>::empty(),
            failure: Some(step_ops(steps[i], event, gov, excluded)->Err_0),
        }),
    decreases steps.len(),
{
    if steps.len() == i + 1 {
        assert(steps.drop_last() =~= steps.take(i));
    } else {
        let short = steps.drop_last();
        assert(short.take(i) =~= steps.take(i));
        first_rejection_ends_the_plan(short, i, event, gov, excluded);
    }
}

fn plan_head(ir: &PipelineIr, event: &Event, pipeline: &str, gov: &RunGovernance) -> (r: Vec<DbOp>)
    ensures
        op_views(r@) == head_ops(*ir, *event, pipeline@, *gov),
{
    let mut ops: Vec<DbOp> = Vec::new();
    push_op(&mut ops, DbOp::CreateRun { ir_version: ir.ir_version });
    if let Some(repo) = &event.repo {
        push_op(&mut ops, DbOp::SetTenant { org: repo.owner.clone(), project: repo.name.clone() });
        push_op(&mut ops, DbOp::AllocateRunNumber { org: repo.owner.clone(), project: repo.name.clone() });
    }
    assert(op_views(ops@) =~= seq![OpView::CreateRun { ir_version: ir.ir_version }] + tenant_ops(*event));
    push_op(
        &mut ops,
        DbOp::SetOrigin {
            kind: event.kind.clone(),
            actor: text::clone_opt(&event.actor),
            git_ref: text::clone_opt(&event.protection_ref),
            sha: event::origin_sha(event),
            pr_number: event::origin_pr_number(event),
            pr_base: event::origin_pr_base(event),
        },
    );
    let name = match &ir.name {
        Some(n) => n.clone(),
        None => refs::bare_pipeline_name(pipeline),
    };
    push_op(&mut ops, DbOp::SetPipeline { name });
    let ghost named = op_views(ops@);
    assert(named =~= seq![OpView::CreateRun { ir_version: ir.ir_version }] + tenant_ops(*event) + seq![
        origin_op(*event),
        OpView::SetPipeline { name: pipeline_name(*ir, pipeline@) },
    ]);
    if let Some(title) = &event.trigger_title {
        push_op(&mut ops, DbOp::SetTriggerTitle { title: title.clone() });
    }
    assert(op_views(ops@) =~= named + title_ops(event.trigger_title));
    push_op(&mut ops, DbOp::StoreIr);
    let ghost stored = op_views(ops@);
    assert(stored =~= named + title_ops(event.trigger_title) + seq![OpView::StoreIr]);
    if let RunGovernance::Governed { environment, locked_out, protection: _ } = gov {
        if let Some(repo) = &event.repo {
            let git_ref = match &event.protection_ref {
                Some(r) => r.clone(),
                None => event::config_ref(event),
            };
            push_op(
                &mut ops,
                DbOp::SetDeployContext {
                    context: DeployContext {
                        org: repo.owner.clone(),
                        project: repo.name.clone(),
                        environment: environment.clone(),
                        git_ref,
                        locked_out: *locked_out,
                    },
                },
            );
        }
    }
    assert(op_views(ops@) =~= stored + deploy_ops(*event, *gov));
    ops
}

/// Plan the writes that materialize a compiled pipeline into a run: its identity and origin,
/// the stored pipeline, the deploy coordinates, its concurrency group and auto-cancel key, and
/// each step with its edges. `excluded` are the steps whose guards are off.
pub fn persist_run_from_ir(
    ir: &PipelineIr,
    event: &Event,
    pipeline: &str,
    gov: &RunGovernance,
    excluded: &Vec<String>,
) -> (r: PersistPlan)
    ensures
        r@ == run_plan(*ir, *event, pipeline@, *gov, text::views(excluded@)),
        r.failure is Some ==> r.ops@.len() == 0,
{
    let mut ops = plan_head(ir, event, pipeline, gov);
    let ghost head = op_views(ops@);
    let ungoverned = match gov {
        RunGovernance::Ungoverned => true,
        RunGovernance::Governed { environment: _, locked_out: _, protection: _ } => false,
    };
    if let Some(c) = &ir.concurrency {
        match &c.resolved {
            Err(e) => {
                let mut m = "concurrency group `".to_owned();
                m.append(c.group.as_str());
                m.append("`: ");
                m.append(e.as_str());
                return rejected(m);
            },
            Ok(group) => {
                let policy = if ungoverned {
                    GroupPolicy::Declared(c.policy.clone())
                } else {
                    GroupPolicy::Queue
                };
                push_op(&mut ops, DbOp::SetConcurrency { group: group.clone(), policy });
            },
        }
    }
    let ghost group = group_ops(ir.concurrency, *gov)->Ok_0;
    assert(op_views(ops@) =~= head + group);
    if ungoverned {
        if let Some(key) = event::supersede_key(event, pipeline) {
            push_op(&mut ops, DbOp::SetSupersedeKey { key });
        }
    }
    let ghost keyed = op_views(ops@);
    assert(keyed =~= head + group + supersede_ops(*event, *gov, pipeline@));
    push_op(&mut ops, DbOp::AppendRunCreated);
    push_op(&mut ops, DbOp::AppendTrigger);
    assert(op_views(ops@) =~= keyed + seq![OpView::AppendRunCreated, OpView::AppendTrigger]);
    let steps = plan_steps(&ir.steps, event, gov, excluded);
    proof {
        rejected_steps_write_nothing(ir.steps@, *event, *gov, text::views(excluded@));
    }
    match steps.failure {
        Some(m) => rejected(m),
        None => {
            push_ops(&mut ops, steps.ops);
            PersistPlan { ops, failure: None }
        },
    }
}

fn rejected(m: String) -> (r: PersistPlan)
    ensures
        r@ == (PlanView { ops: Seq::<OpView>::empty(), failure: Some(m@) }),
        r.ops@.len() == 0,
{
    let r = PersistPlan { ops: Vec::new(), failure: Some(m) };
    assert(op_views(r.ops@) =~= Seq::<OpView>::empty());
    r
}

/// A rejected run writes nothing, and a run that is not rejected starts with its creation.
pub proof fn rejected_runs_write_nothing(
    ir: PipelineIr,
    event: Event,
    path: Seq<char>,
    gov: RunGovernance,
    excluded: Seq<Seq<char>>,
)
    ensures
        ({
            let plan = run_plan(ir, event, path, gov, excluded);
            if plan.failure is Some {
                plan.ops.len() == 0
            } else {
                plan.ops.len() > 0 && plan.ops[0] == (OpView::CreateRun { ir_version: ir.ir_version })
            }
        }),
{
    rejected_steps_write_nothing(ir.steps@, event, gov, excluded);
}

proof fn rejected_steps_write_nothing(steps: Seq<IrStep>, event: Event, gov: RunGovernance, excluded: Seq<Seq<char>>)
    ensures
        steps_plan(steps, event, gov, excluded).failure is Some ==> steps_plan(steps, event, gov, excluded).ops
            == Seq::<OpView>::empty(),
    decreases steps.len(),
{
    if steps.len() > 0 {
        rejected_steps_write_nothing(steps.drop_last(), event, gov, excluded);
    }
}

/// A deploy is never silently cancelled by a newer run: it carries no auto-cancel key, and it
/// waits in the queue of its concurrency group whatever the pipeline declares.
pub proof fn deploys_are_never_superseded(
    ir: PipelineIr,
    event: Event,
    path: Seq<char>,
    gov: RunGovernance,
    excluded: Seq<Seq<char>>,
    i: int,
)
    requires
        gov is Governed,
        0 <= i < run_plan(ir, event, path, gov, excluded).ops.len(),
    ensures
        !(run_plan(ir, event, path, gov, excluded).ops[i] is SetSupersedeKey),
        run_plan(ir, event, path, gov, excluded).ops[i] matches OpView::SetConcurrency { group, policy }
            ==> policy is Queue,
{
    let steps = steps_plan(ir.steps@, event, gov, excluded);
    step_operations_only(ir.steps@, event, gov, excluded);
    let plan = run_plan(ir, event, path, gov, excluded);
    let head = head_ops(ir, event, path, gov);
    if group_ops(ir.concurrency, gov) is Ok && steps.failure is None {
        let group = group_ops(ir.concurrency, gov)->Ok_0;
        let front = head + group + supersede_ops(event, gov, path) + seq![
            OpView::AppendRunCreated,
            OpView::AppendTrigger,
        ];
        assert(plan.ops =~= front + steps.ops);
        if i >= front.len() {
            assert(plan.ops[i] == steps.ops[i - front.len()]);
        }
    }
}

/// The operations that concern one step.
pub open spec fn is_step_op(o: OpView) -> bool {
    o is CreateStep || o is SetGate || o is SetStepInputs || o is SkipStep || o is AppendSkipped
}

proof fn step_operations_only(steps: Seq<IrStep>, event: Event, gov: RunGovernance, excluded: Seq<Seq<char>>)
    ensures
        forall|i: int|
            0 <= i < steps_plan(steps, event, gov, excluded).ops.len() ==> is_step_op(
                #[trigger] steps_plan(steps, event, gov, excluded).ops[i],
            ),
    decreases steps.len(),
{
    if steps.len() > 0 {
        step_operations_only(steps.drop_last(), event, gov, excluded);
    }
}

/// A run that is locked out never pushes an image, and its checkouts are read-only. So are those
/// of every pull request from a fork, whatever it deploys to.
pub proof fn locked_out_steps_cannot_write(step: IrStep, event: Event, gov: RunGovernance, i: int)
    requires
        gov.is_locked_out() || event.fork_pr,
        creation_ops(step, event, gov) is Ok,
        0 <= i < creation_ops(step, event, gov)->Ok_0.len(),
    ensures
        creation_ops(step, event, gov)->Ok_0[i] matches OpView::CreateStep { step: s, spec: Some(spec), needs } ==> {
            &&& gov.is_locked_out() ==> (spec.build matches Some(b) ==> !b.push)
            &&& spec.clone matches Some(c) ==> c.read_only
        },
{
}

/// What the rules of a run's target environment answer to a step's overlay: only a defined
/// environment that permits raw overlays lets one through.
pub open spec fn refuses_overlay(step: IrStep, gov: RunGovernance) -> bool {
    step.k8s_overlay is Some && !(gov matches RunGovernance::Governed { protection: Some(p), .. }
        && p.permit_k8s_overlay)
}

/// What a step's privilege request meets: where the environment is defined its rules decide, and
/// else nothing above the root user is let through.
pub open spec fn refuses_grants(step: IrStep, gov: RunGovernance) -> bool {
    step.security matches Some(sec) && (sec.run_as_root || sec.privileged || sec.add_capabilities@.len() > 0) && (match gov {
        RunGovernance::Governed { protection: Some(_), .. } => step.ruling is Rejected,
        _ => sec.privileged || sec.add_capabilities@.len() > 0,
    })
}

/// The step cannot be created: a clone step without a repository or a commit to fetch, or one whose
/// overlay or privileges are refused. A gate always can.
pub open spec fn refused(step: IrStep, event: Event, gov: RunGovernance) -> bool {
    step.gate is None && (refuses_overlay(step, gov) || if step.clone is Some {
        event.repo is None || !(event.trigger is Push || event.trigger is PullRequest || event.trigger is Manual
            || event.trigger is Api)
    } else {
        refuses_grants(step, gov)
    })
}

proof fn refused_steps_have_no_operations(step: IrStep, event: Event, gov: RunGovernance, excluded: Seq<Seq<char>>)
    ensures
        step_ops(step, event, gov, excluded) is Err <==> refused(step, event, gov),
{
}

/// A run is rejected exactly when its concurrency group cannot be worked out or one of its steps
/// cannot be created.
pub proof fn runs_are_rejected_for_a_reason(
    ir: PipelineIr,
    event: Event,
    path: Seq<char>,
    gov: RunGovernance,
    excluded: Seq<Seq<char>>,
)
    ensures
        run_plan(ir, event, path, gov, excluded).failure is Some <==> (ir.concurrency matches Some(c) && c.resolved is Err)
            || exists|i: int| 0 <= i < ir.steps@.len() && refused(#[trigger] ir.steps@[i], event, gov),
{
    plans_fail_with_a_step(ir.steps@, event, gov, excluded);
}

proof fn plans_fail_with_a_step(steps: Seq<IrStep>, event: Event, gov: RunGovernance, excluded: Seq<Seq<char>>)
    ensures
        steps_plan(steps, event, gov, excluded).failure is Some <==> exists|i: int|
            0 <= i < steps.len() && refused(#[trigger] steps[i], event, gov),
    decreases steps.len(),
{
    if steps.len() > 0 {
        let rest = steps.drop_last();
        plans_fail_with_a_step(rest, event, gov, excluded);
        refused_steps_have_no_operations(steps.last(), event, gov, excluded);
        let n = steps.len() - 1;
        assert(steps[n] == steps.last());
        if exists|i: int| 0 <= i < rest.len() && refused(#[trigger] rest[i], event, gov) {
            let i = choose|i: int| 0 <= i < rest.len() && refused(#[trigger] rest[i], event, gov);
            assert(refused(steps[i], event, gov));
        }
        if exists|i: int| 0 <= i < steps.len() && refused(#[trigger] steps[i], event, gov) {
            let i = choose|i: int| 0 <= i < steps.len() && refused(#[trigger] steps[i], event, gov);
            if i < n {
                assert(refused(rest[i], event, gov));
            }
        }
    }
}

/// `ops` are the operations of one step: its creation with the needs it declares first, then the
/// gate where it is one, the inputs where it declares some, and the move to skipped where its guard
/// is off. Each stands once, and nothing else does.
pub open spec fn materializes(ops: Seq<OpView>, step: IrStep, excluded: Seq<Seq<char>>) -> bool {
    &&& ops.len() > 0
    &&& ops[0] matches OpView::CreateStep { step: id, spec, needs } && id == step.id@ && needs =~= step.needs@.map_values(
        |n: String| n@,
    ) && (spec is None <==> step.gate is Some)
    &&& ops.no_duplicates()
    &&& forall|k: int| 0 < k < ops.len() ==> !((#[trigger] ops[k]) is CreateStep)
    &&& forall|op: OpView| #[trigger]
        ops.contains(op) ==> match op {
            OpView::CreateStep { .. } => op == ops[0],
            OpView::SetGate { step: id, kind, timer_seconds } => id == step.id@ && (step.gate matches Some(g) && kind == g@)
                && timer_seconds == (match step.gate_after {
                Some(s) => Some(s as i64),
                None => None,
            }),
            OpView::SetStepInputs { step: id, inputs } => id == step.id@ && (step.inputs matches Some(v) && inputs
                =~= v@.map_values(|n: String| n@)),
            OpView::SkipStep { step: id } => id == step.id@ && excluded.contains(id),
            OpView::AppendSkipped { step: id } => id == step.id@ && excluded.contains(id),
            _ => false,
        }
    &&& step.gate is Some <==> exists|k: int| 0 <= k < ops.len() && (#[trigger] ops[k]) is SetGate
    &&& step.inputs is Some <==> exists|k: int| 0 <= k < ops.len() && (#[trigger] ops[k]) is SetStepInputs
    &&& excluded.contains(step.id@) <==> exists|k: int| 0 <= k < ops.len() && (#[trigger] ops[k]) is SkipStep
    &&& excluded.contains(step.id@) <==> exists|k: int| 0 <= k < ops.len() && (#[trigger] ops[k]) is AppendSkipped
}

proof fn steps_materialize(step: IrStep, event: Event, gov: RunGovernance, excluded: Seq<Seq<char>>)
    requires
        step_ops(step, event, gov, excluded) is Ok,
    ensures
        materializes(step_ops(step, event, gov, excluded)->Ok_0, step, excluded),
{
    let created = creation_ops(step, event, gov)->Ok_0;
    let inputs = input_ops(step.id@, step.inputs);
    let skips = skip_ops(step.id@, excluded);
    let ops = step_ops(step, event, gov, excluded)->Ok_0;
    let n = created.len() as int;
    assert(ops =~= created + inputs + skips);
    assert(ops[0] == created[0]);
    assert(step.gate is Some ==> n == 2 && ops[1] == created[1]);
    assert(step.inputs is Some ==> inputs.len() == 1 && ops[n] == inputs[0]);
    assert(excluded.contains(step.id@) ==> skips.len() == 2 && ops[n + inputs.len()] == skips[0] && ops[n + inputs.len() + 1]
        == skips[1]);
    assert(text::views(step.needs@) =~= step.needs@.map_values(|n: String| n@));
    if let Some(v) = step.inputs {
        assert(text::views(v@) =~= v@.map_values(|n: String| n@));
    }
    assert forall|k: int| 0 <= k < ops.len() implies (k == 0 && (#[trigger] ops[k]) is CreateStep) || (k == 1 && step.gate is Some
        && ops[k] is SetGate) || (k == n && step.inputs is Some && ops[k] is SetStepInputs) || (k == n + inputs.len()
        && excluded.contains(step.id@) && ops[k] is SkipStep) || (k == n + inputs.len() + 1 && excluded.contains(step.id@)
        && ops[k] is AppendSkipped) by {
        if k < n {
            assert(ops[k] == created[k]);
        } else if k < n + inputs.len() {
            assert(ops[k] == inputs[k - n]);
        } else {
            assert(ops[k] == skips[k - n - inputs.len()]);
        }
    }
}

/// A run that is not rejected materializes every step of the pipeline: behind the operations of the
/// run itself come those of the steps, step by step in the pipeline's order, each created exactly
/// once and with the needs it declares.
pub proof fn every_step_is_materialized(
    ir: PipelineIr,
    event: Event,
    path: Seq<char>,
    gov: RunGovernance,
    excluded: Seq<Seq<char>>,
) -> (parts: Seq<Seq<OpView>>)
    requires
        run_plan(ir, event, path, gov, excluded).failure is None,
    ensures
        parts.len() == ir.steps@.len(),
        forall|i: int| 0 <= i < parts.len() ==> materializes(#[trigger] parts[i], ir.steps@[i], excluded),
        exists|front: Seq<OpView>|
            run_plan(ir, event, path, gov, excluded).ops == #[trigger] (front + parts.flatten()) && run_operations(
                front,
                ir,
                event,
                path,
                gov,
            ),
{
    let parts = parts_of(ir.steps@, event, gov, excluded);
    let front = front_ops(ir, event, path, gov);
    the_front_is_the_run(ir, event, path, gov);
    assert(run_plan(ir, event, path, gov, excluded).ops =~= front + parts.flatten());
    parts
}

proof fn parts_of(steps: Seq<IrStep>, event: Event, gov: RunGovernance, excluded: Seq<Seq<char>>) -> (parts: Seq<Seq<OpView>>)
    requires
        steps_plan(steps, event, gov, excluded).failure is None,
    ensures
        parts.len() == steps.len(),
        forall|i: int| 0 <= i < parts.len() ==> materializes(#[trigger] parts[i], steps[i], excluded),
        steps_plan(steps, event, gov, excluded).ops == parts.flatten(),
    decreases steps.len(),
{
    if steps.len() == 0 {
        let none = Seq::<Seq<OpView>>::empty();
        assert(none.flatten() =~= Seq::<OpView>::empty());
        none
    } else {
        let before = parts_of(steps.drop_last(), event, gov, excluded);
        let own = step_ops(steps.last(), event, gov, excluded)->Ok_0;
        steps_materialize(steps.last(), event, gov, excluded);
        before.lemma_flatten_push(own);
        let parts = before.push(own);
        assert forall|i: int| 0 <= i < parts.len() implies materializes(#[trigger] parts[i], steps[i], excluded) by {
            if i < before.len() {
                assert(materializes(before[i], steps.drop_last()[i], excluded));
            }
        }
        parts
    }
}

/// The place of a run's own operations in its plan.
pub open spec fn place(op: OpView) -> int {
    match op {
        OpView::CreateRun { .. } => 0,
        OpView::SetTenant { .. } => 1,
        OpView::AllocateRunNumber { .. } => 2,
        OpView::SetOrigin { .. } => 3,
        OpView::SetPipeline { .. } => 4,
        OpView::SetTriggerTitle { .. } => 5,
        OpView::StoreIr => 6,
        OpView::SetDeployContext { .. } => 7,
        OpView::SetConcurrency { .. } => 8,
        OpView::SetSupersedeKey { .. } => 9,
        OpView::AppendRunCreated => 10,
        OpView::AppendTrigger => 11,
        _ => 12,
    }
}

/// The operation is one that a plan writes of the run itself.
pub open spec fn is_run_operation(op: OpView, ir: PipelineIr, event: Event, path: Seq<char>, gov: RunGovernance) -> bool {
    match op {
        OpView::CreateRun { ir_version } => ir_version == ir.ir_version,
        OpView::SetTenant { org, project } => event.repo matches Some(r) && org == r.owner@ && project == r.name@,
        OpView::AllocateRunNumber { org, project } => event.repo matches Some(r) && org == r.owner@ && project == r.name@,
        OpView::SetOrigin { kind, actor, git_ref, sha, pr_number, pr_base } => {
            &&& kind == event.kind@
            &&& actor == text::opt_view(event.actor)
            &&& git_ref == text::opt_view(event.protection_ref)
            &&& match event.trigger {
                event::Trigger::Push { git_ref: _, after } => sha == Some(after@) && pr_number is None && pr_base is None,
                event::Trigger::PullRequest { number, head, base } => sha == Some(head@) && pr_number == Some(
                    number as i64,
                ) && pr_base == (if base@.len() > 0 {
                    Some(base@)
                } else {
                    None
                }),
                event::Trigger::Manual { sha: s, .. } => sha == Some(s@) && pr_number is None && pr_base is None,
                event::Trigger::Api { sha: s, .. } => sha == Some(s@) && pr_number is None && pr_base is None,
                _ => sha is None && pr_number is None && pr_base is None,
            }
        },
        OpView::SetPipeline { name } => name == (match ir.name {
            Some(n) => n@,
            None => refs::bare_name(path),
        }),
        OpView::SetTriggerTitle { title } => event.trigger_title matches Some(t) && title == t@,
        OpView::StoreIr => true,
        OpView::SetDeployContext { context } => gov matches RunGovernance::Governed { environment, locked_out, .. } && (
        event.repo matches Some(r) && {
            &&& context.org == r.owner@ && context.project == r.name@
            &&& context.environment == environment@
            &&& context.locked_out == locked_out
            &&& event.protection_ref matches Some(p) ==> context.git_ref == p@
            &&& event.protection_ref is None ==> context.git_ref == event::config_ref_of(event.trigger)
        }),
        OpView::SetConcurrency { group, policy } => ir.concurrency matches Some(c) && (c.resolved matches Ok(g) && group
            == g@) && (match gov {
            RunGovernance::Ungoverned => policy == GroupPolicyView::Declared(c.policy@),
            RunGovernance::Governed { .. } => policy is Queue,
        }),
        OpView::SetSupersedeKey { key } => gov is Ungoverned && (event.repo matches Some(r) && match event.trigger {
            event::Trigger::Push { git_ref, after: _ } => key == r.owner@ + "/"@ + r.name@ + ":"@ + git_ref@ + ":"@ + path,
            event::Trigger::PullRequest { number, .. } => key == r.owner@ + "/"@ + r.name@ + ":"@ + ("pr-"@
                + text::decimal(number as nat)) + ":"@ + path,
            _ => false,
        }),
        OpView::AppendRunCreated => true,
        OpView::AppendTrigger => true,
        _ => false,
    }
}

/// `ops` are what a plan writes of the run itself: which operations there are, with what values, and
/// each at most once in their order.
pub open spec fn run_operations(ops: Seq<OpView>, ir: PipelineIr, event: Event, path: Seq<char>, gov: RunGovernance) -> bool {
    &&& forall|i: int, j: int| #![trigger ops[i], ops[j]] 0 <= i < j < ops.len() ==> place(ops[i]) < place(ops[j])
    &&& forall|op: OpView| #[trigger] ops.contains(op) <==> is_run_operation(op, ir, event, path, gov)
}

spec fn placed_between(ops: Seq<OpView>, low: int, high: int) -> bool {
    &&& forall|i: int, j: int| #![trigger ops[i], ops[j]] 0 <= i < j < ops.len() ==> place(ops[i]) < place(ops[j])
    &&& forall|i: int| 0 <= i < ops.len() ==> low <= place(#[trigger] ops[i]) < high
}

proof fn joined_in_place(a: Seq<OpView>, b: Seq<OpView>, low: int, mid: int, high: int)
    requires
        placed_between(a, low, mid),
        placed_between(b, mid, high),
        low <= mid <= high,
    ensures
        placed_between(a + b, low, high),
        forall|op: OpView| #[trigger] (a + b).contains(op) <==> a.contains(op) || b.contains(op),
{
    let all = a + b;
    assert forall|i: int, j: int| #![trigger all[i], all[j]] 0 <= i < j < all.len() implies place(all[i]) < place(all[j]) by {
        if i < a.len() {
            assert(all[i] == a[i]);
        } else {
            assert(all[i] == b[i - a.len()]);
        }
        if j < a.len() {
            assert(all[j] == a[j]);
        } else {
            assert(all[j] == b[j - a.len()]);
        }
    }
    assert forall|op: OpView| #[trigger] all.contains(op) <==> a.contains(op) || b.contains(op) by {
        if a.contains(op) {
            let i = choose|i: int| 0 <= i < a.len() && a[i] == op;
            assert(all[i] == op);
        }
        if b.contains(op) {
            let i = choose|i: int| 0 <= i < b.len() && b[i] == op;
            assert(all[a.len() + i] == op);
        }
        if all.contains(op) {
            let i = choose|i: int| 0 <= i < all.len() && all[i] == op;
            if i < a.len() {
                assert(a[i] == op);
            } else {
                assert(b[i - a.len()] == op);
            }
        }
    }
}

proof fn one_op(s: Seq<OpView>)
    requires
        s.len() == 1,
    ensures
        placed_between(s, place(s[0]), place(s[0]) + 1),
        forall|op: OpView| #[trigger] s.contains(op) <==> op == s[0],
{
}

proof fn two_ops(s: Seq<OpView>)
    requires
        s.len() == 2,
        place(s[0]) < place(s[1]),
    ensures
        placed_between(s, place(s[0]), place(s[1]) + 1),
        forall|op: OpView| #[trigger] s.contains(op) <==> op == s[0] || op == s[1],
{
}

/// The operations of the run itself, as a plan has them in front.
spec fn front_ops(ir: PipelineIr, event: Event, path: Seq<char>, gov: RunGovernance) -> Seq<OpView> {
    head_ops(ir, event, path, gov) + group_ops(ir.concurrency, gov)->Ok_0 + supersede_ops(event, gov, path) + seq![
        OpView::AppendRunCreated,
        OpView::AppendTrigger,
    ]
}

/// The operation stands in one of the parts of the front.
spec fn in_front(op: OpView, ir: PipelineIr, event: Event, path: Seq<char>, gov: RunGovernance) -> bool {
    ||| op == (OpView::CreateRun { ir_version: ir.ir_version })
    ||| tenant_ops(event).contains(op)
    ||| op == origin_op(event)
    ||| op == (OpView::SetPipeline { name: pipeline_name(ir, path) })
    ||| title_ops(event.trigger_title).contains(op)
    ||| op == OpView::StoreIr
    ||| deploy_ops(event, gov).contains(op)
    ||| group_ops(ir.concurrency, gov)->Ok_0.contains(op)
    ||| supersede_ops(event, gov, path).contains(op)
    ||| op == OpView::AppendRunCreated
    ||| op == OpView::AppendTrigger
}

proof fn parts_make_the_front(ir: PipelineIr, event: Event, path: Seq<char>, gov: RunGovernance)
    requires
        group_ops(ir.concurrency, gov) is Ok,
    ensures
        placed_between(front_ops(ir, event, path, gov), 0, 12),
        forall|op: OpView| #[trigger] front_ops(ir, event, path, gov).contains(op) <==> in_front(op, ir, event, path, gov),
{
    let first = seq![OpView::CreateRun { ir_version: ir.ir_version }];
    let tenant = tenant_ops(event);
    let about = seq![origin_op(event), OpView::SetPipeline { name: pipeline_name(ir, path) }];
    let title = title_ops(event.trigger_title);
    let stored = seq![OpView::StoreIr];
    let deploy = deploy_ops(event, gov);
    let group = group_ops(ir.concurrency, gov)->Ok_0;
    let key = supersede_ops(event, gov, path);
    let logged = seq![OpView::AppendRunCreated, OpView::AppendTrigger];
    one_op(first);
    if tenant.len() > 0 {
        two_ops(tenant);
    }
    two_ops(about);
    if title.len() > 0 {
        one_op(title);
    }
    one_op(stored);
    if deploy.len() > 0 {
        one_op(deploy);
    }
    if group.len() > 0 {
        one_op(group);
    }
    if key.len() > 0 {
        one_op(key);
    }
    two_ops(logged);
    joined_in_place(first, tenant, 0, 1, 3);
    joined_in_place(first + tenant, about, 0, 3, 5);
    joined_in_place(first + tenant + about, title, 0, 5, 6);
    joined_in_place(first + tenant + about + title, stored, 0, 6, 7);
    let head = first + tenant + about + title + stored;
    joined_in_place(head, deploy, 0, 7, 8);
    joined_in_place(head + deploy, group, 0, 8, 9);
    joined_in_place(head + deploy + group, key, 0, 9, 10);
    joined_in_place(head + deploy + group + key, logged, 0, 10, 12);
    let front = front_ops(ir, event, path, gov);
    assert(front == head + deploy + group + key + logged);
    assert forall|op: OpView| #[trigger] front.contains(op) <==> in_front(op, ir, event, path, gov) by {
        assert(front.contains(op) <==> (head + deploy + group + key).contains(op) || logged.contains(op));
        assert((head + deploy + group + key).contains(op) <==> (head + deploy + group).contains(op) || key.contains(op));
        assert((head + deploy + group).contains(op) <==> (head + deploy).contains(op) || group.contains(op));
        assert((head + deploy).contains(op) <==> head.contains(op) || deploy.contains(op));
        assert(head.contains(op) <==> (first + tenant + about + title).contains(op) || stored.contains(op));
        assert((first + tenant + about + title).contains(op) <==> (first + tenant + about).contains(op) || title.contains(op));
        assert((first + tenant + about).contains(op) <==> (first + tenant).contains(op) || about.contains(op));
    }
}

proof fn front_operations(op: OpView, ir: PipelineIr, event: Event, path: Seq<char>, gov: RunGovernance)
    requires
        group_ops(ir.concurrency, gov) is Ok,
    ensures
        in_front(op, ir, event, path, gov) <==> is_run_operation(op, ir, event, path, gov),
{
    let tenant = tenant_ops(event);
    let title = title_ops(event.trigger_title);
    let deploy = deploy_ops(event, gov);
    let group = group_ops(ir.concurrency, gov)->Ok_0;
    let key = supersede_ops(event, gov, path);
    if tenant.len() > 0 {
        two_ops(tenant);
    }
    if title.len() > 0 {
        one_op(title);
    }
    if deploy.len() > 0 {
        one_op(deploy);
    }
    if group.len() > 0 {
        one_op(group);
    }
    if key.len() > 0 {
        one_op(key);
    }
}

proof fn the_front_is_the_run(ir: PipelineIr, event: Event, path: Seq<char>, gov: RunGovernance)
    requires
        group_ops(ir.concurrency, gov) is Ok,
    ensures
        run_operations(front_ops(ir, event, path, gov), ir, event, path, gov),
{
    parts_make_the_front(ir, event, path, gov);
    assert forall|op: OpView| #[trigger] front_ops(ir, event, path, gov).contains(op) <==> is_run_operation(
        op,
        ir,
        event,
        path,
        gov,
    ) by {
        front_operations(op, ir, event, path, gov);
    }
}

/// What is created for a step is what it declares. A gate launches nothing. A clone step fetches the
/// event's repository at the event's commit, read-only for a run that is locked out or comes from a
/// fork, with no secret and no privilege. Any other step launches its image and command with its
/// environment, its secrets and the privileges it was admitted, and builds where it declares a build;
/// a locked out run never pushes.
pub proof fn steps_launch_what_they_declare(
    step: IrStep,
    event: Event,
    gov: RunGovernance,
    excluded: Seq<Seq<char>>,
    spec: SpecView,
)
    requires
        step_ops(step, event, gov, excluded) matches Ok(ops) && ops[0] matches OpView::CreateStep {
            step: _,
            spec: Some(s),
            needs: _,
        } && s == spec,
    ensures
        step.gate is None,
        spec.env =~= step.env@.map_values(|p: (String, String)| (p.0@, p.1@)),
        spec.timeout_seconds == step.timeout,
        spec.workspace_inputs.len() == 0,
        spec.workspace_outputs =~= (match step.outputs {
            Some(v) => v@.map_values(|n: String| n@),
            None => Seq::empty(),
        }),
        spec.placement_profiles =~= step.placement_profiles@.map_values(|n: String| n@),
        spec.resources == step.resources@,
        spec.matrix_values == step.matrix_values@,
        spec.oidc_token is None,
        step.k8s_overlay is None ==> spec.k8s_overlay is None,
        step.k8s_overlay matches Some(o) ==> spec.k8s_overlay == Some(o@),
        step.clone matches Some(c) ==> {
            &&& spec.clone matches Some(k) && event.repo matches Some(r) && {
                &&& k.owner == r.owner@ && k.name == r.name@
                &&& match event.trigger {
                    event::Trigger::Push { after, .. } => k.sha == after@,
                    event::Trigger::PullRequest { head, .. } => k.sha == head@,
                    event::Trigger::Manual { sha, .. } => k.sha == sha@,
                    event::Trigger::Api { sha, .. } => k.sha == sha@,
                    _ => false,
                }
                &&& k.depth_full == c.full_depth && k.submodules == c.submodules && k.lfs == c.lfs
                &&& k.read_only == (event.fork_pr || (gov matches RunGovernance::Governed { locked_out, .. } && locked_out))
                &&& k.credential is None && k.url.len() == 0
            }
            &&& spec.image.len() == 0 && spec.command.len() == 0 && spec.secrets.len() == 0 && spec.build is None
            &&& !spec.grants.run_as_root && !spec.grants.privileged && spec.grants.add_capabilities.len() == 0
            &&& spec.services.len() == 0 && spec.uses.len() == 0
        },
        step.clone is None ==> {
            &&& spec.clone is None
            &&& spec.image == step.image@
            &&& spec.command =~= step.command@.map_values(|n: String| n@)
            &&& spec.secrets =~= step.secrets@.map_values(|n: String| n@)
            &&& spec.artifacts == step.artifacts@
            &&& spec.services =~= step.services@.map_values(|s: model::ServiceSpec| s@)
            &&& spec.uses =~= step.uses@.map_values(|n: String| n@)
            &&& spec.build is Some <==> step.build is Some
            &&& step.build matches Some(b) ==> {
                let k = spec.build->0;
                &&& k.image == b.image@
                &&& k.context == (if b.context@.len() == 0 {
                    "."@
                } else {
                    b.context@
                })
                &&& k.dockerfile == (if b.dockerfile@.len() == 0 {
                    "Dockerfile"@
                } else {
                    b.dockerfile@
                })
                &&& k.push == (b.push && !(gov matches RunGovernance::Governed { locked_out, .. } && locked_out))
                &&& !k.insecure_push && k.registry_auth_json is None && k.derived_auth is None
                &&& event.repo matches Some(r) ==> k.repo_owner == r.owner@ && k.repo_name == r.name@
            }
            &&& step.security is None ==> !spec.grants.run_as_root && !spec.grants.privileged
                && spec.grants.add_capabilities.len() == 0
            &&& step.security matches Some(sec) ==> if !sec.run_as_root && !sec.privileged && sec.add_capabilities@.len() == 0 {
                !spec.grants.run_as_root && !spec.grants.privileged && spec.grants.add_capabilities.len() == 0
            } else {
                match gov {
                    RunGovernance::Governed { protection: Some(_), .. } => step.ruling matches model::GrantRuling::Admitted(g)
                        && spec.grants == g@,
                    _ => spec.grants.run_as_root == sec.run_as_root && !spec.grants.privileged
                        && spec.grants.add_capabilities.len() == 0,
                }
            }
        },
{
    assert(step_ops(step, event, gov, excluded)->Ok_0[0] == creation_ops(step, event, gov)->Ok_0[0]);
    assert(text::views(step.command@) =~= step.command@.map_values(|n: String| n@));
}

/// A rejected run is rejected whole, nothing of it is written. Where its concurrency group cannot
/// be worked out the message names the group, and else the first step that cannot be created.
pub proof fn rejections_name_what_was_refused(
    ir: PipelineIr,
    event: Event,
    path: Seq<char>,
    gov: RunGovernance,
    excluded: Seq<Seq<char>>,
    i: int,
)
    ensures
        run_plan(ir, event, path, gov, excluded).failure is Some ==> run_plan(ir, event, path, gov, excluded).ops.len() == 0,
        ir.concurrency matches Some(c) ==> (c.resolved matches Err(e) ==> run_plan(ir, event, path, gov, excluded).failure
            == Some("concurrency group `"@ + c.group@ + "`: "@ + e@)),
        !(ir.concurrency matches Some(c) && c.resolved is Err) && 0 <= i < ir.steps@.len() && refused(
            ir.steps@[i],
            event,
            gov,
        ) && (forall|j: int| 0 <= j < i ==> !refused(#[trigger] ir.steps@[j], event, gov)) ==> {
            let failure = run_plan(ir, event, path, gov, excluded).failure;
            failure is Some && text::has_prefix(failure->0, "step `"@ + ir.steps@[i].id@ + "`: "@)
        },
{
    failed_plans_write_nothing(ir.steps@, event, gov, excluded);
    if 0 <= i < ir.steps@.len() && refused(ir.steps@[i], event, gov) && (forall|j: int|
        0 <= j < i ==> !refused(#[trigger] ir.steps@[j], event, gov)) {
        the_first_refusal_is_named(ir.steps@, event, gov, excluded, i);
    }
}

proof fn failed_plans_write_nothing(steps: Seq<IrStep>, event: Event, gov: RunGovernance, excluded: Seq<Seq<char>>)
    ensures
        steps_plan(steps, event, gov, excluded).failure is Some ==> steps_plan(steps, event, gov, excluded).ops.len() == 0,
    decreases steps.len(),
{
    if steps.len() > 0 {
        failed_plans_write_nothing(steps.drop_last(), event, gov, excluded);
    }
}

proof fn refusals_name_the_step(step: IrStep, event: Event, gov: RunGovernance, excluded: Seq<Seq<char>>)
    ensures
        step_ops(step, event, gov, excluded) matches Err(m) ==> text::has_prefix(m, "step `"@ + step.id@ + "`: "@),
{
    reveal_strlit("step `");
    reveal_strlit("`: ");
    reveal_strlit("`: privilege request rejected: ");
    reveal_strlit(
        "`: a clone step needs a sha-carrying trigger (push/pull_request/manual/api) — this run was triggered by `",
    );
    if let Err(m) = step_ops(step, event, gov, excluded) {
        let named = "step `"@ + step.id@ + "`: "@;
        assert(m.subrange(0, named.len() as int) =~= named);
    }
}

proof fn the_first_refusal_is_named(
    steps: Seq<IrStep>,
    event: Event,
    gov: RunGovernance,
    excluded: Seq<Seq<char>>,
    i: int,
)
    requires
        0 <= i < steps.len(),
        refused(steps[i], event, gov),
        forall|j: int| 0 <= j < i ==> !refused(#[trigger] steps[j], event, gov),
    ensures
        ({
            let failure = steps_plan(steps, event, gov, excluded).failure;
            failure is Some && text::has_prefix(failure->0, "step `"@ + steps[i].id@ + "`: "@)
        }),
    decreases steps.len(),
{
    let rest = steps.drop_last();
    if i < rest.len() {
        assert(rest[i] == steps[i]);
        assert forall|j: int| 0 <= j < i implies !refused(#[trigger] rest[j], event, gov) by {
            assert(rest[j] == steps[j]);
        }
        the_first_refusal_is_named(rest, event, gov, excluded, i);
    } else {
        plans_fail_with_a_step(rest, event, gov, excluded);
        assert forall|j: int| 0 <= j < rest.len() implies !refused(#[trigger] rest[j], event, gov) by {
            assert(rest[j] == steps[j]);
        }
        refused_steps_have_no_operations(steps.last(), event, gov, excluded);
        refusals_name_the_step(steps.last(), event, gov, excluded);
    }
}

} // verus!
