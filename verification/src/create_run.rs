//! Runs of inline pipelines. Every step is admitted before anything is written: a rejected
//! request creates no run.

use crate::admission;
use crate::errors::{ApiError, ApiErrorView};
use crate::json::{Json, JsonView};
use crate::model;
use crate::model::{AdmittedGrants, CreateRunRequest, GrantsView, SpecView, StepDto, StepSpec};
use crate::persist;
use crate::persist::{DbOp, OpView};
use crate::runs::{self, RunStatus};
use crate::text;
use vstd::prelude::*;

verus! {

/// What a created run is answered with.
#[derive(Debug)]
pub struct CreateRunResponse {
    pub id: String,
    pub status: String,
}

/// What a run that was just created is answered with: its id, and that it is pending.
pub fn created_run(id: String) -> (r: CreateRunResponse)
    ensures
        r.id == id,
        r.status@ == runs::run_word(RunStatus::Pending),
{
    CreateRunResponse { id, status: runs::run_status_name(RunStatus::Pending).to_owned() }
}

pub open spec fn retry_in_bounds(step: StepDto) -> bool {
    step.retry matches Some(r) ==> 1 <= r.max <= 10
}

pub open spec fn retry_message(step: StepDto) -> Seq<char> {
    "step `"@ + step.id@ + "`: `retry.max` must be between 1 and 10 (got "@ + text::decimal(
        step.retry->0.max as nat,
    )
        + ") — retry re-runs the whole step at-least-once; enable only if the step is idempotent or fenced against a cooperating sink"@
}

/// The first step whose retry bound is out of range.
pub open spec fn first_bad_retry(steps: Seq<StepDto>) -> Option<StepDto>
    decreases steps.len(),
{
    if steps.len() == 0 {
        None
    } else if !retry_in_bounds(steps[0]) {
        Some(steps[0])
    } else {
        first_bad_retry(steps.drop_first())
    }
}

/// What an inline step launches. An inline run targets no environment.
pub open spec fn inline_spec(step: StepDto, grants: GrantsView, overlay: Option<JsonView>) -> SpecView {
    SpecView {
        image: step.image@,
        command: text::views(step.command@),
        env: model::pair_views(step.env@),
        secrets: text::views(step.secrets@),
        grants,
        timeout_seconds: step.timeout,
        workspace_inputs: Seq::<Seq<char>>::empty(),
        workspace_outputs: model::declared_outputs(step.outputs),
        clone: None,
        build: None,
        artifacts: JsonView::Array(Seq::<JsonView>::empty()),
        placement_profiles: text::views(step.placement_profiles@),
        resources: step.resources@,
        k8s_overlay: overlay,
        oidc_token: None,
        services: model::service_views(step.services@),
        uses: text::views(step.uses@),
        matrix_values: JsonView::Object(Seq::<(Seq<char>, JsonView)>::empty()),
    }
}

/// The operation that creates an inline step, or the message that rejects it.
pub open spec fn inline_step(step: StepDto) -> Result<OpView, Seq<char>> {
    match (admission::step_grants(None, step.security), admission::step_overlay(false, step.k8s_overlay)) {
        (Err(v), _) => Err(persist::step_message(step.id@, "`: privilege request rejected: "@, v)),
        (Ok(_), Err(v)) => Err(persist::step_message(step.id@, "`: "@, v)),
        (Ok(g), Ok(o)) => Ok(
            OpView::CreateStep {
                step: step.id@,
                spec: Some(inline_spec(step, g, o)),
                needs: text::views(step.needs@),
            },
        ),
    }
}

/// The creation of every step in order, or the message of the first that is rejected.
pub open spec fn inline_steps(steps: Seq<StepDto>) -> Result<Seq<OpView>, Seq<char>>
    decreases steps.len(),
{
    if steps.len() == 0 {
        Ok(Seq::<OpView>::empty())
    } else {
        match inline_steps(steps.drop_last()) {
            Err(m) => Err(m),
            Ok(before) => match inline_step(steps.last()) {
                Err(m) => Err(m),
                Ok(op) => Ok(before.push(op)),
            },
        }
    }
}

/// The declared input workspaces of the steps.
pub open spec fn inline_inputs(steps: Seq<StepDto>) -> Seq<OpView>
    decreases steps.len(),
{
    if steps.len() == 0 {
        Seq::<OpView>::empty()
    } else {
        inline_inputs(steps.drop_last()) + persist::input_ops(steps.last().id@, steps.last().inputs)
    }
}

/// What an inline run writes, or what its request is refused with: bad parameters first, then a
/// retry bound, then a step's request.
pub open spec fn inline_plan(req: CreateRunRequest, resolved: Result<(), String>, title: Option<String>) -> Result<
    Seq<OpView>,
    ApiErrorView,
> {
    let steps = req.pipeline.steps@;
    match resolved {
        Err(e) => Err(ApiErrorView::BadRequest("invalid launch parameters: "@ + e@)),
        Ok(_) => match first_bad_retry(steps) {
            Some(s) => Err(ApiErrorView::BadRequest(retry_message(s))),
            None => match inline_steps(steps) {
                Err(m) => Err(ApiErrorView::BadRequest(m)),
                Ok(created) => Ok(
                    seq![
                        OpView::CreateRun { ir_version: req.pipeline.ir_version },
                        OpView::StoreIr,
                        OpView::SetParams,
                    ] + persist::title_ops(title) + seq![OpView::AppendRunCreated] + created + inline_inputs(steps),
                ),
            },
        },
    }
}

pub open spec fn plan_result(r: Result<Vec<DbOp>, ApiError>) -> Result<Seq<OpView>, ApiErrorView> {
    match r {
        Ok(ops) => Ok(persist::op_views(ops@)),
        Err(e) => Err(e@),
    }
}

fn bad_retry(step: &StepDto) -> (r: Option<String>)
    ensures
        match r {
            Some(m) => !retry_in_bounds(*step) && m@ == retry_message(*step),
            None => retry_in_bounds(*step),
        },
{
    match &step.retry {
        None => None,
        Some(retry) => if 1 <= retry.max && retry.max <= 10 {
            None
        } else {
            let mut m = "step `".to_owned();
            m.append(step.id.as_str());
            m.append("`: `retry.max` must be between 1 and 10 (got ");
            m.append(text::u64_to_string(retry.max as u64).as_str());
            m.append(
                ") — retry re-runs the whole step at-least-once; enable only if the step is idempotent or fenced against a cooperating sink",
            );
            Some(m)
        },
    }
}

fn check_retries(steps: &Vec<StepDto>) -> (r: Option<String>)
    ensures
        match r {
            Some(m) => first_bad_retry(steps@) matches Some(s) && m@ == retry_message(s),
            None => first_bad_retry(steps@) is None,
        },
{
    let mut i: usize = 0;
    assert(steps@.skip(0) =~= steps@);
    while i < steps.len()
        invariant
            i <= steps@.len(),
            first_bad_retry(steps@) == first_bad_retry(steps@.skip(i as int)),
        decreases steps@.len() - i,
    {
        assert(steps@.skip(i as int)[0] == steps@[i as int]);
        if let Some(m) = bad_retry(&steps[i]) {
            return Some(m);
        }
        assert(steps@.skip(i as int).drop_first() =~= steps@.skip(i + 1));
        i = i + 1;
    }
    None
}

fn spec_of(step: &StepDto, grants: AdmittedGrants, overlay: Option<Json>) -> (r: StepSpec)
    ensures
        r@ == inline_spec(*step, grants@, model::opt_json(overlay)),
{
    let r = StepSpec {
        image: step.image.clone(),
        command: text::clone_strings(&step.command),
        env: model::copy_pairs(&step.env),
        secrets: text::clone_strings(&step.secrets),
        run_as_root: grants.run_as_root,
        add_capabilities: grants.add_capabilities,
        privileged: grants.privileged,
        timeout_seconds: step.timeout,
        workspace_inputs: Vec::new(),
        workspace_outputs: model::outputs_or_whole(&step.outputs),
        clone: None,
        build: None,
        artifacts: Json::Array(Vec::new()),
        placement_profiles: text::clone_strings(&step.placement_profiles),
        resources: step.resources.copy(),
        k8s_overlay: overlay,
        oidc_token: None,
        services: model::copy_services(&step.services),
        uses: text::clone_strings(&step.uses),
        matrix_values: Json::Object(Vec::new()),
    };
    proof {
        let want = inline_spec(*step, grants@, model::opt_json(overlay));
        assert(r@.workspace_inputs =~= want.workspace_inputs);
        assert(r@.artifacts->Array_0 =~= want.artifacts->Array_0);
        assert(r@.matrix_values->Object_0 =~= want.matrix_values->Object_0);
    }
    r
}

fn admit_inline_step(step: &StepDto) -> (r: Result<DbOp, String>)
    ensures
        match r {
            Ok(op) => inline_step(*step) == Ok::<OpView, Seq<char>>(op@),
            Err(m) => inline_step(*step) == Err::<OpView, Seq<char>>(m@),
        },
{
    let grants = match admission::admit_step_grants(None, step.security.as_ref()) {
        Ok(g) => g,
        Err(v) => {
            return Err(persist::step_message_of(step.id.as_str(), "`: privilege request rejected: ", &v));
        },
    };
    let overlay = match admission::admit_k8s_overlay(None, step.k8s_overlay.as_ref()) {
        Ok(o) => o,
        Err(v) => {
            return Err(persist::step_message_of(step.id.as_str(), "`: ", &v));
        },
    };
    Ok(
        DbOp::CreateStep {
            step: step.id.clone(),
            spec: Some(spec_of(step, grants, overlay)),
            needs: text::clone_strings(&step.needs),
        },
    )
}

proof fn rejected_prefix_rejects(steps: Seq<StepDto>, i: int)
    requires
        0 <= i <= steps.len(),
        inline_steps(steps.take(i)) is Err,
    ensures
        inline_steps(steps) == inline_steps(steps.take(i)),
    decreases steps.len(),
{
    if i == steps.len() {
        assert(steps.take(i) =~= steps);
    } else {
        assert(steps.drop_last().take(i) =~= steps.take(i));
        rejected_prefix_rejects(steps.drop_last(), i);
    }
}

fn admit_steps(steps: &Vec<StepDto>) -> (r: Result<Vec<DbOp>, String>)
    ensures
        persist::ops_result(r) == inline_steps(steps@),
{
    let mut ops: Vec<DbOp> = Vec::new();
    let mut i: usize = 0;
    assert(persist::op_views(ops@) =~= Seq::<OpView>::empty());
    while i < steps.len()
        invariant
            i <= steps@.len(),
            inline_steps(steps@.take(i as int)) == Ok::<Seq<OpView>, Seq<char>>(persist::op_views(ops@)),
        decreases steps@.len() - i,
    {
        let ghost next = steps@.take(i + 1);
        assert(next.drop_last() =~= steps@.take(i as int));
        assert(next.last() == steps@[i as int]);
        match admit_inline_step(&steps[i]) {
            Ok(op) => persist::push_op(&mut ops, op),
            Err(m) => {
                proof {
                    rejected_prefix_rejects(steps@, i + 1);
                }
                return Err(m);
            },
        }
        i = i + 1;
    }
    assert(steps@.take(i as int) =~= steps@);
    Ok(ops)
}

fn thread_inputs(steps: &Vec<StepDto>) -> (r: Vec<DbOp>)
    ensures
        persist::op_views(r@) == inline_inputs(steps@),
{
    let mut ops: Vec<DbOp> = Vec::new();
    let mut i: usize = 0;
    assert(persist::op_views(ops@) =~= Seq::<OpView>::empty());
    while i < steps.len()
        invariant
            i <= steps@.len(),
            persist::op_views(ops@) == inline_inputs(steps@.take(i as int)),
        decreases steps@.len() - i,
    {
        let ghost next = steps@.take(i + 1);
        let ghost before = persist::op_views(ops@);
        assert(next.drop_last() =~= steps@.take(i as int));
        assert(next.last() == steps@[i as int]);
        if let Some(inputs) = &steps[i].inputs {
            persist::push_op(
                &mut ops,
                DbOp::SetStepInputs { step: steps[i].id.clone(), inputs: text::clone_strings(inputs) },
            );
        }
        assert(persist::op_views(ops@) =~= before + persist::input_ops(steps@[i as int].id@, steps@[i as int].inputs));
        i = i + 1;
    }
    assert(steps@.take(i as int) =~= steps@);
    ops
}

/// Admit an inline pipeline and plan what its run writes. `resolved` is what resolving the
/// launch parameters against the declared interface said, `title` the headline the caller's
/// reason gives.
pub fn create_run(req: &CreateRunRequest, resolved: Result<(), String>, title: Option<String>) -> (r: Result<
    Vec<DbOp>,
    ApiError,
>)
    ensures
        plan_result(r) == inline_plan(*req, resolved, title),
{
    if let Err(e) = resolved {
        let mut m = "invalid launch parameters: ".to_owned();
        m.append(e.as_str());
        return Err(ApiError::BadRequest(m));
    }
    if let Some(m) = check_retries(&req.pipeline.steps) {
        return Err(ApiError::BadRequest(m));
    }
    let created = match admit_steps(&req.pipeline.steps) {
        Ok(ops) => ops,
        Err(m) => {
            return Err(ApiError::BadRequest(m));
        },
    };
    let ghost creates = persist::op_views(created@);
    let mut ops: Vec<DbOp> = Vec::new();
    persist::push_op(&mut ops, DbOp::CreateRun { ir_version: req.pipeline.ir_version });
    persist::push_op(&mut ops, DbOp::StoreIr);
    persist::push_op(&mut ops, DbOp::SetParams);
    let ghost front = persist::op_views(ops@);
    assert(front =~= seq![
        OpView::CreateRun { ir_version: req.pipeline.ir_version },
        OpView::StoreIr,
        OpView::SetParams,
    ]);
    if let Some(t) = &title {
        persist::push_op(&mut ops, DbOp::SetTriggerTitle { title: t.clone() });
    }
    assert(persist::op_views(ops@) =~= front + persist::title_ops(title));
    persist::push_op(&mut ops, DbOp::AppendRunCreated);
    assert(persist::op_views(ops@) =~= front + persist::title_ops(title) + seq![OpView::AppendRunCreated]);
    persist::push_ops(&mut ops, created);
    persist::push_ops(&mut ops, thread_inputs(&req.pipeline.steps));
    Ok(ops)
}

proof fn inline_grants_stay_in_the_sandbox(steps: Seq<StepDto>)
    requires
        inline_steps(steps) is Ok,
    ensures
        inline_steps(steps)->Ok_0.len() == steps.len(),
        forall|i: int|
            0 <= i < steps.len() ==> (#[trigger] inline_steps(steps)->Ok_0[i] matches OpView::CreateStep {
                step: s,
                spec: Some(spec),
                needs,
            } && s == steps[i].id@ && !spec.grants.privileged && spec.grants.add_capabilities.len() == 0
                && spec.k8s_overlay is None),
    decreases steps.len(),
{
    if steps.len() > 0 {
        inline_grants_stay_in_the_sandbox(steps.drop_last());
        admission::ungoverned_steps_stay_in_the_sandbox(steps.last().security);
    }
}

/// An inline step cannot be admitted: it retries out of bounds, asks for more than the root user, or
/// carries a raw overlay.
pub open spec fn inadmissible(step: StepDto) -> bool {
    ||| step.retry matches Some(r) && (r.max == 0 || r.max > 10)
    ||| step.security matches Some(s) && (s.privileged || s.add_capabilities@.len() > 0)
    ||| step.k8s_overlay is Some
}

proof fn bad_retries_are_found(steps: Seq<StepDto>)
    ensures
        first_bad_retry(steps) is Some <==> exists|i: int|
            0 <= i < steps.len() && !retry_in_bounds(#[trigger] steps[i]),
    decreases steps.len(),
{
    if steps.len() > 0 {
        let rest = steps.drop_first();
        bad_retries_are_found(rest);
        if exists|i: int| 0 <= i < rest.len() && !retry_in_bounds(#[trigger] rest[i]) {
            let i = choose|i: int| 0 <= i < rest.len() && !retry_in_bounds(#[trigger] rest[i]);
            assert(!retry_in_bounds(steps[i + 1]));
        }
        if exists|i: int| 0 <= i < steps.len() && !retry_in_bounds(#[trigger] steps[i]) {
            let i = choose|i: int| 0 <= i < steps.len() && !retry_in_bounds(#[trigger] steps[i]);
            if i > 0 {
                assert(!retry_in_bounds(rest[i - 1]));
            }
        }
    }
}

proof fn refused_steps_are_found(steps: Seq<StepDto>)
    ensures
        inline_steps(steps) is Err <==> exists|i: int| 0 <= i < steps.len() && inline_step(#[trigger] steps[i]) is Err,
        inline_steps(steps) matches Ok(ops) ==> ops.len() == steps.len() && forall|i: int|
            0 <= i < steps.len() ==> inline_step(#[trigger] steps[i]) == Ok::<OpView, Seq<char>>(ops[i]),
    decreases steps.len(),
{
    if steps.len() > 0 {
        let rest = steps.drop_last();
        let n = rest.len() as int;
        refused_steps_are_found(rest);
        assert(steps[n] == steps.last());
        if exists|i: int| 0 <= i < rest.len() && inline_step(#[trigger] rest[i]) is Err {
            let i = choose|i: int| 0 <= i < rest.len() && inline_step(#[trigger] rest[i]) is Err;
            assert(inline_step(steps[i]) is Err);
        }
        if exists|i: int| 0 <= i < steps.len() && inline_step(#[trigger] steps[i]) is Err {
            let i = choose|i: int| 0 <= i < steps.len() && inline_step(#[trigger] steps[i]) is Err;
            if i < n {
                assert(inline_step(rest[i]) is Err);
            }
        }
        if inline_steps(steps) is Ok {
            assert forall|i: int| 0 <= i < steps.len() implies inline_step(#[trigger] steps[i]) == Ok::<OpView, Seq<char>>(
                inline_steps(steps)->Ok_0[i],
            ) by {
                if i < n {
                    assert(rest[i] == steps[i]);
                }
            }
        }
    }
}

/// An inline run is accepted exactly when its parameters resolve and every one of its steps is
/// admissible.
pub proof fn inline_runs_are_refused_for_a_reason(req: CreateRunRequest, resolved: Result<(), String>, title: Option<String>)
    ensures
        inline_plan(req, resolved, title) is Ok <==> resolved is Ok && forall|i: int|
            0 <= i < req.pipeline.steps@.len() ==> !inadmissible(#[trigger] req.pipeline.steps@[i]),
        inline_plan(req, resolved, title) matches Err(e) ==> e is BadRequest,
{
    let steps = req.pipeline.steps@;
    bad_retries_are_found(steps);
    refused_steps_are_found(steps);
    if resolved is Ok {
        if exists|i: int| 0 <= i < steps.len() && inadmissible(#[trigger] steps[i]) {
            let i = choose|i: int| 0 <= i < steps.len() && inadmissible(#[trigger] steps[i]);
            assert(!retry_in_bounds(steps[i]) || inline_step(steps[i]) is Err);
        } else {
            assert forall|i: int| 0 <= i < steps.len() implies retry_in_bounds(#[trigger] steps[i]) && inline_step(steps[i])
                is Ok by {
                assert(!inadmissible(steps[i]));
            }
        }
    }
}

/// The operation creates the step with the needs it declares, and launches what it declares: its
/// image and command with its environment and secrets, as root where it asks for that, and with no
/// other privilege.
pub open spec fn launches(op: OpView, s: StepDto) -> bool {
    op matches OpView::CreateStep { step, spec: Some(spec), needs } && {
        &&& step == s.id@
        &&& needs =~= s.needs@.map_values(|n: String| n@)
        &&& spec.image == s.image@
        &&& spec.command =~= s.command@.map_values(|n: String| n@)
        &&& spec.env =~= s.env@.map_values(|p: (String, String)| (p.0@, p.1@))
        &&& spec.secrets =~= s.secrets@.map_values(|n: String| n@)
        &&& spec.timeout_seconds == s.timeout
        &&& spec.placement_profiles =~= s.placement_profiles@.map_values(|n: String| n@)
        &&& spec.resources == s.resources@
        &&& spec.services =~= s.services@.map_values(|x: model::ServiceSpec| x@)
        &&& spec.uses =~= s.uses@.map_values(|n: String| n@)
        &&& spec.workspace_inputs.len() == 0
        &&& spec.workspace_outputs =~= (match s.outputs {
            Some(v) => v@.map_values(|n: String| n@),
            None => Seq::empty(),
        })
        &&& spec.grants.run_as_root == (s.security matches Some(x) && x.run_as_root)
        &&& !spec.grants.privileged && spec.grants.add_capabilities.len() == 0
        &&& spec.clone is None && spec.build is None && spec.k8s_overlay is None && spec.oidc_token is None
    }
}

proof fn admitted_steps_launch(s: StepDto)
    ensures
        inline_step(s) matches Ok(op) ==> launches(op, s),
{
}

/// An inline run writes its creation, its pipeline and parameters, its title where it has one, and
/// then every step exactly once in order, as it is declared.
pub proof fn inline_steps_launch_what_they_declare(
    req: CreateRunRequest,
    resolved: Result<(), String>,
    title: Option<String>,
    ops: Seq<OpView>,
    i: int,
)
    requires
        inline_plan(req, resolved, title) == Ok::<Seq<OpView>, ApiErrorView>(ops),
        0 <= i < req.pipeline.steps@.len(),
    ensures
        ops[0] == (OpView::CreateRun { ir_version: req.pipeline.ir_version }),
        ops[1] is StoreIr && ops[2] is SetParams,
        title matches Some(t) ==> ops[3] == (OpView::SetTriggerTitle { title: t@ }) && ops[4] is AppendRunCreated && launches(
            ops[5 + i],
            req.pipeline.steps@[i],
        ),
        title is None ==> ops[3] is AppendRunCreated && launches(ops[4 + i], req.pipeline.steps@[i]),
{
    let steps = req.pipeline.steps@;
    refused_steps_are_found(steps);
    let created = inline_steps(steps)->Ok_0;
    admitted_steps_launch(steps[i]);
    assert(inline_step(steps[i]) == Ok::<OpView, Seq<char>>(created[i]));
}

/// Behind its creation every step that declares inputs has them threaded, and nothing else is written.
pub proof fn inline_inputs_are_threaded(
    req: CreateRunRequest,
    resolved: Result<(), String>,
    title: Option<String>,
    ops: Seq<OpView>,
)
    requires
        inline_plan(req, resolved, title) == Ok::<Seq<OpView>, ApiErrorView>(ops),
    ensures
        ({
            let steps = req.pipeline.steps@;
            let f = steps.len() as int + if title is Some {
                5int
            } else {
                4
            };
            &&& f <= ops.len()
            &&& forall|k: int|
                f <= k < ops.len() ==> ((#[trigger] ops[k]) matches OpView::SetStepInputs { step, inputs } && exists|i: int|
                    0 <= i < steps.len() && step == (#[trigger] steps[i]).id@ && (steps[i].inputs matches Some(v) && inputs
                        =~= v@.map_values(|n: String| n@)))
            &&& forall|i: int|
                0 <= i < steps.len() && (#[trigger] steps[i]).inputs is Some ==> ops.contains(
                    OpView::SetStepInputs { step: steps[i].id@, inputs: text::views(steps[i].inputs->0@) },
                )
        }),
{
    let steps = req.pipeline.steps@;
    refused_steps_are_found(steps);
    inputs_are_threaded(steps);
    let created = inline_steps(steps)->Ok_0;
    let inputs = inline_inputs(steps);
    let front = seq![
        OpView::CreateRun { ir_version: req.pipeline.ir_version },
        OpView::StoreIr,
        OpView::SetParams,
    ] + persist::title_ops(title) + seq![OpView::AppendRunCreated] + created;
    let f = front.len() as int;
    assert(ops == front + inputs);
    assert(forall|k: int| f <= k < ops.len() ==> (#[trigger] ops[k]) == inputs[k - f]);
    assert forall|i: int| 0 <= i < steps.len() && (#[trigger] steps[i]).inputs is Some implies ops.contains(
        OpView::SetStepInputs { step: steps[i].id@, inputs: text::views(steps[i].inputs->0@) },
    ) by {
        let op = OpView::SetStepInputs { step: steps[i].id@, inputs: text::views(steps[i].inputs->0@) };
        let k = choose|k: int| 0 <= k < inputs.len() && #[trigger] inputs[k] == op;
        assert(ops[f + k] == op);
    }
}

proof fn inputs_are_threaded(steps: Seq<StepDto>)
    ensures
        forall|k: int|
            0 <= k < inline_inputs(steps).len() ==> ((#[trigger] inline_inputs(steps)[k]) matches OpView::SetStepInputs {
                step,
                inputs,
            } && exists|i: int|
                0 <= i < steps.len() && step == (#[trigger] steps[i]).id@ && (steps[i].inputs matches Some(v) && inputs
                    =~= v@.map_values(|n: String| n@))),
        forall|i: int|
            0 <= i < steps.len() && (#[trigger] steps[i]).inputs is Some ==> exists|k: int|
                0 <= k < inline_inputs(steps).len() && #[trigger] inline_inputs(steps)[k] == (OpView::SetStepInputs {
                    step: steps[i].id@,
                    inputs: text::views(steps[i].inputs->0@),
                }),
    decreases steps.len(),
{
    if steps.len() > 0 {
        let rest = steps.drop_last();
        let last = steps.last();
        let m = steps.len() - 1;
        inputs_are_threaded(rest);
        let before = inline_inputs(rest);
        let all = inline_inputs(steps);
        assert(steps[m] == last);
        assert forall|k: int| 0 <= k < all.len() implies ((#[trigger] all[k]) matches OpView::SetStepInputs { step, inputs }
            && exists|i: int|
            0 <= i < steps.len() && step == (#[trigger] steps[i]).id@ && (steps[i].inputs matches Some(v) && inputs
                =~= v@.map_values(|n: String| n@))) by {
            if k < before.len() {
                assert(all[k] == before[k]);
                let (step, inputs) = (before[k]->SetStepInputs_step, before[k]->SetStepInputs_inputs);
                let i = choose|i: int|
                    0 <= i < rest.len() && step == (#[trigger] rest[i]).id@ && (rest[i].inputs matches Some(v) && inputs
                        =~= v@.map_values(|n: String| n@));
                assert(steps[i] == rest[i]);
            } else {
                assert(all[k] == persist::input_ops(last.id@, last.inputs)[k - before.len()]);
                assert(text::views(last.inputs->0@) =~= last.inputs->0@.map_values(|n: String| n@));
                assert(steps[m].inputs is Some);
            }
        }
        assert forall|i: int| 0 <= i < steps.len() && (#[trigger] steps[i]).inputs is Some implies exists|k: int|
            0 <= k < all.len() && #[trigger] all[k] == (OpView::SetStepInputs {
                step: steps[i].id@,
                inputs: text::views(steps[i].inputs->0@),
            }) by {
            if i < m {
                assert(rest[i] == steps[i]);
                let k = choose|k: int|
                    0 <= k < before.len() && #[trigger] before[k] == (OpView::SetStepInputs {
                        step: steps[i].id@,
                        inputs: text::views(steps[i].inputs->0@),
                    });
                assert(all[k] == before[k]);
            } else {
                assert(all[before.len() as int] == persist::input_ops(last.id@, last.inputs)[0]);
            }
        }
    }
}

/// A run of an inline pipeline creates every step exactly once, in order, and none of them with
/// a governed grant or a raw overlay.
pub proof fn inline_runs_stay_in_the_sandbox(req: CreateRunRequest, resolved: Result<(), String>, title: Option<String>)
    requires
        inline_plan(req, resolved, title) is Ok,
    ensures
        inline_steps(req.pipeline.steps@) is Ok,
        inline_steps(req.pipeline.steps@)->Ok_0.len() == req.pipeline.steps@.len(),
        forall|i: int|
            0 <= i < req.pipeline.steps@.len() ==> (#[trigger] inline_steps(
                req.pipeline.steps@,
            )->Ok_0[i] matches OpView::CreateStep { step: s, spec: Some(spec), needs } && s
                == req.pipeline.steps@[i].id@ && !spec.grants.privileged && spec.grants.add_capabilities.len() == 0
                && spec.k8s_overlay is None),
{
    inline_grants_stay_in_the_sandbox(req.pipeline.steps@);
}

/// A refused request is told why: parameters that do not resolve come first, then the first step
/// whose retries are out of bounds, with the bound it asked for.
pub proof fn refused_requests_are_told_why(
    req: CreateRunRequest,
    resolved: Result<(), String>,
    title: Option<String>,
    i: int,
)
    ensures
        resolved matches Err(e) ==> inline_plan(req, resolved, title) == Err::<Seq<OpView>, ApiErrorView>(
            ApiErrorView::BadRequest("invalid launch parameters: "@ + e@),
        ),
        resolved is Ok && 0 <= i < req.pipeline.steps@.len() && (req.pipeline.steps@[i].retry matches Some(r) && (r.max < 1
            || r.max > 10)) && (forall|j: int|
            0 <= j < i ==> ((#[trigger] req.pipeline.steps@[j]).retry matches Some(r) ==> 1 <= r.max <= 10)) ==> (
        inline_plan(req, resolved, title) matches Err(ApiErrorView::BadRequest(m)) && text::has_prefix(
            m,
            "step `"@ + req.pipeline.steps@[i].id@ + "`: `retry.max` must be between 1 and 10 (got "@ + text::decimal(
                req.pipeline.steps@[i].retry->0.max as nat,
            ) + ")"@,
        )),
{
    let steps = req.pipeline.steps@;
    if resolved is Ok && 0 <= i < steps.len() && (steps[i].retry matches Some(r) && (r.max < 1 || r.max > 10)) && (forall|
        j: int,
    |
        0 <= j < i ==> ((#[trigger] steps[j]).retry matches Some(r) ==> 1 <= r.max <= 10)) {
        the_first_bad_retry_counts(steps, i);
        reveal_strlit(")");
        reveal_strlit(
            ") — retry re-runs the whole step at-least-once; enable only if the step is idempotent or fenced against a cooperating sink",
        );
        let m = retry_message(steps[i]);
        let named = "step `"@ + steps[i].id@ + "`: `retry.max` must be between 1 and 10 (got "@ + text::decimal(
            steps[i].retry->0.max as nat,
        ) + ")"@;
        assert(m.subrange(0, named.len() as int) =~= named);
    }
}

proof fn the_first_bad_retry_counts(steps: Seq<StepDto>, i: int)
    requires
        0 <= i < steps.len(),
        !retry_in_bounds(steps[i]),
        forall|j: int| 0 <= j < i ==> retry_in_bounds(#[trigger] steps[j]),
    ensures
        first_bad_retry(steps) == Some(steps[i]),
    decreases i,
{
    if i > 0 {
        let rest = steps.drop_first();
        assert(retry_in_bounds(steps[0]));
        assert(rest[i - 1] == steps[i]);
        assert forall|j: int| 0 <= j < i - 1 implies retry_in_bounds(#[trigger] rest[j]) by {
            assert(rest[j] == steps[j + 1]);
        }
        the_first_bad_retry_counts(rest, i - 1);
    }
}

} // verus!
