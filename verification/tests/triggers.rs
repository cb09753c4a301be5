//! Events, the pipelines they start, and the writes a new run makes.

use scarab_server::admission::{ProtectionRules, RunGovernance, SecretScope};
use scarab_server::catalog::{
    catalog_entry, catalog_listing, list_pipelines, list_refs, pipeline_interface, pipeline_paths, CatalogRead, ForgeRef,
    PathName, RefKind,
};
use scarab_server::create_run::{create_run, created_run};
use scarab_server::errors::{ApiError, DispatchError, ForgeError, TriggerError};
use scarab_server::event::{
    clone_context, config_ref, is_human_dispatch, origin_pr_number, origin_sha, run_forge_coords,
    supersede_key, DispatchKind, Event, RepoRef, Trigger,
};
use scarab_server::json::Json;
use scarab_server::model::{
    AdmittedGrants, BuildDirective, CloneDirective, Concurrency, CreateRunRequest, GrantRuling, IrStep,
    PipelineDto, PipelineIr, Retry, StepDto, StepSecurity,
};
use scarab_server::persist::{persist_run_from_ir, DbOp, GroupPolicy};
use scarab_server::trigger::{
    admit_and_create_run, dispatch_run, trigger_run_from_event, DispatchAction, DispatchOutcome,
    DispatchVerdict, LibraryRead, PipelineVerdict, Prefetch, TriggerAction, TriggerOutcome,
};

fn event(trigger: Trigger, kind: &str) -> Event {
    Event {
        trigger,
        repo: Some(RepoRef { owner: "acme".into(), name: "web".into() }),
        kind: kind.into(),
        actor: Some("ada".into()),
        protection_ref: Some("refs/heads/main".into()),
        trigger_title: Some("Fix it".into()),
        fork_pr: false,
        context: Json::Null,
    }
}

fn push() -> Event {
    event(Trigger::Push { git_ref: "refs/heads/main".into(), after: "abc".into() }, "push")
}

fn pull() -> Event {
    event(Trigger::PullRequest { number: 7, head: "def".into(), base: "main".into() }, "pull_request")
}

#[test]
fn an_event_pins_its_commit() {
    assert_eq!(config_ref(&push()), "abc");
    assert_eq!(origin_sha(&pull()), Some("def".to_string()));
    assert_eq!(origin_pr_number(&pull()), Some(7));
    assert_eq!(origin_pr_number(&push()), None);
    let (repo, sha) = clone_context(&push()).unwrap();
    assert_eq!((repo.name.as_str(), sha.as_str()), ("web", "abc"));
    assert!(!is_human_dispatch(&push()));
    let manual = DispatchKind::Manual.into_event("ada".into(), "main".into(), "abc".into(), None);
    assert!(is_human_dispatch(&event(manual, "manual")));
    assert_eq!(DispatchKind::Api.trigger_kind(), "api");
    assert!(supersede_key(&push(), "ci").is_some());
    assert_ne!(supersede_key(&push(), "ci"), supersede_key(&pull(), "ci"));
    assert!(run_forge_coords(&vec![Json::Null]).is_none());
}

fn ir_step(id: &str) -> IrStep {
    IrStep {
        id: id.into(),
        image: "alpine".into(),
        command: vec!["true".into()],
        env: vec![],
        secrets: vec!["TOKEN".into()],
        needs: vec![],
        inputs: None,
        outputs: None,
        security: None,
        ruling: GrantRuling::Admitted(AdmittedGrants {
            run_as_root: false,
            add_capabilities: vec![],
            privileged: false,
        }),
        timeout: None,
        gate: None,
        gate_after: None,
        clone: None,
        build: None,
        artifacts: Json::Array(vec![]),
        placement_profiles: vec![],
        resources: Json::Null,
        k8s_overlay: None,
        services: vec![],
        uses: vec![],
        matrix_values: Json::Null,
    }
}

fn ir(steps: Vec<IrStep>) -> PipelineIr {
    PipelineIr { ir_version: 3, name: None, environment: None, concurrency: None, steps }
}

fn words(ops: &Vec<DbOp>) -> Vec<String> {
    ops.iter()
        .map(|o| format!("{o:?}").split(|c: char| !c.is_alphanumeric()).next().unwrap().to_string())
        .collect()
}

#[test]
fn a_run_is_written_in_order() {
    let mut gate = ir_step("hold");
    gate.gate = Some("timer".into());
    gate.gate_after = Some(30);
    let mut build = ir_step("build");
    build.inputs = Some(vec!["src".into()]);
    let plan = persist_run_from_ir(
        &ir(vec![gate, build]),
        &push(),
        ".scarab/ci.yaml",
        &RunGovernance::Ungoverned,
        &vec!["build".to_string()],
    );
    assert_eq!(plan.failure, None);
    assert_eq!(
        words(&plan.ops),
        vec![
            "CreateRun", "SetTenant", "AllocateRunNumber", "SetOrigin", "SetPipeline", "SetTriggerTitle",
            "StoreIr", "SetSupersedeKey", "AppendRunCreated", "AppendTrigger", "CreateStep", "SetGate",
            "CreateStep", "SetStepInputs", "SkipStep", "AppendSkipped",
        ]
    );
    assert!(matches!(&plan.ops[4], DbOp::SetPipeline { name } if name == "ci"));
    assert!(matches!(&plan.ops[11], DbOp::SetGate { timer_seconds: Some(30), .. }));
}

#[test]
fn a_rejected_step_ends_the_plan() {
    let mut bad = ir_step("bad");
    bad.security = Some(StepSecurity { run_as_root: false, add_capabilities: vec![], privileged: true });
    let plan = persist_run_from_ir(
        &ir(vec![ir_step("ok"), bad, ir_step("never")]),
        &push(),
        "ci",
        &RunGovernance::Ungoverned,
        &vec![],
    );
    assert!(plan.failure.unwrap().starts_with("step `bad`"));
    assert!(plan.ops.is_empty());
}

fn governed(locked_out: bool) -> RunGovernance {
    RunGovernance::Governed {
        environment: "prod".into(),
        locked_out,
        protection: Some(ProtectionRules {
            approvers: vec![],
            wait_timer: 0,
            allowed_refs: vec![],
            concurrency: 1,
            secret_scope: SecretScope::Org { org: "acme".into() },
            oidc_subject: String::new(),
            privileged_images: vec![],
            permit_k8s_overlay: false,
            require_reason: false,
        }),
    }
}

#[test]
fn a_deploy_queues_and_is_never_superseded() {
    let mut p = ir(vec![]);
    p.concurrency =
        Some(Concurrency { group: "g".into(), policy: "cancel".into(), resolved: Ok("g-main".into()) });
    let plan = persist_run_from_ir(&p, &push(), "ci", &governed(false), &vec![]);
    assert!(plan.ops.iter().any(|o| matches!(
        o,
        DbOp::SetConcurrency { group, policy: GroupPolicy::Queue } if group == "g-main"
    )));
    assert!(!words(&plan.ops).contains(&"SetSupersedeKey".to_string()));
    assert!(words(&plan.ops).contains(&"SetDeployContext".to_string()));
    let free = persist_run_from_ir(&p, &push(), "ci", &RunGovernance::Ungoverned, &vec![]);
    assert!(free.ops.iter().any(|o| matches!(
        o,
        DbOp::SetConcurrency { policy: GroupPolicy::Declared(d), .. } if d == "cancel"
    )));
}

#[test]
fn a_locked_out_run_neither_pushes_nor_writes_back() {
    let mut build = ir_step("image");
    build.build = Some(BuildDirective {
        context: "".into(),
        dockerfile: "".into(),
        image: "reg/web".into(),
        push: true,
    });
    let mut clone = ir_step("clone");
    clone.clone = Some(CloneDirective { full_depth: true, submodules: false, lfs: false });
    let plan = persist_run_from_ir(&ir(vec![build, clone]), &push(), "ci", &governed(true), &vec![]);
    assert_eq!(plan.failure, None);
    let specs: Vec<_> = plan
        .ops
        .iter()
        .filter_map(|o| match o {
            DbOp::CreateStep { spec: Some(s), .. } => Some(s),
            _ => None,
        })
        .collect();
    let b = specs[0].build.as_ref().unwrap();
    assert!(!b.push);
    assert_eq!((b.context.as_str(), b.dockerfile.as_str()), (".", "Dockerfile"));
    let c = specs[1].clone.as_ref().unwrap();
    assert!(c.read_only);
    assert_eq!(c.sha, "abc");
    let read_only = |event: &Event| {
        let mut clone = ir_step("clone");
        clone.clone = Some(CloneDirective { full_depth: true, submodules: false, lfs: false });
        let plan = persist_run_from_ir(&ir(vec![clone]), event, "ci", &RunGovernance::Ungoverned, &vec![]);
        plan.ops
            .iter()
            .find_map(|o| match o {
                DbOp::CreateStep { spec: Some(s), .. } => s.clone.as_ref().map(|c| c.read_only),
                _ => None,
            })
            .unwrap()
    };
    let fork = Event { fork_pr: true, ..pull() };
    assert!(read_only(&fork));
    assert!(!read_only(&pull()));
}

fn step_dto(id: &str) -> StepDto {
    StepDto {
        id: id.into(),
        image: "alpine".into(),
        command: vec![],
        env: vec![],
        secrets: vec![],
        needs: vec![],
        inputs: None,
        outputs: None,
        security: None,
        retry: None,
        timeout: None,
        placement_profiles: vec![],
        resources: Json::Null,
        k8s_overlay: None,
        services: vec![],
        uses: vec![],
    }
}

fn request(steps: Vec<StepDto>) -> CreateRunRequest {
    CreateRunRequest {
        pipeline: PipelineDto { ir_version: 1, interface: Json::Null, budget: None, steps },
        params: vec![],
        reason: None,
    }
}

#[test]
fn an_inline_run_is_created_or_refused() {
    let ops = create_run(&request(vec![step_dto("a")]), Ok(()), Some("why".into())).unwrap();
    assert_eq!(
        words(&ops),
        vec!["CreateRun", "StoreIr", "SetParams", "SetTriggerTitle", "AppendRunCreated", "CreateStep"]
    );
    assert_eq!(created_run("r".into()).status, "pending");
    let refused = |req: CreateRunRequest, resolved: Result<(), String>| match create_run(&req, resolved, None) {
        Err(ApiError::BadRequest(m)) => m,
        other => panic!("{other:?}"),
    };
    assert_eq!(refused(request(vec![]), Err("x".into())), "invalid launch parameters: x");
    let mut greedy = step_dto("a");
    greedy.retry = Some(Retry { max: 11 });
    assert!(refused(request(vec![greedy]), Ok(()))
        .starts_with("step `a`: `retry.max` must be between 1 and 10 (got 11)"));
    let mut root = step_dto("b");
    root.security = Some(StepSecurity { run_as_root: false, add_capabilities: vec![], privileged: true });
    assert!(refused(request(vec![root]), Ok(())).starts_with("step `b`: privilege request rejected: "));
    let mut plain = step_dto("c");
    plain.security = Some(StepSecurity { run_as_root: true, add_capabilities: vec![], privileged: false });
    assert!(create_run(&request(vec![plain]), Ok(()), None).is_ok());
}

fn verdict(matched: bool) -> PipelineVerdict {
    PipelineVerdict { matched: Ok(matched), excluded: Ok(vec![]), steps: 1 }
}

#[test]
fn every_pipeline_is_asked_whether_it_runs() {
    let (mut t, a) = trigger_run_from_event(&push());
    assert!(matches!(a, TriggerAction::ListDir), "{a:?}");
    let a = t.step(TriggerOutcome::Listed(Ok(vec![
        PathName(".scarab/b.yaml".into()),
        PathName(".scarab/notes.txt".into()),
        PathName(".scarab/a.yml".into()),
    ])));
    assert!(matches!(&a, TriggerAction::ReadFile { path } if path == ".scarab/a.yml"), "{a:?}");
    let a = t.step(TriggerOutcome::Read(Ok(b"on: push".to_vec())));
    assert!(matches!(&a, TriggerAction::Compile { yaml, .. } if yaml == "on: push"), "{a:?}");
    let a = t.step(TriggerOutcome::Compiled(Ok(verdict(false))));
    assert!(matches!(&a, TriggerAction::ReadFile { path } if path == ".scarab/b.yaml"), "{a:?}");
    t.step(TriggerOutcome::Read(Ok(b"on: push".to_vec())));
    let a = t.step(TriggerOutcome::Compiled(Ok(verdict(true))));
    assert!(matches!(&a, TriggerAction::Plan { path, .. } if path == ".scarab/b.yaml"), "{a:?}");
    let a = t.step(TriggerOutcome::Planned(Ok(true)));
    assert!(matches!(&a, TriggerAction::Create { paths } if paths == &vec![".scarab/b.yaml".to_string()]), "{a:?}");
    let a = t.step(TriggerOutcome::Created(Ok(vec!["r1".into()])));
    assert!(matches!(&a, TriggerAction::Done { runs } if runs == &vec!["r1".to_string()]), "{a:?}");
}

#[test]
fn a_delivery_starts_all_its_runs_or_none() {
    let begun = || {
        let (mut t, _) = trigger_run_from_event(&push());
        let both = vec![PathName(".scarab/a.yml".into()), PathName(".scarab/b.yml".into())];
        t.step(TriggerOutcome::Listed(Ok(both)));
        t.step(TriggerOutcome::Read(Ok(b"on: push".to_vec())));
        t.step(TriggerOutcome::Compiled(Ok(verdict(true))));
        // The first run is planned, and the second pipeline comes before anything is written.
        let a = t.step(TriggerOutcome::Planned(Ok(true)));
        assert!(matches!(&a, TriggerAction::ReadFile { path } if path == ".scarab/b.yml"), "{a:?}");
        t.step(TriggerOutcome::Read(Ok(b"on: push".to_vec())));
        t
    };
    let a = begun().step(TriggerOutcome::Compiled(Err(TriggerError::Pipeline("no steps".into()))));
    assert!(matches!(&a, TriggerAction::Fail(TriggerError::Pipeline(m)) if m == "no steps"), "{a:?}");
    let mut t = begun();
    t.step(TriggerOutcome::Compiled(Ok(verdict(true))));
    let a = t.step(TriggerOutcome::Planned(Ok(true)));
    assert!(matches!(&a, TriggerAction::Create { paths } if paths.len() == 2), "{a:?}");
    let a = t.step(TriggerOutcome::Created(Err(TriggerError::Db("down".into()))));
    assert!(matches!(a, TriggerAction::Fail(TriggerError::Db(_))), "{a:?}");
    let mut t = begun();
    t.step(TriggerOutcome::Compiled(Ok(verdict(true))));
    let a = t.step(TriggerOutcome::Planned(Ok(false)));
    assert!(matches!(&a, TriggerAction::Create { paths } if paths == &vec![".scarab/a.yml".to_string()]), "{a:?}");
}

#[test]
fn a_pipeline_that_is_no_text_fails_the_event() {
    let (mut t, _) = trigger_run_from_event(&push());
    t.step(TriggerOutcome::Listed(Ok(vec![PathName(".scarab/a.yml".into())])));
    let a = t.step(TriggerOutcome::Read(Ok(vec![0xff])));
    assert!(matches!(a, TriggerAction::Fail(TriggerError::NotUtf8)), "{a:?}");
}

#[test]
fn a_dispatch_is_checked_before_it_runs() {
    let (mut d, a) = dispatch_run("ci".into(), DispatchKind::Manual);
    assert!(matches!(a, DispatchAction::ResolveCommit), "{a:?}");
    let a = d.step(DispatchOutcome::Resolved(Ok(())));
    assert!(matches!(a, DispatchAction::ReadFile { .. }), "{a:?}");
    let a = d.step(DispatchOutcome::Read(Ok(b"on: manual".to_vec())));
    assert!(matches!(a, DispatchAction::Compile { .. }), "{a:?}");
    let a = d.step(DispatchOutcome::Compiled(Ok(DispatchVerdict {
        matched: Ok(false),
        params: Ok(()),
        excluded: Ok(vec![]),
    })));
    assert!(matches!(a, DispatchAction::Fail(DispatchError::NotDispatchable { .. })), "{a:?}");
    let (mut d, _) = dispatch_run("ci".into(), DispatchKind::Api);
    d.step(DispatchOutcome::Resolved(Ok(())));
    d.step(DispatchOutcome::Read(Ok(b"x".to_vec())));
    let a = d.step(DispatchOutcome::Compiled(Ok(DispatchVerdict {
        matched: Ok(true),
        params: Err("missing x".into()),
        excluded: Ok(vec![]),
    })));
    assert!(matches!(a, DispatchAction::Fail(DispatchError::Params(_))), "{a:?}");
}

#[test]
fn a_dispatch_tries_each_candidate_path() {
    let (mut d, _) = dispatch_run("ci".into(), DispatchKind::Manual);
    let mut a = d.step(DispatchOutcome::Resolved(Ok(())));
    let mut tried = 0;
    while let DispatchAction::ReadFile { .. } = a {
        tried += 1;
        a = d.step(DispatchOutcome::Read(Err(ForgeError::Api { rendered: "404".into() })));
    }
    assert!(tried > 1);
    assert!(matches!(a, DispatchAction::Fail(DispatchError::PipelineNotFound(_))), "{a:?}");
}

#[test]
fn each_library_is_fetched_once() {
    let mut p = Prefetch::begin(vec!["a".into()]);
    let first = p.next().unwrap();
    p.on_read(first, LibraryRead::Source { text: "x".into(), names: vec!["a".into(), "b".into()] }).unwrap();
    let second = p.next().unwrap();
    p.on_read(second, LibraryRead::Source { text: "y".into(), names: vec!["a".into()] }).unwrap();
    assert!(p.next().is_none());
    assert_eq!(p.libs.len(), 2);
    let mut bad = Prefetch::begin(vec!["a".into()]);
    let path = bad.next().unwrap();
    assert!(bad.on_read(path, LibraryRead::NotUtf8).is_err());
}

#[test]
fn a_refused_ref_creates_no_run() {
    let made = admit_and_create_run(
        &governed(false), &push(), &ir(vec![ir_step("a")]), "ci", &vec![], false, false, Ok(()),
    );
    assert!(matches!(made, Ok(None)), "{made:?}");
    let made = admit_and_create_run(
        &governed(false), &push(), &ir(vec![ir_step("a")]), "ci", &vec![], false, true, Ok(()),
    );
    assert!(matches!(made, Ok(Some(_))), "{made:?}");
    let mut bad = ir_step("bad");
    bad.security = Some(StepSecurity { run_as_root: false, add_capabilities: vec![], privileged: true });
    let made = admit_and_create_run(
        &RunGovernance::Ungoverned, &push(), &ir(vec![ir_step("ok"), bad]), "ci", &vec![], true, true, Ok(()),
    );
    assert!(matches!(&made, Err(TriggerError::Pipeline(m)) if m.starts_with("step `bad`")), "{made:?}");
}

#[test]
fn the_catalog_lists_what_can_be_dispatched() {
    let kept: Vec<String> = pipeline_paths(vec![
        PathName("z.yaml".into()),
        PathName("a.yml".into()),
        PathName("README.md".into()),
    ])
    .into_iter()
    .map(|p| p.0)
    .collect();
    assert_eq!(kept, vec!["a.yml".to_string(), "z.yaml".to_string()]);
    assert!(catalog_listing(Err(ForgeError::Api { rendered: "404".into() })).unwrap().is_empty());
    assert!(catalog_listing(Err(ForgeError::Other { rendered: "x".into() })).is_err());
    let e = catalog_entry(".scarab/ci.yaml", CatalogRead::Triggers(vec!["manual".into()])).unwrap().unwrap();
    assert_eq!(e.name, "ci");
    assert!(e.manual && !e.api && e.error.is_none());
    let other = catalog_entry(".scarab/x.yaml", CatalogRead::Triggers(vec!["push".into()])).unwrap().unwrap();
    assert!(!other.manual && !other.api);
    let broken = catalog_entry(".scarab/y.yaml", CatalogRead::Unparsable("line 1".into())).unwrap().unwrap();
    assert!(broken.error.is_some());
    let mut listing = list_pipelines(Ok(vec![
        PathName(".scarab/z.yaml".into()),
        PathName(".scarab/a.yml".into()),
        PathName(".scarab/m.yaml".into()),
    ]))
    .unwrap();
    assert_eq!(listing.next(), Some(".scarab/a.yml"));
    listing.on_read(CatalogRead::NotUtf8).unwrap();
    assert_eq!(listing.next(), Some(".scarab/m.yaml"));
    listing.on_read(CatalogRead::Unread(ForgeError::Api { rendered: "404".into() })).unwrap();
    assert!(listing.on_read(CatalogRead::Unread(ForgeError::Other { rendered: "x".into() })).is_err());
    listing.on_read(CatalogRead::Triggers(vec!["api".into()])).unwrap();
    assert_eq!(listing.next(), None);
    let answer = listing.into_response("sha".into());
    let names: Vec<&str> = answer.pipelines.iter().map(|e| e.name.as_str()).collect();
    assert_eq!(names, vec!["a", "z"]);
    assert_eq!(answer.pipelines[0].error.as_deref(), Some("config is not valid UTF-8"));
    assert!(answer.pipelines[1].api);
    let i = pipeline_interface("sha".into(), &vec!["api".into()], Json::Null);
    assert!(i.api && !i.manual);
    let refs = list_refs(vec![ForgeRef {
        kind: RefKind::Tag,
        name: "v1".into(),
        sha: "0123456789abcdef".into(),
    }]);
    assert_eq!(refs.refs[0].kind, "tag");
    assert!("0123456789abcdef".starts_with(&refs.refs[0].short_sha));
}
