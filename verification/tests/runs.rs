//! Runs as they are listed, shown, cancelled and their evidence is read.

use scarab_server::connections::{ForgeConnection, ForgeKind};
use scarab_server::errors::ApiError;
use scarab_server::event::RepoRef;
use scarab_server::evidence::{
    consumed_attempt, download_artifact, file_content_type, get_step_results, get_workspace_file,
    list_artifacts, list_workspace, of_record_index, workspace_directory, workspace_segments,
    workspace_walk, ArtifactRecord, ArtifactVersionQuery, AttemptQuery, Browse, Walk,
};
use scarab_server::json::Json;
use scarab_server::mark::TreeTarget;
use scarab_server::onboarding::ResolvedRepo;
use scarab_server::overlay::{KnownTrees, TreeEntry};
use scarab_server::runs::{
    attach_step, cancel_run, debug_pod_step, get_run, is_terminal, list_projects, list_runs, run_list,
    run_status_name, runs_limit, step_status_name, tenants_to_ask, Attempt, FailureKind,
    ListRunsQuery, ProjectDto, ProjectFacts, RunFacts, RunStatus, RunSummary, StepRecord, StepStatus,
    DEFAULT_RUNS_LIMIT, MAX_RUNS_LIMIT,
};

fn summary(run: &str, tenant: Option<(&str, &str)>) -> RunSummary {
    RunSummary {
        run: run.into(),
        status: RunStatus::Succeeded,
        created_at: 100,
        updated_at: 350,
        tenant: tenant.map(|(o, p)| (o.to_string(), p.to_string())),
        run_number: Some(7),
        trigger_kind: Some("push".into()),
        actor: None,
        git_ref: None,
        sha: None,
        pr_number: None,
        pr_base: None,
        pipeline: None,
        trigger_title: None,
    }
}

#[test]
fn statuses_have_their_words() {
    assert_eq!(run_status_name(RunStatus::DeadLettered), "dead_lettered");
    assert_eq!(run_status_name(RunStatus::Succeeded), "succeeded");
    assert_eq!(step_status_name(StepStatus::Skipped), "skipped");
    assert!(is_terminal(RunStatus::DeadLettered) && !is_terminal(RunStatus::Suspended));
}

#[test]
fn a_listing_is_bounded() {
    assert_eq!(runs_limit(&ListRunsQuery { limit: None }), DEFAULT_RUNS_LIMIT);
    assert_eq!(runs_limit(&ListRunsQuery { limit: Some(3) }), 3);
    assert_eq!(runs_limit(&ListRunsQuery { limit: Some(100_000) }), MAX_RUNS_LIMIT);
}

#[test]
fn a_summary_shows_how_long_the_run_took() {
    let r = run_list(vec![summary("r1", Some(("acme", "web")))]);
    assert_eq!(r.runs[0].id, "r1");
    assert_eq!(r.runs[0].duration_ms, 250);
    assert_eq!(r.runs[0].org.as_deref(), Some("acme"));
    assert_eq!(r.runs[0].status, "succeeded");
}

#[test]
fn only_runs_of_readable_projects_are_listed() {
    let runs = vec![
        summary("r1", Some(("acme", "web"))),
        summary("r2", Some(("acme", "api"))),
        summary("r3", None),
        summary("r4", Some(("acme", "web"))),
    ];
    let tenants = tenants_to_ask(&runs);
    assert_eq!(tenants.len(), 2);
    let allowed: Vec<bool> = tenants.iter().map(|t| t.1 == "web").collect();
    let kept: Vec<String> = list_runs(runs, &tenants, &allowed).into_iter().map(|r| r.run).collect();
    assert_eq!(kept, vec!["r1".to_string(), "r4".to_string()]);
}

fn record(id: &str, status: StepStatus) -> StepRecord {
    StepRecord {
        id: id.into(),
        status,
        attempts: vec![
            Attempt { id: "a1".into(), started_at: 5, failure: Some(FailureKind::Infra), outcome: "o".into() },
            Attempt { id: "a2".into(), started_at: 6, failure: None, outcome: "o".into() },
        ],
        needs: vec![],
        gate_kind: None,
        services: vec![],
        uses: vec![],
    }
}

#[test]
fn a_run_is_shown_with_its_steps() {
    assert!(matches!(get_run("r".into(), None, vec![]), Err(ApiError::NotFound)));
    let facts = RunFacts {
        status: RunStatus::Running,
        run_number: Some(3),
        params: vec![],
        pipeline: Some("ci".into()),
        trigger_title: None,
        pr_base: None,
    };
    let shown = get_run("r".into(), Some(facts), vec![record("build", StepStatus::Running)]).unwrap();
    assert_eq!(shown.status, "running");
    assert_eq!(shown.steps[0].attempts, 2);
    assert!(shown.steps[0].attempt_list[0].failed);
    assert!(!shown.steps[0].attempt_list[1].failed);
}

#[test]
fn a_run_is_cancelled_once() {
    assert!(matches!(cancel_run(false, Ok(true)), Err(ApiError::NotFound)));
    assert_eq!(cancel_run(true, Ok(true)).unwrap(), 202);
    assert_eq!(cancel_run(true, Ok(false)).unwrap(), 409);
    assert!(matches!(cancel_run(true, Err("x".into())), Err(ApiError::BadRequest(m)) if m == "x"));
}

#[test]
fn only_a_running_step_is_attached_to() {
    assert!(attach_step(Some(StepStatus::Running)).is_ok());
    assert!(matches!(attach_step(None), Err(ApiError::NotFound)));
    assert!(attach_step(Some(StepStatus::Succeeded)).is_err());
    assert!(matches!(debug_pod_step(false, Some("i".into())), Err(ApiError::NotFound)));
    assert_eq!(debug_pod_step(true, Some("img".into())).unwrap(), "img");
    assert!(matches!(debug_pod_step(true, None), Err(ApiError::NotFound)));
}

#[test]
fn projects_are_listed_in_order() {
    let p = |org: &str, name: &str, readable: bool, last_run_at: Option<i64>| ProjectFacts {
        repo: RepoRef { owner: org.into(), name: name.into() },
        resolved: Some(ResolvedRepo {
            connection: ForgeConnection {
                id: "c1".into(),
                kind: ForgeKind::Forgejo,
                base_url: "https://codeberg.org".into(),
                credential_ref: "cred".into(),
            },
            org: org.into(),
            project: name.into(),
        }),
        readable,
        last_run_at,
    };
    let facts = || {
        let mut gone = p("a", "gone", true, Some(9));
        gone.resolved = None;
        vec![p("b", "x", true, None), p("a", "z", true, None), p("a", "y", false, None), p("c", "w", true, Some(5)), gone]
    };
    let names = |v: Vec<ProjectDto>| v.into_iter().map(|p| p.project).collect::<Vec<String>>();
    assert_eq!(names(list_projects(facts(), true)), vec!["w", "y", "z", "x"]);
    assert_eq!(names(list_projects(facts(), false)), vec!["w", "z", "x"]);
    assert_eq!(list_projects(facts(), true)[0].repo_url, "https://codeberg.org/c/w");
}

fn artifact(name: &str, step: &str, attempt: &str, succeeded: bool) -> ArtifactRecord {
    ArtifactRecord {
        name: name.into(),
        size: 1,
        content_type: "text/plain".into(),
        object_key: format!("{name}-{attempt}"),
        step: step.into(),
        attempt: attempt.into(),
        succeeded,
    }
}

#[test]
fn a_bare_name_serves_the_last_success() {
    let all = vec![
        artifact("log", "s", "a1", true),
        artifact("log", "s", "a2", true),
        artifact("log", "s", "a3", false),
        artifact("only", "s", "a1", false),
    ];
    assert_eq!(of_record_index(&all, "log"), Some(1));
    assert_eq!(of_record_index(&all, "only"), None);
    let marks: Vec<bool> = list_artifacts(&all).into_iter().map(|a| a.of_record).collect();
    assert_eq!(marks, vec![false, true, false, false]);
    let bare = ArtifactVersionQuery { step: None, attempt: None };
    assert_eq!(download_artifact(&all, "log", &bare).unwrap(), 1);
    assert!(matches!(download_artifact(&all, "only", &bare), Err(ApiError::NotFound)));
    let pinned = ArtifactVersionQuery { step: Some("s".into()), attempt: Some("a3".into()) };
    assert_eq!(download_artifact(&all, "log", &pinned).unwrap(), 2);
}

#[test]
fn results_carry_the_kind_of_their_value() {
    let r = get_step_results(vec![("n".into(), Json::Number("1".into())), ("o".into(), Json::Object(vec![]))]);
    assert_eq!(r[0].kind_name, "number");
    assert_eq!(r[1].kind_name, "object");
    assert_eq!(consumed_attempt(AttemptQuery { attempt: Some("a1".into()) }, None).unwrap(), "a1");
    assert_eq!(consumed_attempt(AttemptQuery { attempt: None }, Some("a2".into())).unwrap(), "a2");
    assert!(matches!(consumed_attempt(AttemptQuery { attempt: None }, None), Err(ApiError::NotFound)));
}

fn entry(name: &str, target: TreeTarget) -> TreeEntry {
    TreeEntry { name: name.into(), target, mode: None, mtime_ms: None }
}

#[test]
fn a_snapshot_is_browsed_tree_by_tree() {
    let root = "t0".to_string();
    let mut known = KnownTrees::new();
    assert!(matches!(workspace_directory(&known, &root, "src"), Browse::Need(h) if h == "t0"));
    known.learn(
        "t0".into(),
        vec![entry("z.txt", TreeTarget::Blob("b0".into())), entry("src", TreeTarget::Tree("t1".into()))],
    );
    assert!(matches!(workspace_directory(&known, &root, "/src/"), Browse::Found(h) if h == "t1"));
    assert!(matches!(workspace_directory(&known, &root, "z.txt"), Browse::Refused(ApiError::NotFound)));
    assert!(matches!(workspace_directory(&known, &root, "../etc"), Browse::Refused(ApiError::NotFound)));
    let some = Some(root.clone());
    assert!(matches!(get_workspace_file(&known, &some, "z.txt"), Browse::Found(h) if h == "b0"));
    assert!(matches!(get_workspace_file(&known, &some, "src/main.rs"), Browse::Need(h) if h == "t1"));
    assert!(matches!(get_workspace_file(&known, &None, "z.txt"), Browse::Refused(ApiError::NotFound)));
    assert!(matches!(
        workspace_walk(&known, &root, &vec!["nope".to_string()]),
        Walk::NotFound
    ));
    let listing = list_workspace("".into(), known.get(&root));
    let names: Vec<(String, String)> = listing.entries.into_iter().map(|e| (e.name, e.kind)).collect();
    assert_eq!(names, vec![("src".into(), "dir".into()), ("z.txt".into(), "file".into())]);
    assert!(!list_workspace("".into(), None).available);
}

#[test]
fn a_browse_path_is_cleaned_or_refused() {
    assert_eq!(workspace_segments("/a//b/").unwrap(), vec!["a".to_string(), "b".to_string()]);
    assert!(matches!(workspace_segments("a/./b"), Err(ApiError::NotFound)));
    assert!(matches!(workspace_segments("a/../b"), Err(ApiError::NotFound)));
    assert_eq!(file_content_type(&b"hello".to_vec()), "text/plain; charset=utf-8");
    assert_eq!(file_content_type(&vec![0xff, 0xfe]), "application/octet-stream");
}
