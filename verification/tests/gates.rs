//! Approvals, releases, secrets and their coverage.

use scarab_server::admission::{ProtectionRules, SecretScope};
use scarab_server::errors::{ApiError, RerunError};
use scarab_server::gates::{
    external_gate, gate_approvers, gate_token_message, ingest_step_results, release_gate_external,
    results_attempt, results_token_message, ApproveGate, GateAction, GateEvent, RunEvent, StepState,
    RESULTS_MAX_BYTES,
};
use scarab_server::persist::DeployContext;
use scarab_server::secrets::{
    coverage_cell, delete_secret, put_environment, put_secret, secret_matrix, secret_scope, Coverage,
    PutSecretRequest, SecretScopeQuery, SilenceCellRequest,
};

fn approved(step: &str, by: &str) -> RunEvent {
    RunEvent::GateApproved { step: step.into(), by: by.into() }
}

fn step(id: &str, succeeded: bool, kind: Option<&str>) -> StepState {
    StepState { id: id.into(), succeeded, gate_kind: kind.map(|k| k.to_string()) }
}

fn prod() -> DeployContext {
    DeployContext {
        org: "acme".into(),
        project: "web".into(),
        environment: "prod".into(),
        git_ref: "refs/heads/main".into(),
        locked_out: false,
    }
}

#[test]
fn an_approver_counts_once() {
    let events =
        vec![approved("g", "ada"), RunEvent::Other, approved("g", "bob"), approved("g", "ada"), approved("h", "eve")];
    assert_eq!(gate_approvers(&events, "g"), vec!["ada".to_string(), "bob".to_string()]);
}

#[test]
fn a_protected_gate_waits_until_its_rules_are_met() {
    let (g, a) = ApproveGate::begin("r".into(), "g".into(), true);
    assert!(matches!(a, GateAction::RecordApproval));
    let (g, a) = g.step(GateEvent::Recorded(Ok(())));
    let (g, a) = match a {
        GateAction::ReadSteps => {
            g.step(GateEvent::Steps { found: Ok(vec![step("g", false, Some("manual"))]), now: 9 })
        }
        _ => (g, a),
    };
    assert!(matches!(a, GateAction::ReadEvents), "{a:?}");
    let (g, a) = g.step(GateEvent::Events(Ok(vec![approved("g", "ada")])));
    assert!(matches!(a, GateAction::ReadContext), "{a:?}");
    let (g, a) = g.step(GateEvent::Context(Ok(Some(prod()))));
    assert!(matches!(a, GateAction::JudgeRules { ref environment, .. } if environment == "prod"), "{a:?}");
    let (_, a) = g.step(GateEvent::Judged(Ok(Some(false))));
    match a {
        GateAction::Answer { released, approvals } => {
            assert!(!released);
            assert_eq!(approvals, Some(vec!["ada".to_string()]));
        }
        other => panic!("{other:?}"),
    }
}

#[test]
fn a_released_deploy_enters_the_history() {
    let (g, _) = ApproveGate::begin("r".into(), "g".into(), true);
    let (g, _) = g.step(GateEvent::Recorded(Ok(())));
    let (g, _) = g.step(GateEvent::Steps { found: Ok(vec![step("g", false, Some("manual"))]), now: 9 });
    let (g, _) = g.step(GateEvent::Events(Ok(vec![approved("g", "ada")])));
    let (g, _) = g.step(GateEvent::Context(Ok(Some(prod()))));
    let (g, a) = g.step(GateEvent::Judged(Ok(Some(true))));
    assert!(matches!(a, GateAction::Release), "{a:?}");
    let (g, a) = g.step(GateEvent::Released(Ok(())));
    assert!(matches!(a, GateAction::ReadSteps), "{a:?}");
    let (g, a) = g.step(GateEvent::Steps { found: Ok(vec![step("g", true, Some("manual"))]), now: 11 });
    match a {
        GateAction::RecordDeployment(d) => {
            assert_eq!((d.environment.as_str(), d.run.as_str(), d.at), ("prod", "r", 11));
            assert_eq!(d.approved_by, vec!["ada".to_string()]);
        }
        other => panic!("{other:?}"),
    }
    let (_, a) = g.step(GateEvent::Deployed(Ok(())));
    assert!(matches!(a, GateAction::Answer { released: true, .. }), "{a:?}");
}

#[test]
fn a_refused_approval_is_answered_with_its_reason() {
    let (g, _) = ApproveGate::begin("r".into(), "g".into(), false);
    let (_, a) = g.step(GateEvent::Recorded(Err(RerunError::StepNotFound)));
    assert!(matches!(a, GateAction::Fail(ApiError::NotFound)), "{a:?}");
}

#[test]
fn an_external_gate_needs_a_secret_and_its_token() {
    let steps = vec![step("g", false, Some("external")), step("m", false, Some("manual"))];
    assert!(external_gate(&steps, "g"));
    assert!(!external_gate(&steps, "m"));
    assert!(release_gate_external(true, &steps, "g", true).is_ok());
    assert!(matches!(release_gate_external(true, &steps, "g", false), Err(ApiError::Unauthorized)));
    assert!(release_gate_external(true, &steps, "m", true).is_err());
    assert!(release_gate_external(false, &steps, "g", true).is_err());
    assert_eq!(gate_token_message("r", "s"), "r:s");
    assert_eq!(results_token_message("r", "s", "a"), "r:s:a");
}

#[test]
fn results_are_bounded_and_authenticated() {
    let steps = vec![step("s", false, None)];
    assert!(ingest_step_results(true, true, RESULTS_MAX_BYTES, &steps, "s").is_ok());
    assert!(matches!(
        ingest_step_results(true, true, RESULTS_MAX_BYTES + 1, &steps, "s"),
        Err(ApiError::TooLarge(m)) if m == "results exceed 65536 bytes"
    ));
    assert!(matches!(ingest_step_results(true, false, 1, &steps, "s"), Err(ApiError::Unauthorized)));
    assert!(matches!(ingest_step_results(true, true, 1, &steps, "x"), Err(ApiError::NotFound)));
    assert!(ingest_step_results(false, true, 1, &steps, "s").is_err());
    assert_eq!(results_attempt(Some("a1")), "a1");
}

#[test]
fn a_secret_is_scoped_by_what_is_named() {
    assert!(matches!(secret_scope("acme".into(), None, None).unwrap(), SecretScope::Org { .. }));
    assert!(matches!(
        secret_scope("acme".into(), Some("web".into()), Some("prod".into())).unwrap(),
        SecretScope::Environment { environment, .. } if environment == "prod"
    ));
    assert!(matches!(
        secret_scope("".into(), None, None),
        Err(ApiError::BadRequest(m)) if m == "org is required"
    ));
    assert!(matches!(
        secret_scope("acme".into(), None, Some("prod".into())),
        Err(ApiError::BadRequest(m)) if m == "environment-scoped secret requires a repo"
    ));
    let write = put_secret(PutSecretRequest {
        org: "acme".into(),
        repo: None,
        environment: None,
        name: "TOKEN".into(),
        value: "v".into(),
    })
    .unwrap();
    assert_eq!((write.key.as_str(), write.value), ("TOKEN", b"v".to_vec()));
    assert!(delete_secret(SecretScopeQuery { org: "acme".into(), repo: None, environment: None, name: None }).is_err());
}

fn free() -> ProtectionRules {
    ProtectionRules {
        approvers: vec!["ada".into()],
        wait_timer: 5,
        allowed_refs: vec![],
        concurrency: 1,
        secret_scope: SecretScope::Org { org: "other".into() },
        oidc_subject: "mine".into(),
        privileged_images: vec![],
        permit_k8s_overlay: false,
        require_reason: true,
    }
}

#[test]
fn an_environment_owns_its_scope_and_subject() {
    let r = put_environment("acme", "web", "prod", free());
    assert_eq!(r.oidc_subject, "scarab:org/acme/repo/web/env/prod");
    assert!(matches!(r.secret_scope, SecretScope::Environment { ref org, .. } if org == "acme"));
    assert_eq!(r.approvers, vec!["ada".to_string()]);
    assert_eq!(r.wait_timer, 5);
    assert!(r.require_reason);
}

#[test]
fn the_matrix_shows_where_each_key_comes_from() {
    let m = secret_matrix(&Coverage {
        org_keys: vec!["ORG".into()],
        repo_keys: vec!["REPO".into()],
        env_keys: vec![("prod".into(), vec!["ENV".into()]), ("dev".into(), vec![])],
        silenced: vec![(Some("dev".into()), "ENV".into()), (None, "GONE".into())],
    });
    assert_eq!(m.columns, vec!["".to_string(), "prod".to_string(), "dev".to_string()]);
    let keys: Vec<&str> = m.keys.iter().map(|r| r.key.as_str()).collect();
    assert_eq!(keys, vec!["ENV", "GONE", "ORG", "REPO"]);
    let words = |i: usize| -> Vec<&str> { m.keys[i].status.iter().map(|p| p.1.as_str()).collect() };
    assert_eq!(words(0), vec!["unset", "set", "silenced"]);
    assert_eq!(words(1), vec!["silenced", "unset", "unset"]);
    assert_eq!(words(2), vec!["inherited", "inherited", "inherited"]);
    assert_eq!(words(3), vec!["set", "inherited", "inherited"]);
    assert_eq!(
        m.keys[3].inherited_from,
        vec![("prod".to_string(), "repo".to_string()), ("dev".to_string(), "repo".to_string())]
    );
}

#[test]
fn a_cell_is_named_by_its_key() {
    let cell = coverage_cell(SilenceCellRequest { key: "K".into(), environment: Some("".into()) }).unwrap();
    assert_eq!(cell, (None, "K".to_string()));
    assert!(coverage_cell(SilenceCellRequest { key: "".into(), environment: None }).is_err());
}
