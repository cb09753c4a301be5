//! What an environment's rules let a step and a run do.

use scarab_server::admission::{
    admit_k8s_overlay, admit_run, admit_step_grants, resolve_governance, ImageGrant, ProtectionRules,
    RunGovernance, SecretScope,
};
use scarab_server::errors::TriggerError;
use scarab_server::event::{fork_policy, Event, RepoRef, Trigger};
use scarab_server::json::Json;
use scarab_server::model::{AdmittedGrants, GrantRuling, StepSecurity};

fn rules(images: Vec<ImageGrant>) -> ProtectionRules {
    ProtectionRules {
        approvers: vec![],
        wait_timer: 0,
        allowed_refs: vec![],
        concurrency: 1,
        secret_scope: SecretScope::Org { org: "acme".into() },
        oidc_subject: String::new(),
        privileged_images: images,
        permit_k8s_overlay: false,
        require_reason: false,
    }
}

fn overlay() -> Json {
    Json::Object(vec![(
        "spec".into(),
        Json::Object(vec![("schedulerName".into(), Json::Str("x".into()))]),
    )])
}

fn asks(run_as_root: bool, privileged: bool) -> StepSecurity {
    StepSecurity { run_as_root, add_capabilities: vec![], privileged }
}

#[test]
fn k8s_overlay_none_is_always_admitted_as_none() {
    assert_eq!(admit_k8s_overlay(None, None).unwrap(), None);
}

#[test]
fn k8s_overlay_rejected_without_environment() {
    let err = admit_k8s_overlay(None, Some(&overlay())).unwrap_err();
    assert!(err.join("; ").contains("requires a target Environment that permits"));
}

#[test]
fn k8s_overlay_rejected_when_environment_does_not_permit() {
    let err = admit_k8s_overlay(Some(&rules(vec![])), Some(&overlay())).unwrap_err();
    assert!(err.join("; ").contains("permit_k8s_overlay"));
}

#[test]
fn k8s_overlay_admitted_when_environment_permits() {
    let mut p = rules(vec![]);
    p.permit_k8s_overlay = true;
    assert_eq!(admit_k8s_overlay(Some(&p), Some(&overlay())).unwrap(), Some(overlay()));
}

#[test]
fn no_request_is_baseline() {
    let g = admit_step_grants(None, None).unwrap();
    assert!(!g.run_as_root && !g.privileged && g.add_capabilities.is_empty());
}

#[test]
fn run_as_root_is_self_service_without_environment() {
    let g = admit_step_grants(None, Some(&asks(true, false))).unwrap();
    assert!(g.run_as_root);
}

#[test]
fn governed_grant_without_environment_is_rejected() {
    let err = admit_step_grants(None, Some(&asks(false, true))).unwrap_err();
    assert!(err.iter().any(|v| v.contains("require a target Environment")));
}

#[test]
fn governed_grant_admitted_for_whitelisted_digest() {
    let p = rules(vec![ImageGrant {
        image_digest: "sha256:aaaa".into(),
        privileged: true,
        capabilities: vec![],
    }]);
    let ruling = GrantRuling::Admitted(AdmittedGrants {
        run_as_root: false,
        add_capabilities: vec![],
        privileged: p.privileged_images[0].privileged,
    });
    let g = admit_step_grants(Some(&ruling), Some(&asks(false, true))).unwrap();
    assert!(g.privileged);
}

#[test]
fn a_ruling_that_rejects_is_handed_on() {
    let ruling = GrantRuling::Rejected(vec!["image is not whitelisted".into()]);
    let err = admit_step_grants(Some(&ruling), Some(&asks(false, true))).unwrap_err();
    assert_eq!(err, vec!["image is not whitelisted".to_string()]);
}

fn event(fork_pr: bool, protection_ref: Option<&str>) -> Event {
    Event {
        trigger: Trigger::Push { git_ref: "refs/heads/main".into(), after: "abc".into() },
        repo: Some(RepoRef { owner: "acme".into(), name: "web".into() }),
        kind: "push".into(),
        actor: Some("ada".into()),
        protection_ref: protection_ref.map(|s| s.to_string()),
        trigger_title: None,
        fork_pr,
        context: Json::Null,
    }
}

#[test]
fn a_fork_is_locked_out_and_downgraded() {
    let p = fork_policy(&event(true, None), "prod");
    assert!(p.secrets_locked_out);
    assert_eq!(p.oidc_env, "none");
    let q = fork_policy(&event(false, None), "prod");
    assert!(!q.secrets_locked_out);
    assert_eq!(q.oidc_env, "prod");
}

#[test]
fn governance_follows_the_environment_reference() {
    let ev = event(true, None);
    assert!(matches!(
        resolve_governance(&None, Ok(None), &ev),
        Ok(RunGovernance::Ungoverned)
    ));
    let g = resolve_governance(&Some("prod".into()), Ok(Some(rules(vec![]))), &ev).unwrap();
    assert!(g.locked_out());
    assert!(g.protection().is_some());
    assert!(matches!(
        resolve_governance(&Some("prod".into()), Err("store down".into()), &ev),
        Err(TriggerError::Pipeline(m)) if m == "store down"
    ));
}

#[test]
fn a_disallowed_ref_is_skipped_and_a_missing_reason_is_an_error() {
    let ev = event(false, Some("refs/heads/main"));
    let g = resolve_governance(&Some("prod".into()), Ok(Some(rules(vec![]))), &ev).unwrap();
    assert!(admit_run(&g, &ev, true, Ok(())).unwrap());
    assert!(!admit_run(&g, &ev, false, Ok(())).unwrap());
    match admit_run(&g, &ev, true, Err(vec!["a reason is required".into(), "say why".into()])) {
        Err(TriggerError::ReasonRequired(m)) => assert_eq!(m, "a reason is required; say why"),
        other => panic!("{other:?}"),
    }
    assert!(admit_run(&RunGovernance::Ungoverned, &ev, false, Err(vec![])).unwrap());
}
