//! Deliveries and commit statuses.

use scarab_server::connections::ForgeKind;
use scarab_server::errors::{ApiError, TriggerError};
use scarab_server::forge_status::{
    drain_forge_statuses, run_status_to_forge, DrainAction, DrainEvent, OutboxMessage, StatusState,
};
use scarab_server::json::Json;
use scarab_server::metrics::{forge_status_dead_lettered, forge_status_failures, Metrics};
use scarab_server::runs::RunStatus;
use scarab_server::webhooks::{
    forgejo_header, HookAction, HookEvent, HookReply, InstallationSync, Normalized, Webhook,
};

fn obj(members: Vec<(&str, Json)>) -> Json {
    Json::Object(members.into_iter().map(|(k, v)| (k.to_string(), v)).collect())
}

fn text(s: &str) -> Json {
    Json::Str(s.to_string())
}

#[test]
fn a_closed_endpoint_refuses_and_so_does_a_bad_signature() {
    let (_, a) = Webhook::begin(ForgeKind::GitHub, false, true, true, "d1".into());
    assert!(matches!(a, HookAction::Refuse(ApiError::Unauthorized)));
    let (mut w, a) = Webhook::begin(ForgeKind::GitHub, true, true, true, "d1".into());
    assert!(matches!(a, HookAction::Verify));
    assert!(matches!(w.step(HookEvent::Verified(false)), HookAction::Refuse(ApiError::Unauthorized)));
}

fn parsed(kind: ForgeKind, registry: bool, forge: bool, id: &str) -> (Webhook, HookAction) {
    let (mut w, _) = Webhook::begin(kind, true, registry, forge, id.into());
    assert!(matches!(w.step(HookEvent::Verified(true)), HookAction::Parse));
    let a = w.step(HookEvent::Parsed(Ok(())));
    (w, a)
}

#[test]
fn a_replay_is_acknowledged_and_not_processed() {
    let (mut w, a) = parsed(ForgeKind::GitHub, true, true, "d1");
    assert!(matches!(a, HookAction::Record { delivery_id } if delivery_id == "d1"));
    match w.step(HookEvent::Recorded(Ok(false))) {
        HookAction::Reply(r) => {
            let (status, body) = r.into_response();
            assert_eq!(status, 200);
            assert_eq!(body, obj(vec![("ignored", text("duplicate delivery"))]));
        }
        other => panic!("{other:?}"),
    }
    let (_, a) = parsed(ForgeKind::GitHub, true, true, "");
    assert!(matches!(a, HookAction::ReadInstallation));
    let (_, a) = parsed(ForgeKind::Forgejo, false, true, "d1");
    assert!(matches!(a, HookAction::Normalize));
}

#[test]
fn an_installation_registers_a_connection() {
    let (mut w, _) = parsed(ForgeKind::GitHub, true, true, "d1");
    assert!(matches!(w.step(HookEvent::Recorded(Ok(true))), HookAction::ReadInstallation));
    let sync = InstallationSync {
        installation_id: "42".into(),
        account: "acme".into(),
        added: 2,
        removed: 1,
    };
    match w.step(HookEvent::Installation(Some(sync))) {
        HookAction::Register { connection } => {
            assert_eq!(connection.id, "github-install-42");
            assert_eq!(connection.credential_ref, "github-app");
            assert_eq!(connection.base_url, "https://api.github.com");
        }
        other => panic!("{other:?}"),
    }
    assert!(matches!(
        w.step(HookEvent::Registered(Ok(()))),
        HookAction::ApplyInstallation { connection_id, account }
            if connection_id == "github-install-42" && account == "acme"
    ));
    match w.step(HookEvent::Applied(Ok(()))) {
        HookAction::Reply(r) => {
            let (_, body) = r.into_response();
            assert_eq!(
                body,
                obj(vec![(
                    "registered",
                    obj(vec![("added", Json::Number("2".into())), ("removed", Json::Number("1".into()))])
                )])
            );
        }
        other => panic!("{other:?}"),
    }
}

#[test]
fn an_event_starts_the_runs_it_matches() {
    let (mut w, _) = parsed(ForgeKind::Forgejo, false, true, "");
    let a = w.step(HookEvent::Normalized(Normalized::Event { trigger: "push".into() }));
    assert!(matches!(a, HookAction::Trigger));
    match w.step(HookEvent::Triggered(Ok(vec!["r1".into()]))) {
        HookAction::Reply(r) => {
            let (status, body) = r.into_response();
            assert_eq!(status, 202);
            assert_eq!(
                body,
                obj(vec![("run_ids", Json::Array(vec![text("r1")])), ("trigger", text("push"))])
            );
        }
        other => panic!("{other:?}"),
    }
    let (mut w, _) = parsed(ForgeKind::Forgejo, false, true, "");
    w.step(HookEvent::Normalized(Normalized::Event { trigger: "push".into() }));
    assert!(matches!(
        w.step(HookEvent::Triggered(Ok(vec![]))),
        HookAction::Reply(HookReply::Ignored(m)) if m == "no matching pipeline"
    ));
    let (mut w, _) = parsed(ForgeKind::Forgejo, false, true, "");
    w.step(HookEvent::Normalized(Normalized::Event { trigger: "push".into() }));
    assert!(matches!(
        w.step(HookEvent::Triggered(Err(TriggerError::Db("down".into())))),
        HookAction::Refuse(ApiError::Db(_))
    ));
    let (mut w, _) = parsed(ForgeKind::Forgejo, false, false, "");
    assert!(matches!(
        w.step(HookEvent::Normalized(Normalized::Event { trigger: "push".into() })),
        HookAction::Reply(HookReply::Ignored(m)) if m == "no forge configured"
    ));
    let (mut w, _) = parsed(ForgeKind::Forgejo, false, true, "");
    match w.step(HookEvent::Normalized(Normalized::Unsupported)) {
        HookAction::Reply(r) => assert_eq!(r.into_response().1, obj(vec![("ignored", Json::Bool(true))])),
        other => panic!("{other:?}"),
    }
}

#[test]
fn an_unreadable_body_is_a_bad_request() {
    let (mut w, _) = Webhook::begin(ForgeKind::GitHub, true, true, true, "d1".into());
    w.step(HookEvent::Verified(true));
    assert!(matches!(
        w.step(HookEvent::Parsed(Err("eof".into()))),
        HookAction::Refuse(ApiError::BadRequest(m)) if m == "invalid JSON: eof"
    ));
    assert_eq!(forgejo_header("", "gitea"), "gitea");
    assert_eq!(forgejo_header("own", "gitea"), "own");
}

fn trigger_doc() -> Json {
    obj(vec![(
        "trigger",
        obj(vec![(
            "event",
            obj(vec![
                ("repo", obj(vec![("owner", text("acme")), ("name", text("web"))])),
                ("sha", text("abc")),
            ]),
        )]),
    )])
}

fn message(id: i64, to: Option<RunStatus>) -> OutboxMessage {
    OutboxMessage { id, run: format!("run-{id}"), to }
}

#[test]
fn run_statuses_show_as_commit_statuses() {
    assert_eq!(run_status_to_forge(RunStatus::Suspended), StatusState::Pending);
    assert_eq!(run_status_to_forge(RunStatus::Succeeded), StatusState::Success);
    assert_eq!(run_status_to_forge(RunStatus::DeadLettered), StatusState::Failure);
    assert_eq!(run_status_to_forge(RunStatus::Cancelled), StatusState::Error);
}

#[test]
fn a_drain_posts_and_retires() {
    let mut m = Metrics::new();
    let (mut d, a) = drain_forge_statuses(
        "https://ci.example/".into(),
        3,
        vec![message(1, Some(RunStatus::Running)), message(2, None)],
    );
    assert!(matches!(a, DrainAction::ReadEvents { run } if run == "run-1"));
    match d.step(DrainEvent::Events(vec![Json::Null, trigger_doc()]), &mut m) {
        DrainAction::Post { repo, sha, status } => {
            assert_eq!((repo.owner.as_str(), repo.name.as_str(), sha.as_str()), ("acme", "web", "abc"));
            assert_eq!(status.context, "scarab");
            assert_eq!(status.target_url, "https://ci.example/runs/run-1");
            assert_eq!(status.state, StatusState::Pending);
        }
        other => panic!("{other:?}"),
    }
    assert!(matches!(d.step(DrainEvent::Posted(true), &mut m), DrainAction::Retire { id: 1 }));
    assert!(matches!(d.step(DrainEvent::Performed, &mut m), DrainAction::ReadEvents { .. }));
    let a = d.step(DrainEvent::Events(vec![trigger_doc()]), &mut m);
    assert!(matches!(a, DrainAction::Retire { id: 2 }));
    assert!(matches!(d.step(DrainEvent::Performed, &mut m), DrainAction::Done(Ok(1))));
}

#[test]
fn a_refused_status_stays_until_it_is_poison() {
    let mut m = Metrics::new();
    for (failures, poison) in [(2u32, false), (3u32, true)] {
        let (mut d, _) = drain_forge_statuses(
            "u".into(),
            3,
            vec![message(1, Some(RunStatus::Failed))],
        );
        d.step(DrainEvent::Events(vec![trigger_doc()]), &mut m);
        assert!(matches!(d.step(DrainEvent::Posted(false), &mut m), DrainAction::RecordFailure { id: 1 }));
        let a = d.step(DrainEvent::Failures(failures), &mut m);
        if poison {
            assert!(matches!(a, DrainAction::DeadLetter { id: 1 }));
            assert!(matches!(d.step(DrainEvent::Performed, &mut m), DrainAction::Done(Ok(0))));
        } else {
            assert!(matches!(a, DrainAction::Done(Ok(0))));
        }
    }
    assert_eq!(forge_status_failures(&m), 2);
    assert_eq!(forge_status_dead_lettered(&m), 1);
}

#[test]
fn a_store_failure_ends_the_drain() {
    let mut m = Metrics::new();
    let (mut d, _) = drain_forge_statuses("u".into(), 3, vec![message(1, None)]);
    assert!(matches!(
        d.step(DrainEvent::StoreFailed("down".into()), &mut m),
        DrainAction::Done(Err(e)) if e == "down"
    ));
}
