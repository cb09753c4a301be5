//! Sessions, roles, scopes and bindings.

use scarab_server::authz::{
    administrable_orgs, admit_session, authenticate, authorize_scoped, candidate_orgs,
    consults_bindings, cookie_value, expired_session_cookies, login_response, me, mint_session,
    parse_role, role_name, run_scope, session_id, set_session_cookies, Action, AuthStep, AuthVia,
    BindingAnswer, Principal, Role, Scope, Session, SESSION_TTL_MS,
};
use scarab_server::bindings::{
    list_bindings, put_binding, Binding, BindingRequest, ImportAction, ImportBindings,
    ImportBindingsRequest, ImportEvent, Permissions,
};
use scarab_server::errors::ApiError;

fn ada(roles: Vec<Role>) -> Principal {
    Principal { subject: "ada".into(), display_name: Some("Ada".into()), roles }
}

fn session(csrf: &str) -> Session {
    Session { id: "sid".into(), principal: ada(vec![Role::Member]), expires_at: 10, csrf: csrf.into() }
}

#[test]
fn roles_go_by_their_words() {
    for r in [Role::Viewer, Role::Member, Role::Admin, Role::Owner] {
        assert_eq!(parse_role(role_name(r)).unwrap(), r);
    }
    match parse_role("root") {
        Err(ApiError::BadRequest(m)) => {
            assert_eq!(m, "unknown role `root` (want viewer|member|admin|owner)")
        }
        other => panic!("{other:?}"),
    }
}

#[test]
fn the_bearer_token_comes_before_the_cookie() {
    assert_eq!(
        session_id(Some("Bearer tok"), Some("scarab_session=c")),
        Some(("tok".to_string(), AuthVia::Bearer))
    );
    assert_eq!(
        session_id(Some("Basic x"), Some("a=b; scarab_session=c")),
        Some(("c".to_string(), AuthVia::Cookie))
    );
    assert_eq!(session_id(None, None), None);
    assert_eq!(cookie_value(Some(" x=1 ;  y=2"), "y"), Some("2".to_string()));
}

#[test]
fn without_a_session_store_everyone_is_the_synthetic_owner() {
    match authenticate(false, None, None) {
        AuthStep::Anonymous(p) => {
            assert_eq!(p.subject, "anonymous");
            assert_eq!(p.roles, vec![Role::Owner]);
        }
        other => panic!("{other:?}"),
    }
    assert!(matches!(authenticate(true, None, None), AuthStep::Refused(ApiError::Unauthorized)));
    assert!(matches!(
        authenticate(true, Some("Bearer t"), None),
        AuthStep::Lookup { id, via: AuthVia::Bearer } if id == "t"
    ));
}

#[test]
fn a_cookie_mutation_repeats_the_sessions_token() {
    let ok = admit_session(Some(session("c")), true, Action::Write, AuthVia::Cookie, Some("c"));
    assert_eq!(ok.unwrap().subject, "ada");
    let forged = admit_session(Some(session("c")), true, Action::Write, AuthVia::Cookie, None);
    assert!(matches!(forged, Err(ApiError::Forbidden)));
    let empty = admit_session(Some(session("")), true, Action::Write, AuthVia::Cookie, Some(""));
    assert!(matches!(empty, Err(ApiError::Forbidden)));
    assert!(admit_session(Some(session("c")), true, Action::Read, AuthVia::Cookie, None).is_ok());
    assert!(admit_session(Some(session("c")), true, Action::Write, AuthVia::Bearer, None).is_ok());
    let expired = admit_session(Some(session("c")), false, Action::Read, AuthVia::Bearer, None);
    assert!(matches!(expired, Err(ApiError::Unauthorized)));
    let missing = admit_session(None, true, Action::Read, AuthVia::Bearer, None);
    assert!(matches!(missing, Err(ApiError::Unauthorized)));
}

#[test]
fn bindings_are_asked_only_where_no_role_decides() {
    assert!(!consults_bindings(true, true, true));
    assert!(consults_bindings(false, true, true));
    assert!(!consults_bindings(false, false, true));
    assert!(authorize_scoped(ada(vec![]), true, BindingAnswer::NotConsulted).is_ok());
    assert!(matches!(
        authorize_scoped(ada(vec![]), false, BindingAnswer::NoRole),
        Err(ApiError::Forbidden)
    ));
    assert!(matches!(
        authorize_scoped(ada(vec![]), false, BindingAnswer::Role { allows: false }),
        Err(ApiError::Forbidden)
    ));
    assert!(authorize_scoped(ada(vec![]), false, BindingAnswer::Role { allows: true }).is_ok());
}

#[test]
fn sessions_live_a_day_and_their_cookies_are_set_and_expired() {
    let s = mint_session(ada(vec![]), 1_000);
    assert_eq!(s.expires_at, 1_000 + SESSION_TTL_MS);
    assert_eq!(SESSION_TTL_MS, 24 * 60 * 60 * 1000);
    assert_ne!(s.id, s.csrf);
    assert_eq!(s.id.len(), 36);
    let t = mint_session(ada(vec![]), 1_000);
    assert_ne!(s.id, t.id);
    let cookies = set_session_cookies(&session("c"));
    assert_eq!(
        cookies,
        vec![
            "scarab_session=sid; HttpOnly; Secure; Path=/; SameSite=Lax".to_string(),
            "scarab_csrf=c; Secure; Path=/; SameSite=Lax".to_string(),
        ]
    );
    assert_eq!(
        expired_session_cookies(),
        vec![
            "scarab_session=; HttpOnly; Secure; Path=/; SameSite=Lax; Max-Age=0".to_string(),
            "scarab_csrf=; Secure; Path=/; SameSite=Lax; Max-Age=0".to_string(),
        ]
    );
    let r = login_response(&session("c"));
    assert_eq!((r.session.as_str(), r.subject.as_str(), r.csrf.as_str()), ("sid", "ada", "c"));
}

#[test]
fn a_runs_tenant_is_its_scope() {
    assert!(run_scope(None).is_none());
    assert!(matches!(
        run_scope(Some(("acme".into(), "web".into()))),
        Some(Scope::Project { org, name }) if org == "acme" && name == "web"
    ));
}

#[test]
fn administrable_orgs_are_those_a_binding_allows() {
    let orgs = candidate_orgs(&vec!["b".into(), "a".into(), "b".into()]);
    assert_eq!(orgs, vec!["a".to_string(), "b".to_string()]);
    assert_eq!(
        administrable_orgs(orgs.clone(), false, Some(vec![false, true])),
        vec!["b".to_string()]
    );
    assert_eq!(administrable_orgs(orgs.clone(), true, None), orgs);
    assert!(administrable_orgs(orgs, false, None).is_empty());
    let m = me(ada(vec![Role::Admin]), true, vec!["a".into()]);
    assert_eq!(m.subject, "ada");
    assert_eq!(m.roles, vec!["Admin".to_string()]);
    assert!(m.can_administer);
}

fn request(subject: &str, role: &str, project: Option<&str>) -> BindingRequest {
    BindingRequest {
        subject: subject.into(),
        role: role.into(),
        project: project.map(|p| p.to_string()),
    }
}

#[test]
fn grants_name_a_subject_a_role_and_a_scope() {
    let b = put_binding("acme".into(), request("ada", "admin", Some("web"))).unwrap();
    assert_eq!(b.role, Role::Admin);
    assert!(matches!(b.scope, Scope::Project { ref name, .. } if name == "web"));
    let org = put_binding("acme".into(), request("ada", "owner", Some(""))).unwrap();
    assert!(matches!(org.scope, Scope::Org(ref o) if o == "acme"));
    assert!(matches!(
        put_binding("acme".into(), request("", "owner", None)),
        Err(ApiError::BadRequest(m)) if m == "subject is required"
    ));
    assert!(put_binding("acme".into(), request("ada", "king", None)).is_err());
    let listed = list_bindings(vec![Binding {
        subject: "ada".into(),
        scope: Scope::Org("acme".into()),
        role: Role::Viewer,
    }]);
    assert_eq!(listed[0].role, "viewer");
    assert_eq!(listed[0].project, "");
}

#[test]
fn imports_seed_what_the_forge_grants() {
    let (mut i, first) = ImportBindings::begin(
        "acme".into(),
        "web".into(),
        ImportBindingsRequest { subjects: vec!["ada".into(), "bob".into()] },
    );
    assert!(matches!(first, ImportAction::AskPermissions { subject } if subject == "ada"));
    let grant = i.step(ImportEvent::Permissions(Ok(Permissions { admin: false, write: true, read: true })));
    match grant {
        ImportAction::Grant { binding } => {
            assert_eq!(binding.role, Role::Member);
            assert!(matches!(binding.scope, Scope::Project { org, name } if org == "acme" && name == "web"));
        }
        other => panic!("{other:?}"),
    }
    let next = i.step(ImportEvent::Granted(Ok(())));
    assert!(matches!(next, ImportAction::AskPermissions { subject } if subject == "bob"));
    let done = i.step(ImportEvent::Permissions(Ok(Permissions { admin: false, write: false, read: false })));
    match done {
        ImportAction::Done(Ok(seeded)) => {
            assert_eq!(seeded.len(), 1);
            assert_eq!(seeded[0].subject, "ada");
            assert_eq!(seeded[0].role, "member");
            assert_eq!(seeded[0].project, "web");
        }
        other => panic!("{other:?}"),
    }
}

#[test]
fn a_failing_forge_stops_an_import() {
    let (mut i, _) = ImportBindings::begin(
        "acme".into(),
        "web".into(),
        ImportBindingsRequest { subjects: vec!["ada".into()] },
    );
    match i.step(ImportEvent::Permissions(Err("boom".into()))) {
        ImportAction::Done(Err(ApiError::BadRequest(m))) => {
            assert_eq!(m, "forge permissions for ada: boom")
        }
        other => panic!("{other:?}"),
    }
}
