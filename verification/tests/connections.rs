//! Forge connections and the repos behind them.

use scarab_server::connections::{
    authorize_org_administer, connection_credential, create_connection, credential_is_orphaned,
    credential_present, delete_connection, deny_if_config_owned, forge_web_host, forge_webhook_url,
    list_connections, new_connection, web_repo_url, ConnectionFacts, ConnectionProjectDto,
    CreateConnectionRequest, DeleteConnectionQuery, ForgeConnection, ForgeKind,
};
use scarab_server::admission::SecretScope;
use scarab_server::errors::{ApiError, ForgeError};
use scarab_server::event::RepoRef;
use scarab_server::ids::mint_connection_ids;
use scarab_server::onboarding::{
    available_repos, bind_repo, bind_result, connection_preflight, connection_projects, deny_resync_if_config_owned,
    enumerated, governed, register_repo_webhook, repo_to_bind, resync, resync_result, BindRepoRequest,
    CapabilityRequirementDto, GrantedPermissionDto, PreflightRead, ResolvedRepo,
};

fn conn(id: &str, kind: ForgeKind, base: &str, cred: &str) -> ForgeConnection {
    ForgeConnection { id: id.into(), kind, base_url: base.into(), credential_ref: cred.into() }
}

fn repo(owner: &str, name: &str) -> RepoRef {
    RepoRef { owner: owner.into(), name: name.into() }
}

#[test]
fn web_hosts_follow_from_api_bases() {
    assert_eq!(forge_web_host(ForgeKind::GitHub, "https://api.github.com/"), "https://github.com");
    assert_eq!(forge_web_host(ForgeKind::GitHub, "https://ghe.acme/api/v3"), "https://ghe.acme");
    assert_eq!(forge_web_host(ForgeKind::GitHub, "https://ghe.acme"), "https://ghe.acme");
    assert_eq!(forge_web_host(ForgeKind::Forgejo, "https://codeberg.org//"), "https://codeberg.org");
    assert_eq!(
        web_repo_url(ForgeKind::GitHub, "https://api.github.com", "acme", "web"),
        "https://github.com/acme/web"
    );
    assert_eq!(
        forge_webhook_url("https://ci.example/", ForgeKind::Forgejo),
        "https://ci.example/webhooks/forgejo"
    );
    assert_eq!(ForgeKind::from_str_token("github"), Some(ForgeKind::GitHub));
    assert_eq!(ForgeKind::from_str_token("gitlab"), None);
}

#[test]
fn managing_connections_takes_an_org() {
    assert!(authorize_org_administer(true, &vec![]).is_ok());
    assert!(authorize_org_administer(false, &vec!["acme".into()]).is_ok());
    assert!(matches!(authorize_org_administer(false, &vec![]), Err(ApiError::Forbidden)));
    assert!(credential_present(true, None));
    assert!(credential_present(false, Some(true)));
    assert!(!credential_present(false, Some(false)));
    assert!(!credential_present(false, None));
    let (scope, key) = connection_credential(&conn("c", ForgeKind::GitHub, "b", "github-app"));
    assert!(matches!(scope, SecretScope::Org { org } if org == "_forge"));
    assert_eq!(key, "github-app");
}

fn project(org: &str, name: &str) -> ConnectionProjectDto {
    ConnectionProjectDto { org: org.into(), project: name.into(), owner: org.into(), name: name.into() }
}

#[test]
fn connections_are_listed_by_id_with_what_they_offer() {
    let facts = vec![
        ConnectionFacts {
            connection: conn("z", ForgeKind::GitHub, "https://api.github.com", "github-app"),
            projects: vec![project("b", "x"), project("a", "y"), project("a", "x")],
            credential_present: true,
            last_delivery_at: Some(5),
        },
        ConnectionFacts {
            connection: conn("a", ForgeKind::Forgejo, "https://codeberg.org", "a-credential"),
            projects: vec![],
            credential_present: false,
            last_delivery_at: None,
        },
    ];
    let out = list_connections(facts, true, &vec!["a".into()]);
    assert_eq!(out[0].id, "a");
    assert!(out[0].managed_by_config && !out[0].supports_resync && !out[0].supports_preflight);
    assert_eq!(out[1].web_url, "https://github.com");
    assert!(out[1].supports_resync && out[1].supports_preflight);
    let shown: Vec<(&str, &str)> =
        out[1].projects.iter().map(|p| (p.org.as_str(), p.project.as_str())).collect();
    assert_eq!(shown, vec![("a", "x"), ("a", "y"), ("b", "x")]);
}

fn create(kind: &str, base: &str, cred: &str) -> CreateConnectionRequest {
    CreateConnectionRequest { kind: kind.into(), base_url: base.into(), credential: cred.into() }
}

#[test]
fn a_connection_is_created_once_per_forge() {
    let made = new_connection(
        create(" forgejo ", " https://codeberg.org// ", " tok "),
        Ok(vec![]),
        "0123456789abcdef",
    )
    .unwrap();
    assert_eq!(made.connection.id, "forgejo-01234567");
    assert_eq!(made.connection.credential_ref, "forgejo-01234567-credential");
    assert_eq!(made.connection.base_url, "https://codeberg.org");
    assert_eq!(made.credential, "tok");
    let again = new_connection(
        create("forgejo", "https://codeberg.org", "tok"),
        Ok(vec![made.connection]),
        "fedcba9876543210",
    );
    match again {
        Err(ApiError::Conflict(m)) => {
            assert_eq!(m, "connection `forgejo-01234567` already serves https://codeberg.org")
        }
        other => panic!("{other:?}"),
    }
}

#[test]
fn requests_that_cannot_be_connected_say_why() {
    let refused = |r: CreateConnectionRequest| match create_connection(r, Ok(vec![])) {
        Err(ApiError::BadRequest(m)) => m,
        other => panic!("{other:?}"),
    };
    assert_eq!(refused(create("gitlab", "https://x", "t")), "unknown forge kind `gitlab`");
    assert!(refused(create("github", "https://x", "t")).starts_with("GitHub connections register"));
    assert!(refused(create("forgejo", "ftp://x", "t")).starts_with("base_url must be"));
    assert_eq!(refused(create("forgejo", "https://x", "  ")), "credential is required");
    match create_connection(create("forgejo", "https://x", "t"), Err("db down".into())) {
        Err(ApiError::BadRequest(m)) => assert_eq!(m, "db down"),
        other => panic!("{other:?}"),
    }
    let a = create_connection(create("forgejo", "https://x", "t"), Ok(vec![])).unwrap();
    let b = create_connection(create("forgejo", "https://x", "t"), Ok(vec![])).unwrap();
    assert_ne!(a.connection.id, b.connection.id);
    let (id, cred) = mint_connection_ids("forgejo");
    assert_eq!(id.len(), "forgejo-".len() + 8);
    assert_eq!(cred, format!("{id}-credential"));
}

#[test]
fn bound_repos_block_a_delete_and_shared_credentials_survive() {
    let bound = vec![repo("acme", "web"), repo("acme", "api")];
    match delete_connection("c1", &bound, &DeleteConnectionQuery { unbind_repos: false }) {
        Err(ApiError::Conflict(m)) => assert_eq!(
            m,
            "connection `c1` still serves 2 project(s): acme/web, acme/api — pass unbind_repos=true to remove them with it"
        ),
        other => panic!("{other:?}"),
    }
    assert!(delete_connection("c1", &bound, &DeleteConnectionQuery { unbind_repos: true }).is_ok());
    assert!(delete_connection("c1", &vec![], &DeleteConnectionQuery { unbind_repos: false }).is_ok());
    let rest = vec![conn("c2", ForgeKind::GitHub, "b", "github-app")];
    assert!(!credential_is_orphaned(&rest, "github-app"));
    assert!(credential_is_orphaned(&rest, "other"));
    assert!(deny_if_config_owned(false, "c1", "x").is_ok());
    match deny_if_config_owned(true, "c1", "the connection itself") {
        Err(ApiError::Conflict(m)) => assert!(m.contains("the connection itself is declared in the")),
        other => panic!("{other:?}"),
    }
    assert!(deny_resync_if_config_owned(true, "c1").is_err());
}

#[test]
fn a_resync_only_binds() {
    let known = vec![repo("acme", "web"), repo("acme", "old")];
    let plan = resync(vec![repo("acme", "web"), repo("acme", "new")], &known);
    assert_eq!(plan.confirmed, 1);
    assert_eq!(plan.bind, vec![repo("acme", "new")]);
    let r = resync_result(&plan);
    assert_eq!(r.bound, vec!["acme/new".to_string()]);
    assert_eq!(r.confirmed, 1);
    let offered = available_repos(vec![repo("b", "x"), repo("a", "z"), repo("a", "y")], &vec![repo("a", "z")]);
    let shown: Vec<(String, bool)> = offered.into_iter().map(|r| (r.name, r.bound)).collect();
    assert_eq!(shown, vec![("y".into(), false), ("z".into(), true), ("x".into(), false)]);
    let cannot = enumerated(
        ForgeKind::Forgejo,
        Err(ForgeError::Unsupported { what: "list".into(), rendered: "r".into() }),
    );
    match cannot {
        Err(ApiError::NotImplemented(m)) => assert_eq!(m, "forgejo cannot enumerate repos (list)"),
        other => panic!("{other:?}"),
    }
    assert!(matches!(
        enumerated(ForgeKind::GitHub, Err(ForgeError::Other { rendered: "boom".into() })),
        Err(ApiError::BadRequest(m)) if m == "boom"
    ));
}

fn bind(owner: &str, name: &str) -> BindRepoRequest {
    BindRepoRequest { owner: owner.into(), name: name.into(), register_webhook: true }
}

#[test]
fn a_repo_is_bound_to_one_connection() {
    assert_eq!(bind_repo("c1", &bind(" acme ", "web"), None).unwrap(), repo("acme", "web"));
    assert!(bind_repo("c1", &bind("acme", "web"), Some("c1".into())).is_ok());
    match bind_repo("c1", &bind("acme", "web"), Some("c2".into())) {
        Err(ApiError::Conflict(m)) => assert_eq!(m, "acme/web is already bound to connection `c2`"),
        other => panic!("{other:?}"),
    }
    assert!(matches!(bind_repo("c1", &bind("acme", " "), None), Err(ApiError::BadRequest(_))));
    assert_eq!(repo_to_bind(&bind("acme", " web")).unwrap(), repo("acme", "web"));
    assert!(matches!(repo_to_bind(&bind("", "web")), Err(ApiError::BadRequest(_))));
    let projects = connection_projects(vec![(repo("acme", "web"), Some(resolved("c1"))), (repo("acme", "gone"), None)]);
    assert_eq!(projects.len(), 1);
    assert_eq!((projects[0].owner.as_str(), projects[0].name.as_str()), ("acme", "web"));
    let ok = bind_result(repo("acme", "web"), Some(Ok(())));
    assert!(ok.webhook_registered && ok.webhook_error.is_none());
    let failed = bind_result(repo("acme", "web"), Some(Err("unreachable".into())));
    assert!(!failed.webhook_registered);
    assert_eq!(failed.webhook_error, Some("unreachable".to_string()));
    assert!(!bind_result(repo("acme", "web"), None).webhook_registered);
}

fn resolved(connection: &str) -> ResolvedRepo {
    let connection = ForgeConnection {
        id: connection.into(),
        kind: ForgeKind::Forgejo,
        base_url: "https://codeberg.org".into(),
        credential_ref: "cred".into(),
    };
    ResolvedRepo { connection, org: "acme".into(), project: "web".into() }
}

#[test]
fn only_governed_repos_get_webhooks() {
    assert!(matches!(governed("c1", None), Err(ApiError::NotFound)));
    assert!(matches!(governed("c1", Some(resolved("c2"))), Err(ApiError::NotFound)));
    let p = governed("c1", Some(resolved("c1"))).unwrap();
    assert!(register_repo_webhook(p, Ok(())).unwrap().webhook_registered);
    assert!(matches!(
        register_repo_webhook(resolved("c1"), Err("no".into())),
        Err(ApiError::BadRequest(m)) if m == "no"
    ));
}

fn required() -> Vec<CapabilityRequirementDto> {
    vec![CapabilityRequirementDto {
        kind: "event".into(),
        name: "push".into(),
        level: None,
        severity: "required".into(),
        why: "nothing starts".into(),
    }]
}

#[test]
fn a_preflight_that_could_not_look_is_unknown() {
    let c = conn("c1", ForgeKind::GitHub, "b", "github-app");
    let none = connection_preflight(&c, required(), PreflightRead::NoCredential);
    assert_eq!(none.status, "unknown");
    assert!(!none.checked);
    assert_eq!(
        none.unavailable_reason.as_deref(),
        Some("the credential `github-app` does not resolve, so the forge cannot be asked")
    );
    let blind = connection_preflight(
        &c,
        required(),
        PreflightRead::Failed(ForgeError::Unsupported { what: "x".into(), rendered: "y".into() }),
    );
    assert_eq!(
        blind.unavailable_reason.as_deref(),
        Some("github cannot report its granted permissions or subscribed events (x)")
    );
    let seen = connection_preflight(
        &c,
        required(),
        PreflightRead::Granted {
            permissions: vec![GrantedPermissionDto { name: "statuses".into(), level: "write".into() }],
            events: vec!["push".into()],
            missing: vec![],
            degraded: false,
        },
    );
    assert_eq!(seen.status, "ok");
    assert!(seen.checked && seen.unavailable_reason.is_none());
    assert_eq!(seen.required.len(), 1);
}
