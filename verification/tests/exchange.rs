//! A login with the provider and the sessions that follow.

use scarab_server::authz::{Principal, Role, SESSION_TTL_MS};
use scarab_server::errors::ApiError;
use scarab_server::exchange::{Exchange, ExchangeAction, OAuthAuthenticator, Reply};
use scarab_server::json::Json;
use scarab_server::log_tail::LogTailer;
use scarab_server::model::StepSpec;
use scarab_server::oauth::{LoginFlow, OAuthConfig};
use scarab_server::oidc::{Claims, IdentityError, Rs256Issuer};
use scarab_server::persist::DeployContext;
use scarab_server::sessions::{finish_login, logout, oauth_callback};
use scarab_server::step_secrets::{launch, mint_oidc_token};

fn obj(members: Vec<(&str, Json)>) -> Json {
    Json::Object(members.into_iter().map(|(k, v)| (k.to_string(), v)).collect())
}

fn text(s: &str) -> Json {
    Json::Str(s.to_string())
}

fn body(json: Json) -> Reply {
    Reply::Body(json)
}

fn provider(issuer: Option<&str>) -> OAuthAuthenticator {
    OAuthAuthenticator::new(OAuthConfig {
        client_id: "cid".into(),
        client_secret: "sekret".into(),
        authorize_url: "https://idp.example/authorize".into(),
        token_url: "https://idp.example/token".into(),
        userinfo_url: "https://idp.example/userinfo".into(),
        oidc_issuer: issuer.map(|i| i.to_string()),
        scopes: String::new(),
        owners: vec!["ada".into()],
    })
}

fn issuance(a: ExchangeAction) -> String {
    match a {
        ExchangeAction::Done(Err(IdentityError::Issuance(m))) => m,
        other => panic!("{other:?}"),
    }
}

#[test]
fn a_forge_login_asks_the_userinfo_endpoint() {
    let mut auth = provider(None);
    let (mut x, a) = auth.exchange("the code", Some("ver"), None);
    match a {
        ExchangeAction::PostToken { url, form } => {
            assert_eq!(url, "https://idp.example/token");
            assert_eq!(
                form,
                "grant_type=authorization_code&code=the%20code&client_id=cid&client_secret=sekret&code_verifier=ver"
            );
        }
        other => panic!("{other:?}"),
    }
    let a = x.step(&mut auth, body(obj(vec![("access_token", text("tok"))])));
    assert!(matches!(
        a,
        ExchangeAction::AskUserinfo { url, access } if url == "https://idp.example/userinfo" && access == "tok"
    ));
    match x.step(&mut auth, body(obj(vec![("login", text("ada")), ("name", text("Ada"))]))) {
        ExchangeAction::Done(Ok(p)) => {
            assert_eq!(p.subject, "ada");
            assert_eq!(p.display_name.as_deref(), Some("Ada"));
            assert_eq!(p.roles, vec![Role::Owner]);
        }
        other => panic!("{other:?}"),
    }
    let (mut x, _) = auth.authenticate("c");
    x.step(&mut auth, body(obj(vec![("access_token", text("tok"))])));
    let a = x.step(&mut auth, body(obj(vec![("id", Json::Number("7".into()))])));
    assert!(matches!(a, ExchangeAction::Done(Ok(p)) if p.subject == "7" && p.roles == vec![Role::Viewer]));
}

#[test]
fn each_endpoint_fails_in_its_own_words() {
    let mut auth = provider(None);
    let (mut x, _) = auth.authenticate("c");
    assert_eq!(issuance(x.step(&mut auth, Reply::Unreachable("down".into()))), "token endpoint: down");
    let (mut x, _) = auth.authenticate("c");
    assert_eq!(issuance(x.step(&mut auth, Reply::Unreadable("eof".into()))), "token body: eof");
    let (mut x, _) = auth.authenticate("c");
    assert!(matches!(
        x.step(&mut auth, Reply::Refused("401 Unauthorized".into())),
        ExchangeAction::Done(Err(IdentityError::AuthFailed))
    ));
    let asked = |auth: &mut OAuthAuthenticator| -> Exchange {
        let (mut x, _) = auth.authenticate("c");
        x.step(auth, body(obj(vec![("access_token", text("tok"))])));
        x
    };
    let mut x = asked(&mut auth);
    assert_eq!(issuance(x.step(&mut auth, Reply::Unreachable("down".into()))), "userinfo endpoint: down");
    let mut x = asked(&mut auth);
    assert_eq!(issuance(x.step(&mut auth, Reply::Unreadable("eof".into()))), "userinfo body: eof");
    assert!(matches!(
        x.step(&mut auth, body(Json::Null)),
        ExchangeAction::Done(Err(IdentityError::AuthFailed))
    ));
}

fn id_token(issuer: &Rs256Issuer, subject: &str) -> String {
    issuer
        .issue(&Claims {
            issuer: "https://idp.example".into(),
            subject: subject.into(),
            audience: "cid".into(),
            expires_at: 4_102_444_800,
            run_id: String::new(),
            attempt: String::new(),
            event: String::new(),
            git_ref: String::new(),
            sha: String::new(),
        })
        .unwrap()
}

#[test]
fn an_identity_token_is_checked_under_the_issuers_keys() {
    let issuer = Rs256Issuer::generate("https://idp.example").unwrap();
    let token = id_token(&issuer, "ada");
    let answer = || body(obj(vec![("id_token", text(&token)), ("access_token", text("tok"))]));
    let mut auth = provider(Some("https://idp.example/"));
    let (mut x, _) = auth.exchange("c", None, None);
    let a = x.step(&mut auth, answer());
    assert!(matches!(
        a,
        ExchangeAction::Fetch { url } if url == "https://idp.example/.well-known/openid-configuration"
    ));
    let a = x.step(&mut auth, body(obj(vec![("jwks_uri", text("https://idp.example/keys"))])));
    assert!(matches!(a, ExchangeAction::Fetch { url } if url == "https://idp.example/keys"));
    match x.step(&mut auth, body(issuer.jwks())) {
        ExchangeAction::ReadClaims { claims } => assert!(claims.contains("\"ada\"")),
        other => panic!("{other:?}"),
    }
    let a = x.step(&mut auth, body(obj(vec![("sub", text("ada"))])));
    assert!(matches!(a, ExchangeAction::Done(Ok(p)) if p.subject == "ada"));

    // The keys are known now, and a nonce that the token lacks fails the login.
    let (mut x, _) = auth.exchange("c", None, Some("n1"));
    assert!(matches!(x.step(&mut auth, answer()), ExchangeAction::ReadClaims { .. }));
    let a = x.step(&mut auth, body(obj(vec![("sub", text("ada")), ("nonce", text("other"))])));
    assert!(matches!(a, ExchangeAction::Done(Err(IdentityError::AuthFailed))));
}

#[test]
fn a_bad_identity_token_fails_the_login_outright() {
    let mut auth = provider(Some("https://idp.example"));
    let (mut x, _) = auth.exchange("c", None, None);
    let a = x.step(&mut auth, body(obj(vec![("id_token", text("junk")), ("access_token", text("tok"))])));
    assert!(matches!(a, ExchangeAction::Done(Err(IdentityError::AuthFailed))));

    let issuer = Rs256Issuer::generate("https://idp.example").unwrap();
    let token = id_token(&issuer, "ada");
    let fetched = |auth: &mut OAuthAuthenticator, reply: Reply| -> (Exchange, ExchangeAction) {
        let (mut x, _) = auth.exchange("c", None, None);
        x.step(auth, body(obj(vec![("id_token", text(&token))])));
        let a = x.step(auth, reply);
        (x, a)
    };
    let (_, a) = fetched(&mut auth, body(Json::Null));
    assert_eq!(issuance(a), "https://idp.example/.well-known/openid-configuration: no jwks_uri");
    let (_, a) = fetched(&mut auth, Reply::Refused("404 Not Found".into()));
    assert_eq!(issuance(a), "https://idp.example/.well-known/openid-configuration: HTTP 404 Not Found");
    let (mut x, _) = fetched(&mut auth, body(obj(vec![("jwks_uri", text("u"))])));
    assert_eq!(issuance(x.step(&mut auth, body(Json::Null))), "u: no RSA signing keys");
}

#[test]
fn a_callback_needs_the_browsers_own_state() {
    let flow = LoginFlow { state: "st".into(), verifier: "v".into(), nonce: "n".into() };
    let cookie = flow.to_cookie();
    let some = |s: &str| Some(s.to_string());
    let (code, back) = oauth_callback(true, some("c"), some("st"), Some(&cookie)).unwrap();
    assert_eq!((code.as_str(), back), ("c", flow));
    assert!(matches!(oauth_callback(false, some("c"), some("st"), Some(&cookie)), Err(ApiError::NotFound)));
    assert!(matches!(
        oauth_callback(true, None, some("st"), Some(&cookie)),
        Err(ApiError::BadRequest(m)) if m == "missing code/state"
    ));
    assert!(matches!(
        oauth_callback(true, some("c"), some("forged"), Some(&cookie)),
        Err(ApiError::Unauthorized)
    ));
    assert!(matches!(oauth_callback(true, some("c"), some("st"), None), Err(ApiError::Unauthorized)));
}

#[test]
fn a_login_ends_in_a_session_and_a_logout_revokes_it() {
    let p = Principal { subject: "ada".into(), display_name: None, roles: vec![] };
    let s = finish_login(Ok(p), 5).unwrap();
    assert_eq!((s.principal.subject.as_str(), s.expires_at), ("ada", 5 + SESSION_TTL_MS));
    assert!(matches!(finish_login(Err(IdentityError::Issuance("x".into())), 5), Err(ApiError::Unauthorized)));
    assert_eq!(logout(true, Some("Bearer t"), None).unwrap(), Some("t".to_string()));
    assert_eq!(logout(true, None, None).unwrap(), None);
    assert!(matches!(logout(false, None, None), Err(ApiError::NotFound)));
}

fn spec() -> StepSpec {
    StepSpec {
        image: "alpine".into(),
        command: vec![],
        env: vec![("A".into(), "1".into())],
        secrets: vec!["S".into()],
        run_as_root: false,
        add_capabilities: vec![],
        privileged: false,
        timeout_seconds: None,
        workspace_inputs: vec![],
        workspace_outputs: vec![],
        clone: None,
        build: None,
        artifacts: Json::Null,
        placement_profiles: vec![],
        resources: Json::Null,
        k8s_overlay: None,
        oidc_token: None,
        services: vec![],
        uses: vec![],
        matrix_values: Json::Null,
    }
}

#[test]
fn a_launch_adds_the_secrets_and_the_token() {
    let s = launch(spec(), Some("tok".into()), vec![("S".into(), "v".into())]);
    assert_eq!(s.env, vec![("A".to_string(), "1".to_string()), ("S".to_string(), "v".to_string())]);
    assert_eq!(s.oidc_token.as_deref(), Some("tok"));
    assert_eq!(launch(spec(), None, vec![]).oidc_token, None);
    let target = DeployContext {
        org: "acme".into(),
        project: "web".into(),
        environment: "prod".into(),
        git_ref: "refs/heads/main".into(),
        locked_out: false,
    };
    let c = mint_oidc_token("iss", Some("aud"), Some(&target), "sub".into(), "r", Some("a1".into()), 2_000).unwrap();
    assert_eq!((c.audience.as_str(), c.attempt.as_str(), c.expires_at), ("aud", "a1", 902));
    assert!(mint_oidc_token("iss", None, Some(&target), "sub".into(), "r", None, 0).is_none());
    assert!(mint_oidc_token("iss", Some("aud"), None, "sub".into(), "r", None, 0).is_none());
}

#[test]
fn services_and_sidecars_are_tailed_once() {
    let mut tails = LogTailer::new();
    let t = tails.ensure_service("r", "db", ("svc", "take-1"), 0).unwrap();
    assert_eq!(t.resource, "tail:r:service:db:take-1");
    assert_eq!((t.fence.step.as_str(), t.fence.attempt.as_str()), ("svc", "take-1"));
    assert!(tails.ensure_service("r", "db", ("svc", "take-1"), 1).is_none());
    let t = tails.ensure_sidecar("r", "s", Some("a1"), 2, 0).unwrap();
    assert_eq!(t.resource, "tail:r:s:sidecar-2:a1");
    assert_eq!(t.fence.step, "s::service-2");
    assert!(tails.ensure_sidecar("r", "s", None, 2, 0).is_none());
}
