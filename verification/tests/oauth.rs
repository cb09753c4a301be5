//! The browser login and who it makes of a user.

use scarab_server::authz::Role;
use scarab_server::json::Json;
use scarab_server::login::{
    accepted_issuers, discovery_url, jwks_uri, on_claims, on_token, principal_from, read_jwks,
    token_form, TokenAction,
};
use scarab_server::oauth::{
    authorize_redirect, authorize_redirect_with, callback_uri, percent_encode, returned_flow,
    spent_state_cookie, state_cookie, LoginFlow, OAuthConfig,
};
use scarab_server::oidc::IdentityError;

fn obj(members: Vec<(&str, Json)>) -> Json {
    Json::Object(members.into_iter().map(|(k, v)| (k.to_string(), v)).collect())
}

fn text(s: &str) -> Json {
    Json::Str(s.to_string())
}

#[test]
fn pkce_challenge_matches_rfc7636_vector() {
    let flow = LoginFlow {
        state: "s".into(),
        verifier: "dBjftJeZ4CVP-mB92K27uhbUJU1p1r_wW1gFWFOEjXk".into(),
        nonce: "n".into(),
    };
    assert_eq!(flow.challenge(), "E9Melhoa2OwvFrEMTJguCHaoeK1t8URWbuGJSstw-cM");
}

#[test]
fn login_flow_round_trips_through_one_cookie() {
    let flow = LoginFlow::generate();
    assert_eq!(LoginFlow::from_cookie(&flow.to_cookie()), Some(flow.clone()));
    assert_eq!(flow.code_verifier(), Some(flow.verifier.as_str()));
    assert_eq!(flow.nonce(), Some(flow.nonce.as_str()));
    assert_eq!(flow.to_cookie().split('.').count(), 3);
    assert_ne!(flow.state, flow.verifier);
}

#[test]
fn any_flow_without_dots_round_trips() {
    let flow = LoginFlow { state: "a b=é".into(), verifier: "".into(), nonce: "/n?".into() };
    assert_eq!(LoginFlow::from_cookie(&flow.to_cookie()), Some(flow));
    let dotted = LoginFlow { state: "a".into(), verifier: "b.c".into(), nonce: "n".into() };
    assert_eq!(LoginFlow::from_cookie(&dotted.to_cookie()), None);
}

#[test]
fn only_a_number_names_a_user_by_id() {
    let numbered = obj(vec![("id", Json::Number("7".into()))]);
    assert_eq!(principal_from(&cfg(vec![]), &numbered).unwrap().subject, "7");
    let named = obj(vec![("login", text("ada")), ("id", Json::Number("7".into()))]);
    assert_eq!(principal_from(&cfg(vec![]), &named).unwrap().subject, "ada");
    for id in [Json::Null, text("7"), Json::Bool(true), Json::Array(vec![]), obj(vec![])] {
        let refused = principal_from(&cfg(vec![]), &obj(vec![("id", id)]));
        assert!(matches!(refused, Err(IdentityError::AuthFailed)));
    }
}

#[test]
fn state_only_cookie_is_a_pre_pkce_flow() {
    let flow = LoginFlow::from_cookie("just-a-state").expect("state-only accepted");
    assert_eq!(flow.state, "just-a-state");
    assert_eq!(flow.code_verifier(), None, "nothing to replay");
    assert_eq!(flow.nonce(), None, "nothing to check");
    assert_eq!(LoginFlow::from_cookie(""), None);
    assert_eq!(LoginFlow::from_cookie("a.b.c.d"), None);
}

fn cfg(owners: Vec<String>) -> OAuthConfig {
    OAuthConfig {
        client_id: "cid".into(),
        client_secret: "sekret".into(),
        authorize_url: "https://idp.example/authorize".into(),
        token_url: "https://idp.example/token".into(),
        userinfo_url: "https://idp.example/userinfo".into(),
        oidc_issuer: None,
        scopes: String::new(),
        owners,
    }
}

#[test]
fn owner_matches_subject_or_verified_email_only() {
    let c = cfg(vec!["ada@example.com".into()]);
    let verified = obj(vec![
        ("sub", text("8f3c-opaque")),
        ("email", text("ada@example.com")),
        ("email_verified", Json::Bool(true)),
    ]);
    assert_eq!(principal_from(&c, &verified).unwrap().roles, vec![Role::Owner]);
    assert_eq!(principal_from(&c, &verified).unwrap().subject, "8f3c-opaque");
    for unverified in [
        obj(vec![
            ("sub", text("s")),
            ("email", text("ada@example.com")),
            ("email_verified", Json::Bool(false)),
        ]),
        obj(vec![("sub", text("s")), ("email", text("ada@example.com"))]),
        obj(vec![("sub", text("s")), ("email_verified", Json::Bool(true))]),
    ] {
        assert_eq!(
            principal_from(&c, &unverified).unwrap().roles,
            vec![Role::Viewer],
            "unverified/absent email must not grant Owner: {unverified:?}"
        );
    }
}

#[test]
fn fresh_flows_differ() {
    let a = LoginFlow::generate();
    let b = LoginFlow::generate();
    assert_ne!(a.state, b.state);
    assert_ne!(a.verifier, b.verifier);
    assert_ne!(a.nonce, b.nonce);
}

#[test]
fn reserved_characters_are_encoded() {
    assert_eq!(percent_encode("a b&c=d/é"), "a%20b%26c%3Dd%2F%C3%A9");
    assert_eq!(percent_encode("AZaz09-_.~"), "AZaz09-_.~");
    assert_eq!(percent_encode("a b/~"), "a%20b%2F~");
    assert_eq!(percent_encode("%20"), "%2520");
}

#[test]
fn the_authorize_redirect_carries_the_flow() {
    let flow = LoginFlow { state: "st".into(), verifier: "v".into(), nonce: "no".into() };
    let url = authorize_redirect(&cfg(vec![]), "https://ci.example/v1/auth/callback", &flow);
    assert!(url.starts_with("https://idp.example/authorize?"));
    assert!(url.contains("client_id=cid"));
    assert!(url.contains("state=st"));
    assert!(url.contains(&format!("code_challenge={}", flow.challenge())));
    assert_eq!(
        url,
        authorize_redirect_with(
            &cfg(vec![]),
            "https://ci.example/v1/auth/callback",
            &flow,
            &flow.challenge()
        )
    );
    assert_eq!(callback_uri("https://ci.example/"), "https://ci.example/v1/auth/callback");
}

#[test]
fn a_flow_comes_back_only_with_its_own_state() {
    let flow = LoginFlow { state: "st".into(), verifier: "v".into(), nonce: "no".into() };
    let set = state_cookie(&flow);
    let pair = set.split(';').next().unwrap();
    let value = pair.strip_prefix("scarab_oauth_state=").unwrap();
    assert_eq!(returned_flow(Some(value), "st"), Some(flow));
    assert_eq!(returned_flow(Some(value), "other"), None);
    assert_eq!(returned_flow(None, "st"), None);
    assert!(spent_state_cookie().contains("Max-Age=0"));
}

#[test]
fn tokens_are_asked_for_with_the_verifier_and_read_by_kind() {
    let form = token_form(&cfg(vec![]), "the code", Some("ver"));
    assert!(form.contains("code=the%20code"));
    assert!(form.contains("code_verifier=ver"));
    let body = obj(vec![("access_token", text("tok"))]);
    assert!(matches!(on_token(&cfg(vec![]), true, &body), TokenAction::Userinfo { access } if access == "tok"));
    assert!(matches!(on_token(&cfg(vec![]), false, &body), TokenAction::Fail(_)));
    let mut oidc = cfg(vec![]);
    oidc.oidc_issuer = Some("https://idp.example".into());
    let with_id = obj(vec![("id_token", text("j.w.t"))]);
    assert!(matches!(
        on_token(&oidc, true, &with_id),
        TokenAction::Verify { id_token, issuer } if id_token == "j.w.t" && issuer == "https://idp.example"
    ));
}

#[test]
fn a_foreign_nonce_is_refused() {
    let claims = obj(vec![("sub", text("s")), ("nonce", text("mine"))]);
    assert!(on_claims(&cfg(vec![]), &claims, Some("mine")).is_ok());
    assert!(on_claims(&cfg(vec![]), &claims, Some("other")).is_err());
}

#[test]
fn key_sets_and_discovery_are_read() {
    assert_eq!(
        discovery_url("https://idp.example/"),
        "https://idp.example/.well-known/openid-configuration"
    );
    let disc = obj(vec![("issuer", text("https://idp.example")), ("jwks_uri", text("https://idp.example/keys"))]);
    assert_eq!(jwks_uri("https://idp.example", &disc).unwrap(), "https://idp.example/keys");
    let jwks = obj(vec![(
        "keys",
        Json::Array(vec![obj(vec![
            ("kty", text("RSA")),
            ("kid", text("k1")),
            ("n", text("AQAB")),
            ("e", text("AQAB")),
        ])]),
    )]);
    let keys = read_jwks("https://idp.example/keys", &jwks).unwrap();
    assert_eq!(keys.len(), 1);
    assert_eq!(keys[0].kid, "k1");
    assert!(!accepted_issuers("https://idp.example").is_empty());
}
