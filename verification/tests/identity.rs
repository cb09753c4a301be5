//! Tokens, errors, ids, and the small text and order functions.

use scarab_server::changeset::{components, PathProblem};
use scarab_server::errors::{rerun_outcome, secret_err, ApiError, DispatchError, ForgeError, RerunError, SecretError};
use scarab_server::ids::{connection_ids_of, new_run_id};
use scarab_server::json::{json_type_name, Json};
use scarab_server::login::{verify_id_token, PublishedKey, Verified};
use scarab_server::oauth::OAuthConfig;
use scarab_server::oidc::{verify, Claims, IdentityError, Rs256Issuer};
use scarab_server::order::sorted_set;
use scarab_server::text::{
    eq_ignore_ascii_case, i64_to_string, join_strings, split_char, str_le, strip_prefix, trim, trim_end_char,
    u64_to_string, zero_padded_u64,
};

fn claims(audience: &str) -> Claims {
    Claims {
        issuer: "https://ci.example".into(),
        subject: "sub".into(),
        audience: audience.into(),
        expires_at: 4_102_444_800,
        run_id: "r".into(),
        attempt: "a".into(),
        event: "push".into(),
        git_ref: "refs/heads/main".into(),
        sha: "abc".into(),
    }
}

fn published(issuer: &Rs256Issuer) -> Vec<PublishedKey> {
    match issuer.jwks().get("keys") {
        Some(Json::Array(keys)) => keys
            .iter()
            .map(|k| PublishedKey {
                kid: k.get("kid").unwrap().as_str().unwrap().into(),
                n: k.get("n").unwrap().as_str().unwrap().into(),
                e: k.get("e").unwrap().as_str().unwrap().into(),
            })
            .collect(),
        other => panic!("{other:?}"),
    }
}

#[test]
fn an_issued_token_verifies_under_the_published_key() {
    let mut issuer = Rs256Issuer::generate("https://ci.example").unwrap();
    let token = issuer.issue(&claims("aud")).unwrap();
    let keys = published(&issuer);
    assert_eq!(keys.len(), 1);
    // The exponent is the three bytes of 65537.
    assert_eq!(keys[0].e, "AQAB");
    assert_eq!(keys[0].n.len(), 342);
    assert!(verify(&token, &keys[0].n, &keys[0].e, "aud").is_ok());
    assert!(matches!(verify(&token, &keys[0].n, &keys[0].e, "other"), Err(IdentityError::Issuance(_))));
    assert!(verify("no.such.token", &keys[0].n, &keys[0].e, "aud").is_err());
    // Signing draws on no chance.
    assert_eq!(issuer.issue(&claims("aud")).unwrap(), token);

    issuer.rotate().unwrap();
    let rotated = published(&issuer);
    assert_eq!(rotated.len(), 2);
    assert!(rotated.iter().any(|k| k.kid == keys[0].kid));
    let fresh = issuer.issue(&claims("aud")).unwrap();
    assert_ne!(fresh, token);
    assert_eq!(issuer.issuer_url(), "https://ci.example");
    assert_eq!(
        issuer.discovery().get("issuer").and_then(|v| v.as_str()),
        Some("https://ci.example")
    );
}

fn cfg() -> OAuthConfig {
    OAuthConfig {
        client_id: "aud".into(),
        client_secret: "SECRET-REDACTED".into(),
        authorize_url: "https://ci.example/authorize".into(),
        token_url: "https://ci.example/token".into(),
        userinfo_url: String::new(),
        scopes: "openid".into(),
        owners: vec![],
        oidc_issuer: Some("https://ci.example".into()),
    }
}

#[test]
fn a_login_token_is_checked_against_the_providers_keys() {
    let issuer = Rs256Issuer::generate("https://ci.example").unwrap();
    let token = issuer.issue(&claims("aud")).unwrap();
    let keys = published(&issuer);
    match verify_id_token(&cfg(), &token, "https://ci.example", &keys, false) {
        Verified::Claims(text) => assert!(text.contains("\"sub\"")),
        other => panic!("{other:?}"),
    }
    assert!(matches!(
        verify_id_token(&cfg(), &token, "https://elsewhere.example", &keys, false),
        Verified::Failed(_)
    ));
    assert!(matches!(
        verify_id_token(&cfg(), &token, "https://ci.example", &vec![], false),
        Verified::NeedKeys
    ));
    assert!(matches!(
        verify_id_token(&cfg(), &token, "https://ci.example", &vec![], true),
        Verified::Failed(_)
    ));
}

#[test]
fn each_error_has_its_status() {
    let status = |e: ApiError| e.into_response().0;
    assert_eq!(status(ApiError::NotFound), 404);
    assert_eq!(status(ApiError::Unauthorized), 401);
    assert_eq!(status(ApiError::Forbidden), 403);
    assert_eq!(status(ApiError::BadRequest("m".into())), 400);
    assert_eq!(status(ApiError::Conflict("m".into())), 409);
    assert_eq!(status(ApiError::TooLarge("m".into())), 413);
    assert_eq!(status(ApiError::NotImplemented("m".into())), 501);
    assert_eq!(status(ApiError::Db("m".into())), 500);
    assert_eq!(rerun_outcome(Ok(())).unwrap(), 202);
    assert!(matches!(rerun_outcome(Err(RerunError::StepNotFound)), Err(ApiError::NotFound)));
    assert!(matches!(rerun_outcome(Err(RerunError::NotFailed("m".into()))), Err(ApiError::Conflict(_))));
    assert!(matches!(secret_err(SecretError::NotFound), ApiError::NotFound));
    assert!(matches!(
        ApiError::from_dispatch(DispatchError::PipelineNotFound("ci".into())),
        ApiError::NotFound | ApiError::BadRequest(_)
    ));
    assert_eq!(ForgeError::Other { rendered: "boom".into() }.into_message(), "boom");
}

#[test]
fn run_ids_are_fresh() {
    let a = new_run_id();
    assert_ne!(a, new_run_id());
    assert_eq!(a.len(), 36);
    assert_eq!(a.as_bytes()[14], b'7');
    assert_eq!(
        connection_ids_of("forgejo", "0123456789ab"),
        ("forgejo-01234567".to_string(), "forgejo-01234567-credential".to_string())
    );
}

#[test]
fn json_values_tell_their_kind() {
    assert_eq!(json_type_name(&Json::Bool(true)), "bool");
    let v = Json::Object(vec![("a".into(), Json::Array(vec![Json::Null]))]);
    assert_eq!(v.copy(), v);
    assert_eq!(v.get("b"), None);
}

#[test]
fn sets_are_sorted_and_distinct() {
    let v: Vec<String> = vec!["b".into(), "a".into(), "b".into()];
    assert_eq!(sorted_set(&v), vec!["a".to_string(), "b".to_string()]);
    assert!(str_le("a", "ab") && !str_le("b", "ab"));
}

#[test]
fn text_is_cut_and_joined() {
    assert_eq!(join_strings(&split_char("a,b,,c", ','), ","), "a,b,,c");
    assert_eq!(split_char("", ',').len(), 1);
    assert_eq!(strip_prefix("refs/heads/x", "refs/heads/"), Some("x".to_string()));
    assert_eq!(strip_prefix("x", "refs/"), None);
    assert_eq!(trim(" \t x y \n"), "x y");
    assert_eq!(trim_end_char("a//", '/'), "a");
    assert_eq!(u64_to_string(0), "0");
    assert_eq!(u64_to_string(u64::MAX), u64::MAX.to_string());
    assert_eq!(i64_to_string(i64::MIN), i64::MIN.to_string());
    assert_eq!(zero_padded_u64(42, 6), "000042");
    assert!(eq_ignore_ascii_case("AbC", "aBc"));
    assert!(!eq_ignore_ascii_case("a", "ab"));
}

#[test]
fn a_change_sets_path_is_relative_and_stays_inside() {
    let of = |s: &str| components(&s.as_bytes().to_vec());
    assert_eq!(of("a/b").unwrap(), vec!["a".to_string(), "b".to_string()]);
    assert_eq!(of("").unwrap_err(), PathProblem::Empty);
    assert_eq!(of("/a").unwrap_err(), PathProblem::NotRelative);
    assert_eq!(of("a/../b").unwrap_err(), PathProblem::ParentSegment);
    assert_eq!(components(&vec![0xff]).unwrap_err(), PathProblem::NonUtf8);
}
