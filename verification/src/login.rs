//! The exchange of an authorization code: what is sent to the provider, which key checks the
//! identity token, and the principal that follows.

use crate::authz::{Principal, PrincipalView, Role};
use crate::json::{self, Json, JsonView};
use crate::jwt;
use crate::oauth::{self, OAuthConfig};
use crate::oidc::{self, IdentityError, IdentityErrorView};
use crate::text;
use vstd::prelude::*;

verus! {

/// The body of the token request.
pub open spec fn token_form_of(cfg: OAuthConfig, code: Seq<char>, verifier: Option<Seq<char>>) -> Seq<char> {
    let base = "grant_type=authorization_code&code="@ + oauth::encoded(code) + "&client_id="@ + oauth::encoded(
        cfg.client_id@,
    ) + "&client_secret="@ + oauth::encoded(cfg.client_secret@);
    match verifier {
        Some(v) if v.len() > 0 => base + "&code_verifier="@ + oauth::encoded(v),
        _ => base,
    }
}

/// The body of the token request, with the verifier where the login has one.
pub fn token_form(cfg: &OAuthConfig, code: &str, verifier: Option<&str>) -> (r: String)
    ensures
        r@ == token_form_of(*cfg, code@, text::str_opt(verifier)),
{
    let mut s: String = "grant_type=authorization_code&code=".to_owned();
    s.append(oauth::percent_encode(code).as_str());
    s.append("&client_id=");
    s.append(oauth::percent_encode(cfg.client_id.as_str()).as_str());
    s.append("&client_secret=");
    s.append(oauth::percent_encode(cfg.client_secret.as_str()).as_str());
    match verifier {
        Some(v) => {
            if v.unicode_len() > 0 {
                s.append("&code_verifier=");
                s.append(oauth::percent_encode(v).as_str());
            }
        },
        None => {},
    }
    s
}

/// What follows from the token endpoint's answer.
#[derive(Debug)]
pub enum TokenAction {
    /// The identity token is the assertion and is to be verified for the issuer.
    Verify { id_token: String, issuer: String },
    /// The access token is to be presented at the userinfo endpoint.
    Userinfo { access: String },
    Fail(IdentityError),
}

/// The mathematical model of a [`TokenAction`].
pub enum TokenActionView {
    Verify { id_token: Seq<char>, issuer: Seq<char> },
    Userinfo { access: Seq<char> },
    Fail(IdentityErrorView),
}

impl View for TokenAction {
    type V = TokenActionView;

    open spec fn view(&self) -> TokenActionView {
        match self {
            TokenAction::Verify { id_token, issuer } => TokenActionView::Verify { id_token: id_token@, issuer: issuer@ },
            TokenAction::Userinfo { access } => TokenActionView::Userinfo { access: access@ },
            TokenAction::Fail(e) => TokenActionView::Fail(e@),
        }
    }
}

pub open spec fn text_at(j: JsonView, key: Seq<char>) -> Option<Seq<char>> {
    match j.member(key) {
        Some(v) => v.text(),
        None => None,
    }
}

fn text_member(j: &Json, key: &str) -> (r: Option<String>)
    ensures
        text::opt_view(r) == text_at(j@, key@),
{
    match j.get(key) {
        Some(v) => match v.as_str() {
            Some(s) => Some(s.to_owned()),
            None => None,
        },
        None => None,
    }
}

/// An identity token that decides a login: one that came where an issuer is configured.
pub open spec fn asserted(cfg: OAuthConfig, body: JsonView) -> Option<(Seq<char>, Seq<char>)> {
    match (cfg.oidc_issuer, text_at(body, "id_token"@)) {
        (Some(issuer), Some(t)) if t.len() > 0 => Some((t, issuer@)),
        _ => None,
    }
}

/// What follows from the token endpoint's answer.
pub open spec fn token_action(cfg: OAuthConfig, success: bool, body: JsonView) -> TokenActionView {
    if !success {
        TokenActionView::Fail(IdentityErrorView::AuthFailed)
    } else {
        match (asserted(cfg, body), text_at(body, "access_token"@)) {
            (Some((id_token, issuer)), _) => TokenActionView::Verify { id_token, issuer },
            (None, Some(access)) => TokenActionView::Userinfo { access },
            (None, None) => TokenActionView::Fail(IdentityErrorView::AuthFailed),
        }
    }
}

/// The token endpoint answered: whether with success, and the body where it could be read. Where
/// an issuer is configured and an identity token came, that token decides; the userinfo endpoint
/// is never a way round it.
pub fn on_token(cfg: &OAuthConfig, success: bool, body: &Json) -> (r: TokenAction)
    ensures
        r@ == token_action(*cfg, success, body@),
{
    if !success {
        return TokenAction::Fail(IdentityError::AuthFailed);
    }
    match &cfg.oidc_issuer {
        Some(issuer) => match text_member(body, "id_token") {
            Some(t) => {
                if t.as_str().unicode_len() > 0 {
                    return TokenAction::Verify { id_token: t, issuer: issuer.clone() };
                }
            },
            None => {},
        },
        None => {},
    }
    match text_member(body, "access_token") {
        Some(access) => TokenAction::Userinfo { access },
        None => TokenAction::Fail(IdentityError::AuthFailed),
    }
}

/// The email that the provider asserts to be verified.
pub open spec fn verified_email_of(claims: JsonView) -> Option<Seq<char>> {
    let verified = match claims.member("email_verified"@) {
        Some(JsonView::Bool(b)) => b,
        Some(JsonView::Str(s)) => text::eq_ignoring_ascii_case(s, "true"@),
        _ => false,
    };
    if verified {
        match text_at(claims, "email"@) {
            Some(e) if e.len() > 0 => Some(e),
            _ => None,
        }
    } else {
        None
    }
}

/// The `email` claim, where the provider asserts that it is verified.
pub fn verified_email(claims: &Json) -> (r: Option<String>)
    ensures
        text::opt_view(r) == verified_email_of(claims@),
{
    let verified: bool = match claims.get("email_verified") {
        Some(v) => match v {
            Json::Bool(b) => *b,
            Json::Str(s) => text::eq_ignore_ascii_case(s.as_str(), "true"),
            _ => false,
        },
        None => false,
    };
    if !verified {
        return None;
    }
    match text_member(claims, "email") {
        Some(e) => if e.as_str().unicode_len() > 0 {
            Some(e)
        } else {
            None
        },
        None => None,
    }
}

/// A configured owner names the subject, or the verified email in whatever letter case.
pub open spec fn owner_named(owners: Seq<Seq<char>>, subject: Seq<char>, email: Option<Seq<char>>) -> bool {
    exists|i: int|
        0 <= i < owners.len() && (#[trigger] owners[i] == subject || (email matches Some(e) && text::eq_ignoring_ascii_case(
            owners[i],
            e,
        )))
}

/// Whether a configured owner matches the subject or the verified email.
pub fn is_owner(cfg: &OAuthConfig, subject: &str, email: &Option<String>) -> (r: bool)
    ensures
        r == owner_named(text::views(cfg.owners@), subject@, text::opt_view(*email)),
{
    let ghost all = text::views(cfg.owners@);
    let mut i: usize = 0;
    while i < cfg.owners.len()
        invariant
            i <= cfg.owners@.len(),
            all == text::views(cfg.owners@),
            forall|j: int|
                0 <= j < i ==> !(#[trigger] all[j] == subject@ || (text::opt_view(*email) matches Some(e)
                    && text::eq_ignoring_ascii_case(all[j], e))),
        decreases cfg.owners@.len() - i,
    {
        assert(all[i as int] == cfg.owners@[i as int]@);
        if text::str_eq(cfg.owners[i].as_str(), subject) {
            return true;
        }
        match email {
            Some(e) => {
                if text::eq_ignore_ascii_case(cfg.owners[i].as_str(), e.as_str()) {
                    return true;
                }
            },
            None => {},
        }
        i = i + 1;
    }
    false
}

/// The subject that claims name: the text `sub`, or else the forge's text `login`, or else the
/// number `id` as its text.
pub open spec fn subject_of(claims: JsonView) -> Option<Seq<char>> {
    match text_at(claims, "sub"@) {
        Some(s) => Some(s),
        None => match text_at(claims, "login"@) {
            Some(s) => Some(s),
            None => match claims.member("id"@) {
                Some(JsonView::Number(n)) => Some(n),
                _ => None,
            },
        },
    }
}

/// The principal that claims map to.
pub open spec fn principal_of(cfg: OAuthConfig, claims: JsonView) -> Option<PrincipalView> {
    match subject_of(claims) {
        None => None,
        Some(subject) => Some(
            PrincipalView {
                subject,
                display_name: match text_at(claims, "name"@) {
                    Some(n) if n.len() > 0 => Some(n),
                    _ => None,
                },
                roles: seq![
                    if owner_named(text::views(cfg.owners@), subject, verified_email_of(claims)) {
                        Role::Owner
                    } else {
                        Role::Viewer
                    },
                ],
            },
        ),
    }
}

pub open spec fn outcome_view(r: Result<Principal, IdentityError>) -> Result<PrincipalView, IdentityErrorView> {
    match r {
        Ok(p) => Ok(p@),
        Err(e) => Err(e@),
    }
}

/// Maps claims to a principal: configured owners get the owner's role, everyone else may look.
pub fn principal_from(cfg: &OAuthConfig, claims: &Json) -> (r: Result<Principal, IdentityError>)
    ensures
        outcome_view(r) == principal_outcome(*cfg, claims@),
{
    let subject = match text_member(claims, "sub") {
        Some(s) => s,
        None => match text_member(claims, "login") {
            Some(s) => s,
            None => match claims.get("id") {
                Some(Json::Number(n)) => n.clone(),
                _ => {
                    return Err(IdentityError::AuthFailed);
                },
            },
        },
    };
    let display_name: Option<String> = match text_member(claims, "name") {
        Some(n) => if n.as_str().unicode_len() > 0 {
            Some(n)
        } else {
            None
        },
        None => None,
    };
    let role = if is_owner(cfg, subject.as_str(), &verified_email(claims)) {
        Role::Owner
    } else {
        Role::Viewer
    };
    let mut roles: Vec<Role> = Vec::new();
    roles.push(role);
    assert(roles@ =~= seq![role]);
    Ok(Principal { subject, display_name, roles })
}

/// The principal that claims map to, or that the login failed.
pub open spec fn principal_outcome(cfg: OAuthConfig, claims: JsonView) -> Result<
    PrincipalView,
    IdentityErrorView,
> {
    match principal_of(cfg, claims) {
        Some(p) => Ok(p),
        None => Err(IdentityErrorView::AuthFailed),
    }
}

/// What the claims of a verified identity token come to: without the login's nonce they are
/// refused.
pub open spec fn claims_outcome(
    cfg: OAuthConfig,
    claims: JsonView,
    nonce: Option<Seq<char>>,
) -> Result<PrincipalView, IdentityErrorView> {
    if nonce matches Some(n) && n.len() > 0 && text_at(claims, "nonce"@) != Some(n) {
        Err(IdentityErrorView::AuthFailed)
    } else {
        principal_outcome(cfg, claims)
    }
}

/// The claims of a verified identity token: they must carry the login's nonce, where it has one.
pub fn on_claims(cfg: &OAuthConfig, claims: &Json, expected_nonce: Option<&str>) -> (r: Result<
    Principal,
    IdentityError,
>)
    ensures
        outcome_view(r) == claims_outcome(*cfg, claims@, text::str_opt(expected_nonce)),
{
    match expected_nonce {
        Some(n) => {
            if n.unicode_len() > 0 {
                let same: bool = match text_member(claims, "nonce") {
                    Some(got) => text::str_eq(got.as_str(), n),
                    None => false,
                };
                if !same {
                    return Err(IdentityError::AuthFailed);
                }
            }
        },
        None => {},
    }
    principal_from(cfg, claims)
}

/// Nobody becomes an owner by an email that the provider does not assert to be verified.
pub proof fn unverified_email_grants_nothing(cfg: OAuthConfig, claims: JsonView)
    requires
        !(claims.member("email_verified"@) matches Some(JsonView::Bool(true))),
        !(claims.member("email_verified"@) matches Some(JsonView::Str(s)) && text::eq_ignoring_ascii_case(s, "true"@)),
        principal_of(cfg, claims) matches Some(p) && p.roles[0] == Role::Owner,
    ensures
        text::views(cfg.owners@).contains(principal_of(cfg, claims)->0.subject),
{
    let subject = principal_of(cfg, claims)->0.subject;
    let owners = text::views(cfg.owners@);
    let i = choose|i: int|
        0 <= i < owners.len() && (#[trigger] owners[i] == subject || (verified_email_of(claims) matches Some(e)
            && text::eq_ignoring_ascii_case(owners[i], e)));
    assert(owners[i] == subject);
}

/// A signing key that an issuer publishes.
#[derive(Debug)]
pub struct PublishedKey {
    pub kid: String,
    pub n: String,
    pub e: String,
}

/// The mathematical model of a [`PublishedKey`].
pub struct KeyView {
    pub kid: Seq<char>,
    pub n: Seq<char>,
    pub e: Seq<char>,
}

impl View for PublishedKey {
    type V = KeyView;

    open spec fn view(&self) -> KeyView {
        KeyView { kid: self.kid@, n: self.n@, e: self.e@ }
    }
}

pub open spec fn key_views(v: Seq<PublishedKey>) -> Seq<KeyView> {
    v.map_values(|k: PublishedKey| k@)
}

/// The RSA signing key that an entry of a key set holds.
pub open spec fn rsa_key_of(entry: JsonView) -> Option<KeyView> {
    match (text_at(entry, "n"@), text_at(entry, "e"@)) {
        (Some(n), Some(e)) if text_at(entry, "kty"@) == Some("RSA"@) => Some(
            KeyView {
                kid: match text_at(entry, "kid"@) {
                    Some(k) => k,
                    None => Seq::empty(),
                },
                n,
                e,
            },
        ),
        _ => None,
    }
}

/// The index of the first key with an id.
pub open spec fn key_index(keys: Seq<KeyView>, kid: Seq<char>) -> Option<int>
    decreases keys.len(),
{
    if keys.len() == 0 {
        None
    } else {
        match key_index(keys.drop_last(), kid) {
            Some(i) => Some(i),
            None => if keys.last().kid == kid {
                Some(keys.len() - 1)
            } else {
                None
            },
        }
    }
}

/// `keys` with `k` in place of the key with its id, or behind the others.
pub open spec fn with_key(keys: Seq<KeyView>, k: KeyView) -> Seq<KeyView> {
    match key_index(keys, k.kid) {
        Some(i) => keys.update(i, k),
        None => keys.push(k),
    }
}

/// The RSA keys of a key set's entries, one per id, the last of those that share it.
pub open spec fn rsa_keys(entries: Seq<JsonView>) -> Seq<KeyView>
    decreases entries.len(),
{
    if entries.len() == 0 {
        Seq::empty()
    } else {
        match rsa_key_of(entries.last()) {
            Some(k) => with_key(rsa_keys(entries.drop_last()), k),
            None => rsa_keys(entries.drop_last()),
        }
    }
}

/// The entries of a key set.
pub open spec fn jwks_entries(jwks: JsonView) -> Seq<JsonView> {
    match jwks.member("keys"@) {
        Some(JsonView::Array(entries)) => entries,
        _ => Seq::empty(),
    }
}

fn find_key(keys: &Vec<PublishedKey>, kid: &str) -> (r: Option<usize>)
    ensures
        match r {
            Some(i) => i < keys@.len() && key_index(key_views(keys@), kid@) == Some(i as int),
            None => key_index(key_views(keys@), kid@) is None,
        },
{
    let ghost all = key_views(keys@);
    let mut i: usize = 0;
    while i < keys.len()
        invariant
            i <= keys@.len(),
            all == key_views(keys@),
            key_index(all.take(i as int), kid@) is None,
        decreases keys@.len() - i,
    {
        assert(all.take(i + 1).drop_last() =~= all.take(i as int));
        assert(all.take(i + 1).last() == keys@[i as int]@);
        if text::str_eq(keys[i].kid.as_str(), kid) {
            proof {
                first_key_stays(all, kid@, i + 1);
            }
            return Some(i);
        }
        i = i + 1;
    }
    assert(all.take(i as int) =~= all);
    None
}

proof fn first_key_stays(keys: Seq<KeyView>, kid: Seq<char>, i: int)
    requires
        0 <= i <= keys.len(),
        key_index(keys.take(i), kid) is Some,
    ensures
        key_index(keys, kid) == key_index(keys.take(i), kid),
    decreases keys.len(),
{
    if i == keys.len() {
        assert(keys.take(i) =~= keys);
    } else {
        assert(keys.drop_last().take(i) =~= keys.take(i));
        first_key_stays(keys.drop_last(), kid, i);
    }
}

fn put_key(keys: &mut Vec<PublishedKey>, k: PublishedKey)
    ensures
        key_views(final(keys)@) == with_key(key_views(old(keys)@), k@),
{
    let ghost all = key_views(keys@);
    let ghost kv = k@;
    match find_key(keys, k.kid.as_str()) {
        Some(i) => {
            keys.set(i, k);
            assert(key_views(keys@) =~= all.update(i as int, kv));
        },
        None => {
            keys.push(k);
            assert(key_views(keys@) =~= all.push(kv));
        },
    }
}

fn read_key(entry: &Json) -> (r: Option<PublishedKey>)
    ensures
        match r {
            Some(k) => rsa_key_of(entry@) == Some(k@),
            None => rsa_key_of(entry@) is None,
        },
{
    let n = match text_member(entry, "n") {
        Some(n) => n,
        None => {
            return None;
        },
    };
    let e = match text_member(entry, "e") {
        Some(e) => e,
        None => {
            return None;
        },
    };
    let rsa: bool = match text_member(entry, "kty") {
        Some(kty) => text::str_eq(kty.as_str(), "RSA"),
        None => false,
    };
    if !rsa {
        return None;
    }
    let kid = match text_member(entry, "kid") {
        Some(k) => k,
        None => {
            let k = String::new();
            assert(k@ =~= Seq::<char>::empty());
            k
        },
    };
    Some(PublishedKey { kid, n, e })
}

/// The RSA signing keys of a key set fetched from `uri`, or that it holds none.
pub fn read_jwks(uri: &str, jwks: &Json) -> (r: Result<Vec<PublishedKey>, IdentityError>)
    ensures
        match r {
            Ok(keys) => key_views(keys@) == rsa_keys(jwks_entries(jwks@)) && keys@.len() > 0,
            Err(e) => rsa_keys(jwks_entries(jwks@)).len() == 0 && e@ == IdentityErrorView::Issuance(
                uri@ + ": no RSA signing keys"@,
            ),
        },
{
    let ghost entries = jwks_entries(jwks@);
    let mut keys: Vec<PublishedKey> = Vec::new();
    assert(key_views(keys@) =~= Seq::<KeyView>::empty());
    match jwks.get("keys") {
        Some(v) => match v {
            Json::Array(items) => {
                let mut i: usize = 0;
                assert(entries =~= v@->Array_0);
                while i < items.len()
                    invariant
                        i <= items@.len(),
                        *v == Json::Array(*items),
                        entries == v@->Array_0,
                        entries.len() == items@.len(),
                        key_views(keys@) == rsa_keys(entries.take(i as int)),
                    decreases items@.len() - i,
                {
                    assert(entries.take(i + 1).drop_last() =~= entries.take(i as int));
                    assert(entries.take(i + 1).last() == items@[i as int]@);
                    match read_key(&items[i]) {
                        Some(k) => {
                            put_key(&mut keys, k);
                        },
                        None => {},
                    }
                    i = i + 1;
                }
                assert(entries.take(i as int) =~= entries);
            },
            _ => {},
        },
        None => {},
    }
    if keys.len() == 0 {
        let mut m: String = uri.to_owned();
        m.append(": no RSA signing keys");
        return Err(IdentityError::Issuance(m));
    }
    Ok(keys)
}

/// The discovery document's URL.
pub open spec fn discovery_url_of(issuer: Seq<char>) -> Seq<char> {
    text::trim_end(issuer, '/') + "/.well-known/openid-configuration"@
}

/// The URL of an issuer's discovery document.
pub fn discovery_url(issuer: &str) -> (r: String)
    ensures
        r@ == discovery_url_of(issuer@),
{
    let mut s = text::trim_end_char(issuer, '/');
    s.append("/.well-known/openid-configuration");
    s
}

/// Where an issuer's discovery document says its key set is.
pub fn jwks_uri(issuer: &str, discovery: &Json) -> (r: Result<String, IdentityError>)
    ensures
        match r {
            Ok(uri) => text_at(discovery@, "jwks_uri"@) == Some(uri@),
            Err(e) => text_at(discovery@, "jwks_uri"@) is None && e@ == IdentityErrorView::Issuance(
                discovery_url_of(issuer@) + ": no jwks_uri"@,
            ),
        },
{
    match text_member(discovery, "jwks_uri") {
        Some(uri) => Ok(uri),
        None => {
            let mut m = discovery_url(issuer);
            m.append(": no jwks_uri");
            Err(IdentityError::Issuance(m))
        },
    }
}

/// The key that checks a token with a key id; without one, the only key there is.
pub open spec fn key_for(keys: Seq<KeyView>, kid: Option<Seq<char>>) -> Option<KeyView> {
    match kid {
        Some(kid) => match key_index(keys, kid) {
            Some(i) => Some(keys[i]),
            None => None,
        },
        None => if keys.len() == 1 {
            Some(keys[0])
        } else {
            None
        },
    }
}

/// Where the key for a key id stands.
pub open spec fn key_at(keys: Seq<KeyView>, kid: Option<Seq<char>>) -> int {
    match kid {
        Some(kid) => key_index(keys, kid)->0,
        None => 0,
    }
}

/// The key that checks a token is one of the keys there are.
pub proof fn key_for_is_listed(keys: Seq<KeyView>, kid: Option<Seq<char>>)
    requires
        key_for(keys, kid) is Some,
    ensures
        0 <= key_at(keys, kid) < keys.len(),
        key_for(keys, kid) == Some(keys[key_at(keys, kid)]),
{
    if let Some(kid) = kid {
        key_index_in_bounds(keys, kid);
    }
}

proof fn key_index_in_bounds(keys: Seq<KeyView>, kid: Seq<char>)
    ensures
        key_index(keys, kid) matches Some(i) ==> 0 <= i < keys.len() && keys[i].kid == kid,
    decreases keys.len(),
{
    if keys.len() > 0 {
        key_index_in_bounds(keys.drop_last(), kid);
    }
}

/// What to do with an identity token before its signature is checked.
pub open spec fn key_choice(header: Option<(bool, Option<Seq<char>>)>, keys: Seq<KeyView>) -> Option<Option<KeyView>> {
    match header {
        Some((true, kid)) => Some(key_for(keys, kid)),
        _ => None,
    }
}

/// The cached key for a key id.
pub fn cached_jwk(keys: &Vec<PublishedKey>, kid: &Option<String>) -> (r: Option<usize>)
    ensures
        match r {
            Some(i) => i < keys@.len() && key_for(key_views(keys@), text::opt_view(*kid)) == Some(keys@[i as int]@),
            None => key_for(key_views(keys@), text::opt_view(*kid)) is None,
        },
{
    match kid {
        Some(kid) => find_key(keys, kid.as_str()),
        None => if keys.len() == 1 {
            Some(0)
        } else {
            None
        },
    }
}

/// What became of an identity token.
#[derive(Debug)]
pub enum Verified {
    /// The token's key is not cached: the issuer's key set is to be fetched.
    NeedKeys,
    Failed(IdentityError),
    /// The token was checked; its claims as JSON text.
    Claims(String),
}

/// The mathematical model of a [`Verified`].
pub enum VerifiedView {
    NeedKeys,
    Failed(IdentityErrorView),
    Claims(Seq<char>),
}

impl View for Verified {
    type V = VerifiedView;

    open spec fn view(&self) -> VerifiedView {
        match self {
            Verified::NeedKeys => VerifiedView::NeedKeys,
            Verified::Failed(e) => VerifiedView::Failed(e@),
            Verified::Claims(c) => VerifiedView::Claims(c@),
        }
    }
}

/// The claims of a token that a key signed, as the issuer, with or without its trailing slashes,
/// and for this client.
pub open spec fn claims_under(cfg: OAuthConfig, token: Seq<char>, issuer: Seq<char>, key: KeyView) -> Option<Seq<char>> {
    jwt::accepted_claims(
        token,
        key.n,
        key.e,
        Some(seq![issuer, text::trim_end(issuer, '/')]),
        cfg.client_id@,
    )
}

/// `v` can become of an identity token. A token whose key is known either passes with the claims
/// that the key and the expected issuer and audience accept, or fails the login.
pub open spec fn verified_as(
    cfg: OAuthConfig,
    token: Seq<char>,
    issuer: Seq<char>,
    keys: Seq<KeyView>,
    refreshed: bool,
    v: VerifiedView,
) -> bool {
    match key_choice(jwt::token_header(token), keys) {
        None => v == VerifiedView::Failed(IdentityErrorView::AuthFailed),
        Some(None) => v == if refreshed {
            VerifiedView::Failed(IdentityErrorView::AuthFailed)
        } else {
            VerifiedView::NeedKeys
        },
        Some(Some(key)) => match v {
            VerifiedView::Claims(claims) => claims_under(cfg, token, issuer, key) == Some(claims),
            VerifiedView::Failed(e) => e == IdentityErrorView::AuthFailed,
            VerifiedView::NeedKeys => false,
        },
    }
}

/// Checks an identity token: it must be signed with RS256 by a key of the issuer, whose set is
/// fetched once where the key is not among those cached, and it must be meant for this client,
/// come from the issuer and not have expired.
pub fn verify_id_token(cfg: &OAuthConfig, token: &str, issuer: &str, keys: &Vec<PublishedKey>, refreshed: bool) -> (r: Verified)
    ensures
        verified_as(*cfg, token@, issuer@, key_views(keys@), refreshed, r@),
{
    let header = jwt::decode_header(token);
    match choose_key(&header, keys) {
        KeyChoice::Refuse => Verified::Failed(IdentityError::AuthFailed),
        KeyChoice::Unknown => if refreshed {
            Verified::Failed(IdentityError::AuthFailed)
        } else {
            Verified::NeedKeys
        },
        KeyChoice::Use(i) => {
            let issuers = accepted_issuers(issuer);
            match jwt::decode_claims(
                token,
                keys[i].n.as_str(),
                keys[i].e.as_str(),
                &Some(issuers),
                cfg.client_id.as_str(),
            ) {
                Ok(claims) => Verified::Claims(claims),
                Err(_) => Verified::Failed(IdentityError::AuthFailed),
            }
        },
    }
}

/// The key an identity token is checked with.
#[derive(Debug, Clone, Copy, PartialEq, Eq, Structural)]
pub enum KeyChoice {
    /// The token has no readable header, or is not signed with RS256.
    Refuse,
    /// The key it names is not cached.
    Unknown,
    Use(usize),
}

/// Chooses the key for a token by its header: anything but RS256 is refused.
pub fn choose_key(header: &Option<(bool, Option<String>)>, keys: &Vec<PublishedKey>) -> (r: KeyChoice)
    ensures
        match r {
            KeyChoice::Refuse => key_choice(jwt::header_view(*header), key_views(keys@)) is None,
            KeyChoice::Unknown => key_choice(jwt::header_view(*header), key_views(keys@)) == Some(None::<KeyView>),
            KeyChoice::Use(i) => i < keys@.len() && key_choice(jwt::header_view(*header), key_views(keys@)) == Some(
                Some(keys@[i as int]@),
            ),
        },
{
    match header {
        None => KeyChoice::Refuse,
        Some((rs256, kid)) => if !*rs256 {
            KeyChoice::Refuse
        } else {
            match cached_jwk(keys, kid) {
                Some(i) => KeyChoice::Use(i),
                None => KeyChoice::Unknown,
            }
        },
    }
}

/// The issuers a token may name: the configured one, with or without slashes at its end.
pub fn accepted_issuers(issuer: &str) -> (r: Vec<String>)
    ensures
        text::views(r@) == seq![issuer@, text::trim_end(issuer@, '/')],
{
    let mut v: Vec<String> = Vec::new();
    v.push(issuer.to_owned());
    v.push(text::trim_end_char(issuer, '/'));
    assert(text::views(v@) =~= seq![issuer@, text::trim_end(issuer@, '/')]);
    v
}

/// The token request proves the code and the client, each of them encoded; the verifier is behind
/// them exactly where the login has one.
pub proof fn token_requests_carry_the_login(cfg: OAuthConfig, code: Seq<char>, verifier: Seq<char>)
    ensures
        token_form_of(cfg, code, None) == "grant_type=authorization_code&code="@ + oauth::encoded(code) + "&client_id="@
            + oauth::encoded(cfg.client_id@) + "&client_secret="@ + oauth::encoded(cfg.client_secret@),
        verifier.len() > 0 ==> token_form_of(cfg, code, Some(verifier)) == token_form_of(cfg, code, None)
            + "&code_verifier="@ + oauth::encoded(verifier),
        verifier.len() == 0 ==> token_form_of(cfg, code, Some(verifier)) == token_form_of(cfg, code, None),
{
}

/// A refused code fails the login. Otherwise an identity token is verified wherever one came and
/// an issuer is configured, and only where that is not so an access token is used; without either
/// the login fails.
pub proof fn token_answers_decide_the_login(cfg: OAuthConfig, body: JsonView)
    ensures
        token_action(cfg, false, body) == TokenActionView::Fail(IdentityErrorView::AuthFailed),
        ({
            let id_token = text_at(body, "id_token"@);
            let access = text_at(body, "access_token"@);
            if cfg.oidc_issuer is Some && id_token is Some && id_token->0.len() > 0 {
                token_action(cfg, true, body) == (TokenActionView::Verify {
                    id_token: id_token->0,
                    issuer: cfg.oidc_issuer->0@,
                })
            } else if access is Some {
                token_action(cfg, true, body) == (TokenActionView::Userinfo { access: access->0 })
            } else {
                token_action(cfg, true, body) == TokenActionView::Fail(IdentityErrorView::AuthFailed)
            }
        }),
{
}

/// Claims name their subject by `sub`; without it by `login`, and without either by a number
/// `id`. Claims that name none make no principal.
pub proof fn claims_name_their_subject(cfg: OAuthConfig, claims: JsonView)
    ensures
        text_at(claims, "sub"@) is Some ==> subject_of(claims) == text_at(claims, "sub"@),
        text_at(claims, "sub"@) is None && text_at(claims, "login"@) is Some ==> subject_of(claims) == text_at(
            claims,
            "login"@,
        ),
        text_at(claims, "sub"@) is None && text_at(claims, "login"@) is None ==> subject_of(claims) == (
        match claims.member("id"@) {
            Some(JsonView::Number(n)) => Some(n),
            _ => None,
        }),
        principal_outcome(cfg, claims) is Ok <==> subject_of(claims) is Some,
        principal_outcome(cfg, claims) matches Err(e) ==> e == IdentityErrorView::AuthFailed,
        principal_outcome(cfg, claims) matches Ok(p) ==> Some(p.subject) == subject_of(claims),
        principal_outcome(cfg, claims) matches Ok(p) ==> p.display_name == (match text_at(claims, "name"@) {
            Some(n) => if n.len() > 0 {
                Some(n)
            } else {
                None
            },
            None => None,
        }),
{
}

/// Whoever a configured owner names is an owner: by the subject, or by the email that the
/// provider says is verified. Everyone else may look and nothing more.
pub proof fn configured_owners_are_owners(cfg: OAuthConfig, claims: JsonView, i: int)
    requires
        principal_of(cfg, claims) is Some,
    ensures
        ({
            let p = principal_of(cfg, claims)->0;
            let email = text_at(claims, "email"@);
            let verified = claims.member("email_verified"@) == Some(JsonView::Bool(true));
            let by_subject = 0 <= i < cfg.owners@.len() && cfg.owners@[i]@ == p.subject;
            let by_email = 0 <= i < cfg.owners@.len() && verified && email is Some && email->0.len() > 0
                && text::eq_ignoring_ascii_case(cfg.owners@[i]@, email->0);
            &&& p.roles == seq![Role::Owner] || p.roles == seq![Role::Viewer]
            &&& by_subject || by_email ==> p.roles == seq![Role::Owner]
            &&& cfg.owners@.len() == 0 ==> p.roles == seq![Role::Viewer]
        }),
{
    let owners = text::views(cfg.owners@);
    if 0 <= i < cfg.owners@.len() {
        assert(owners[i] == cfg.owners@[i]@);
    }
}

/// Claims pass exactly where they carry the login's nonce, or the login has none, and where they
/// name a subject.
pub proof fn claims_pass_with_their_nonce(cfg: OAuthConfig, claims: JsonView, nonce: Seq<char>)
    ensures
        nonce.len() > 0 ==> (claims_outcome(cfg, claims, Some(nonce)) is Ok <==> text_at(claims, "nonce"@) == Some(nonce)
            && subject_of(claims) is Some),
        nonce.len() == 0 ==> claims_outcome(cfg, claims, Some(nonce)) == principal_outcome(cfg, claims),
        claims_outcome(cfg, claims, None) == principal_outcome(cfg, claims),
        claims_outcome(cfg, claims, Some(nonce)) is Ok ==> claims_outcome(cfg, claims, Some(nonce)) == principal_outcome(
            cfg,
            claims,
        ),
{
}

/// An entry of a key set is a key exactly where it says that it is an RSA key and has both of its
/// numbers.
pub proof fn rsa_entries_are_keys(entry: JsonView)
    ensures
        rsa_key_of(entry) is Some <==> text_at(entry, "kty"@) == Some("RSA"@) && text_at(entry, "n"@) is Some && text_at(
            entry,
            "e"@,
        ) is Some,
        rsa_key_of(entry) matches Some(k) ==> Some(k.n) == text_at(entry, "n"@) && Some(k.e) == text_at(entry, "e"@)
            && k.kid == (match text_at(entry, "kid"@) {
            Some(kid) => kid,
            None => Seq::<char>::empty(),
        }),
{
}

proof fn index_is_the_first(keys: Seq<KeyView>, kid: Seq<char>)
    ensures
        match key_index(keys, kid) {
            Some(i) => 0 <= i < keys.len() && keys[i].kid == kid && forall|j: int|
                0 <= j < i ==> (#[trigger] keys[j]).kid != kid,
            None => forall|j: int| 0 <= j < keys.len() ==> (#[trigger] keys[j]).kid != kid,
        },
    decreases keys.len(),
{
    if keys.len() > 0 {
        let rest = keys.drop_last();
        index_is_the_first(rest, kid);
        if key_index(rest, kid) is None {
            assert forall|j: int| 0 <= j < keys.len() - 1 implies (#[trigger] keys[j]).kid != kid by {
                assert(rest[j].kid != kid);
            }
        } else {
            let i = key_index(rest, kid)->0;
            assert forall|j: int| 0 <= j < i implies (#[trigger] keys[j]).kid != kid by {
                assert(rest[j].kid != kid);
            }
        }
    }
}

proof fn putting_a_key(keys: Seq<KeyView>, k: KeyView, kid: Seq<char>)
    ensures
        key_for(with_key(keys, k), Some(kid)) == if k.kid == kid {
            Some(k)
        } else {
            key_for(keys, Some(kid))
        },
{
    let after = with_key(keys, k);
    index_is_the_first(keys, kid);
    index_is_the_first(keys, k.kid);
    index_is_the_first(after, kid);
    match key_index(keys, k.kid) {
        Some(i) => {
            assert(after[i] == k);
            assert forall|j: int| 0 <= j < keys.len() && j != i implies #[trigger] after[j] == keys[j] by {}
            assert forall|j: int| 0 <= j < keys.len() implies (#[trigger] keys[j]).kid == after[j].kid by {}
        },
        None => {
            assert(after.last() == k);
            assert forall|j: int| 0 <= j < keys.len() implies (#[trigger] keys[j]) == after[j] by {}
        },
    }
}

/// Of the keys of a set that share an id the last one counts, wherever it stands.
pub proof fn the_last_key_of_an_id_counts(entries: Seq<JsonView>, i: int)
    requires
        0 <= i < entries.len(),
        rsa_key_of(entries[i]) is Some,
        forall|j: int|
            i < j < entries.len() && rsa_key_of(#[trigger] entries[j]) is Some ==> rsa_key_of(entries[j])->0.kid
                != rsa_key_of(entries[i])->0.kid,
    ensures
        key_for(rsa_keys(entries), Some(rsa_key_of(entries[i])->0.kid)) == rsa_key_of(entries[i]),
    decreases entries.len(),
{
    let kid = rsa_key_of(entries[i])->0.kid;
    let rest = entries.drop_last();
    if rsa_key_of(entries.last()) is Some {
        putting_a_key(rsa_keys(rest), rsa_key_of(entries.last())->0, kid);
    }
    if i < rest.len() {
        assert(rest[i] == entries[i]);
        assert forall|j: int| i < j < rest.len() && rsa_key_of(#[trigger] rest[j]) is Some implies rsa_key_of(
            rest[j],
        )->0.kid != kid by {
            assert(rest[j] == entries[j]);
        }
        the_last_key_of_an_id_counts(rest, i);
        assert(entries[entries.len() - 1] == entries.last());
    }
}

/// An id that no key of a set has finds none.
pub proof fn unpublished_ids_find_no_key(entries: Seq<JsonView>, kid: Seq<char>)
    requires
        forall|j: int|
            0 <= j < entries.len() && rsa_key_of(#[trigger] entries[j]) is Some ==> rsa_key_of(entries[j])->0.kid != kid,
    ensures
        key_for(rsa_keys(entries), Some(kid)) is None,
    decreases entries.len(),
{
    if entries.len() > 0 {
        let rest = entries.drop_last();
        assert forall|j: int| 0 <= j < rest.len() && rsa_key_of(#[trigger] rest[j]) is Some implies rsa_key_of(
            rest[j],
        )->0.kid != kid by {
            assert(rest[j] == entries[j]);
        }
        unpublished_ids_find_no_key(rest, kid);
        if rsa_key_of(entries.last()) is Some {
            assert(rsa_key_of(entries[entries.len() - 1]) is Some);
            putting_a_key(rsa_keys(rest), rsa_key_of(entries.last())->0, kid);
        }
    }
}

/// A token that names no key is checked with the only key there is, and with none where there is
/// more than one; a token that is not signed with RS256 is never checked with a key.
pub proof fn unnamed_keys_are_unambiguous(keys: Seq<KeyView>, kid: Option<Seq<char>>)
    ensures
        keys.len() == 1 ==> key_for(keys, None) == Some(keys[0]),
        keys.len() != 1 ==> key_for(keys, None) is None,
        key_choice(None, keys) is None,
        key_choice(Some((false, kid)), keys) is None,
        key_choice(Some((true, kid)), keys) == Some(key_for(keys, kid)),
{
}

/// A token whose key is not known makes the key set be fetched, and after that fails the login;
/// one whose key is known passes with nothing but the claims that this key accepts.
pub proof fn tokens_pass_only_under_their_key(
    cfg: OAuthConfig,
    token: Seq<char>,
    issuer: Seq<char>,
    keys: Seq<KeyView>,
    refreshed: bool,
    v: VerifiedView,
)
    requires
        verified_as(cfg, token, issuer, keys, refreshed, v),
    ensures
        v matches VerifiedView::Claims(claims) ==> {
            let header = jwt::token_header(token);
            &&& header is Some && (header->0).0
            &&& key_for(keys, (header->0).1) is Some
            &&& jwt::accepted_claims(
                token,
                key_for(keys, (header->0).1)->0.n,
                key_for(keys, (header->0).1)->0.e,
                Some(seq![issuer, text::trim_end(issuer, '/')]),
                cfg.client_id@,
            ) == Some(claims)
        },
        v is NeedKeys <==> !refreshed && jwt::token_header(token) is Some && (jwt::token_header(token)->0).0 && key_for(
            keys,
            (jwt::token_header(token)->0).1,
        ) is None,
        v matches VerifiedView::Failed(e) ==> e == IdentityErrorView::AuthFailed,
{
}

/// What an issuer of this kind publishes of a key is what a login reads of it.
pub proof fn published_keys_are_read_back(k: oidc::SigningKey)
    ensures
        rsa_key_of(oidc::jwk(k)) == Some(KeyView { kid: k.kid@, n: k.n@, e: k.e@ }),
{
    let members = oidc::jwk(k)->Object_0;
    reveal_strlit("kty");
    reveal_strlit("use");
    reveal_strlit("alg");
    reveal_strlit("kid");
    reveal_strlit("n");
    reveal_strlit("e");
    assert("kty"@[1] == 't' && "use"@[0] == 'u' && "alg"@[0] == 'a' && "kid"@[1] == 'i' && "kty"@[0] == 'k' && "kid"@[0]
        == 'k');
    assert("n"@[0] == 'n' && "e"@[0] == 'e');
    json::the_first_member_counts(members, "kty"@, 0);
    json::the_first_member_counts(members, "kid"@, 3);
    json::the_first_member_counts(members, "n"@, 4);
    json::the_first_member_counts(members, "e"@, 5);
}

/// An issuer's discovery document stands at its well-known place, whether or not the issuer's
/// address ends in a slash.
pub proof fn discovery_stands_at_its_well_known_place(issuer: Seq<char>)
    ensures
        discovery_url_of(issuer) == text::trim_end(issuer, '/') + "/.well-known/openid-configuration"@,
        discovery_url_of(issuer.push('/')) == discovery_url_of(issuer),
{
    assert(issuer.push('/').drop_last() =~= issuer);
}

} // verus!
