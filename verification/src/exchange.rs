//! A login with the provider, from the authorization code to the principal.

use crate::authz::{Principal, PrincipalView};
use crate::json::{Json, JsonView};
use crate::jwt;
use crate::login::{self, KeyView, PublishedKey, TokenAction, TokenActionView, Verified, VerifiedView};
use crate::oauth::{self, LoginFlow, OAuthConfig};
use crate::oidc::{IdentityError, IdentityErrorView};
use crate::text;
use vstd::prelude::*;

verus! {

/// What came of a request, or of reading a text as JSON.
#[derive(Debug)]
pub enum Reply {
    /// The request failed, with the reason.
    Unreachable(String),
    /// The answer's status was no success; the status as text.
    Refused(String),
    /// The body was no JSON, with the reason.
    Unreadable(String),
    /// The body.
    Body(Json),
}

/// The mathematical model of a [`Reply`].
pub enum ReplyView {
    Unreachable(Seq<char>),
    Refused(Seq<char>),
    Unreadable(Seq<char>),
    Body(JsonView),
}

impl View for Reply {
    type V = ReplyView;

    open spec fn view(&self) -> ReplyView {
        match self {
            Reply::Unreachable(e) => ReplyView::Unreachable(e@),
            Reply::Refused(e) => ReplyView::Refused(e@),
            Reply::Unreadable(e) => ReplyView::Unreadable(e@),
            Reply::Body(json) => ReplyView::Body(json@),
        }
    }
}

/// What a login awaits.
#[derive(Debug)]
pub enum ExchangeStage {
    /// The token endpoint's answer.
    Token,
    /// The issuer's discovery document.
    Discovery { id_token: String, issuer: String },
    /// The issuer's key set, from `uri`.
    Keys { id_token: String, issuer: String, uri: String },
    /// The claims of the verified identity token.
    Claims,
    /// The userinfo endpoint's answer.
    Userinfo,
    Over,
}

/// The mathematical model of an [`ExchangeStage`].
pub enum StageView {
    Token,
    Discovery { id_token: Seq<char>, issuer: Seq<char> },
    Keys { id_token: Seq<char>, issuer: Seq<char>, uri: Seq<char> },
    Claims,
    Userinfo,
    Over,
}

impl View for ExchangeStage {
    type V = StageView;

    open spec fn view(&self) -> StageView {
        match self {
            ExchangeStage::Token => StageView::Token,
            ExchangeStage::Discovery { id_token, issuer } => StageView::Discovery {
                id_token: id_token@,
                issuer: issuer@,
            },
            ExchangeStage::Keys { id_token, issuer, uri } => StageView::Keys {
                id_token: id_token@,
                issuer: issuer@,
                uri: uri@,
            },
            ExchangeStage::Claims => StageView::Claims,
            ExchangeStage::Userinfo => StageView::Userinfo,
            ExchangeStage::Over => StageView::Over,
        }
    }
}

/// What a login asks for next.
#[derive(Debug)]
pub enum ExchangeAction {
    /// Post the form to the token endpoint.
    PostToken { url: String, form: String },
    /// Fetch a document.
    Fetch { url: String },
    /// Ask the userinfo endpoint with the access token.
    AskUserinfo { url: String, access: String },
    /// Read the claims of a verified token as JSON.
    ReadClaims { claims: String },
    Done(Result<Principal, IdentityError>),
}

/// The mathematical model of an [`ExchangeAction`].
pub enum ExchangeActionView {
    PostToken { url: Seq<char>, form: Seq<char> },
    Fetch { url: Seq<char> },
    AskUserinfo { url: Seq<char>, access: Seq<char> },
    ReadClaims { claims: Seq<char> },
    Done(Result<PrincipalView, IdentityErrorView>),
}

impl View for ExchangeAction {
    type V = ExchangeActionView;

    open spec fn view(&self) -> ExchangeActionView {
        match self {
            ExchangeAction::PostToken { url, form } => ExchangeActionView::PostToken { url: url@, form: form@ },
            ExchangeAction::Fetch { url } => ExchangeActionView::Fetch { url: url@ },
            ExchangeAction::AskUserinfo { url, access } => ExchangeActionView::AskUserinfo { url: url@, access: access@ },
            ExchangeAction::ReadClaims { claims } => ExchangeActionView::ReadClaims { claims: claims@ },
            ExchangeAction::Done(r) => ExchangeActionView::Done(login::outcome_view(*r)),
        }
    }
}

/// The login ends with an error.
pub open spec fn failed(e: IdentityErrorView) -> (StageView, ExchangeActionView) {
    (StageView::Over, ExchangeActionView::Done(Err(e)))
}

/// A fetched document, or why the login fails without it.
pub open spec fn fetched(url: Seq<char>, reply: ReplyView) -> Result<JsonView, IdentityErrorView> {
    match reply {
        ReplyView::Unreachable(e) => Err(IdentityErrorView::Issuance(url + ": "@ + e)),
        ReplyView::Refused(status) => Err(IdentityErrorView::Issuance(url + ": HTTP "@ + status)),
        ReplyView::Unreadable(e) => Err(IdentityErrorView::Issuance(url + ": "@ + e)),
        ReplyView::Body(json) => Ok(json),
    }
}

/// An endpoint's body, or why the login fails without it.
pub open spec fn answered(endpoint: Seq<char>, reply: ReplyView) -> Result<JsonView, IdentityErrorView> {
    match reply {
        ReplyView::Unreachable(e) => Err(IdentityErrorView::Issuance(endpoint + " endpoint: "@ + e)),
        ReplyView::Refused(status) => Err(IdentityErrorView::AuthFailed),
        ReplyView::Unreadable(e) => Err(IdentityErrorView::Issuance(endpoint + " body: "@ + e)),
        ReplyView::Body(json) => Ok(json),
    }
}

/// What follows from what became of an identity token.
pub open spec fn on_verified(id_token: Seq<char>, issuer: Seq<char>, v: VerifiedView) -> (StageView, ExchangeActionView) {
    match v {
        VerifiedView::NeedKeys => (
            StageView::Discovery { id_token, issuer },
            ExchangeActionView::Fetch { url: login::discovery_url_of(issuer) },
        ),
        VerifiedView::Failed(e) => failed(e),
        VerifiedView::Claims(claims) => (StageView::Claims, ExchangeActionView::ReadClaims { claims }),
    }
}

/// A state of a login: what it awaits, the keys known of the issuer, and the nonce to check.
pub struct ExchangeView {
    pub stage: StageView,
    pub keys: Seq<KeyView>,
    pub nonce: Option<Seq<char>>,
}

/// The identity token is checked and `to`, `action` follow.
pub open spec fn checked(
    cfg: OAuthConfig,
    id_token: Seq<char>,
    issuer: Seq<char>,
    keys: Seq<KeyView>,
    refreshed: bool,
    next: (StageView, ExchangeActionView),
) -> bool {
    exists|v: VerifiedView| #[trigger]
        login::verified_as(cfg, id_token, issuer, keys, refreshed, v) && next == on_verified(id_token, issuer, v)
}

/// A reply takes a login from one state to another, with the action that follows.
pub open spec fn stepped(
    cfg: OAuthConfig,
    from: ExchangeView,
    reply: ReplyView,
    to: ExchangeView,
    action: ExchangeActionView,
) -> bool {
    let next = (to.stage, action);
    &&& to.nonce == from.nonce
    &&& match from.stage {
        StageView::Token => to.keys == from.keys && match answered("token"@, reply) {
            Err(e) => next == failed(e),
            Ok(body) => match login::token_action(cfg, true, body) {
                TokenActionView::Fail(e) => next == failed(e),
                TokenActionView::Userinfo { access } => next == (
                    StageView::Userinfo,
                    ExchangeActionView::AskUserinfo { url: cfg.userinfo_url@, access },
                ),
                TokenActionView::Verify { id_token, issuer } => checked(cfg, id_token, issuer, from.keys, false, next),
            },
        },
        StageView::Discovery { id_token, issuer } => to.keys == from.keys && next == match fetched(
            login::discovery_url_of(issuer),
            reply,
        ) {
            Err(e) => failed(e),
            Ok(doc) => match login::text_at(doc, "jwks_uri"@) {
                None => failed(IdentityErrorView::Issuance(login::discovery_url_of(issuer) + ": no jwks_uri"@)),
                Some(uri) => (StageView::Keys { id_token, issuer, uri }, ExchangeActionView::Fetch { url: uri }),
            },
        },
        StageView::Keys { id_token, issuer, uri } => match fetched(uri, reply) {
            Err(e) => to.keys == from.keys && next == failed(e),
            Ok(jwks) => {
                let keys = login::rsa_keys(login::jwks_entries(jwks));
                if keys.len() == 0 {
                    to.keys == from.keys && next == failed(IdentityErrorView::Issuance(uri + ": no RSA signing keys"@))
                } else {
                    to.keys == keys && checked(cfg, id_token, issuer, keys, true, next)
                }
            },
        },
        StageView::Claims => to.keys == from.keys && next == match reply {
            ReplyView::Body(json) => (
                StageView::Over,
                ExchangeActionView::Done(login::claims_outcome(cfg, json, from.nonce)),
            ),
            _ => failed(IdentityErrorView::AuthFailed),
        },
        StageView::Userinfo => to.keys == from.keys && next == match answered("userinfo"@, reply) {
            Err(e) => failed(e),
            Ok(user) => (
                StageView::Over,
                ExchangeActionView::Done(login::principal_outcome(cfg, user)),
            ),
        },
        StageView::Over => to.keys == from.keys && next == failed(IdentityErrorView::AuthFailed),
    }
}

/// An identity token that came is never gone round: a login that has one never asks the userinfo
/// endpoint, whatever becomes of the token.
pub proof fn identity_tokens_are_never_bypassed(
    cfg: OAuthConfig,
    from: ExchangeView,
    reply: ReplyView,
    to: ExchangeView,
    action: ExchangeActionView,
)
    requires
        stepped(cfg, from, reply, to, action),
        from.stage is Token ==> (reply matches ReplyView::Body(json) ==> login::asserted(cfg, json) is Some),
        !(from.stage is Userinfo),
    ensures
        !(action is AskUserinfo),
        !(to.stage is Userinfo),
{
}

/// Claims are read only of a token that a published key of the issuer signed for this client.
pub proof fn only_accepted_tokens_are_read(
    cfg: OAuthConfig,
    from: ExchangeView,
    reply: ReplyView,
    to: ExchangeView,
    action: ExchangeActionView,
)
    requires
        stepped(cfg, from, reply, to, action),
        action is ReadClaims,
    ensures
        exists|token: Seq<char>, issuer: Seq<char>, i: int|
            0 <= i < to.keys.len() && #[trigger] login::claims_under(cfg, token, issuer, to.keys[i]) == Some(
                action->claims,
            ),
{
    let (token, issuer, refreshed) = match from.stage {
        StageView::Token => match login::token_action(cfg, true, reply->Body_0) {
            TokenActionView::Verify { id_token, issuer } => (id_token, issuer, false),
            _ => (Seq::<char>::empty(), Seq::<char>::empty(), false),
        },
        StageView::Keys { id_token, issuer, uri } => (id_token, issuer, true),
        _ => (Seq::<char>::empty(), Seq::<char>::empty(), false),
    };
    let v = choose|v: VerifiedView| #[trigger]
        login::verified_as(cfg, token, issuer, to.keys, refreshed, v) && (to.stage, action) == on_verified(token, issuer, v);
    assert(v == VerifiedView::Claims(action->claims));
    let header = jwt::token_header(token);
    let key = login::key_choice(header, to.keys)->0->0;
    let kid = match header {
        Some((_, kid)) => kid,
        None => None,
    };
    let i = login::key_at(to.keys, kid);
    login::key_for_is_listed(to.keys, kid);
    assert(to.keys[i] == key);
    assert(login::claims_under(cfg, token, issuer, to.keys[i]) == Some(action->claims));
}

/// A login with a nonce ends well only with an identity token that carries it.
pub proof fn logins_keep_their_nonce(
    cfg: OAuthConfig,
    from: ExchangeView,
    reply: ReplyView,
    to: ExchangeView,
    action: ExchangeActionView,
)
    requires
        stepped(cfg, from, reply, to, action),
        from.stage is Claims,
        from.nonce matches Some(n) && n.len() > 0,
        action matches ExchangeActionView::Done(r) && r is Ok,
    ensures
        reply matches ReplyView::Body(json) && login::text_at(json, "nonce"@) == from.nonce,
{
}

/// The provider's login, with the keys that are known of its issuer.
#[derive(Debug)]
pub struct OAuthAuthenticator {
    pub cfg: OAuthConfig,
    pub keys: Vec<PublishedKey>,
}

/// One login in progress.
#[derive(Debug)]
pub struct Exchange {
    pub stage: ExchangeStage,
    pub nonce: Option<String>,
}

impl Exchange {
    /// The state of the login, with the keys that `auth` knows.
    pub open spec fn of(self, auth: OAuthAuthenticator) -> ExchangeView {
        ExchangeView {
            stage: self.stage@,
            keys: login::key_views(auth.keys@),
            nonce: text::opt_view(self.nonce),
        }
    }
}

fn issuance(parts: (&str, &str, &str)) -> (r: IdentityError)
    ensures
        r@ == IdentityErrorView::Issuance(parts.0@ + parts.1@ + parts.2@),
{
    let mut m: String = parts.0.to_owned();
    m.append(parts.1);
    m.append(parts.2);
    IdentityError::Issuance(m)
}

fn fetched_document(url: &str, reply: Reply) -> (r: Result<Json, IdentityError>)
    ensures
        match r {
            Ok(j) => fetched(url@, reply@) == Ok::<JsonView, IdentityErrorView>(j@),
            Err(e) => fetched(url@, reply@) == Err::<JsonView, IdentityErrorView>(e@),
        },
{
    match reply {
        Reply::Unreachable(e) => Err(issuance((url, ": ", e.as_str()))),
        Reply::Refused(status) => Err(issuance((url, ": HTTP ", status.as_str()))),
        Reply::Unreadable(e) => Err(issuance((url, ": ", e.as_str()))),
        Reply::Body(json) => Ok(json),
    }
}

fn answered_body(endpoint: &str, reply: Reply) -> (r: Result<Json, IdentityError>)
    ensures
        match r {
            Ok(b) => answered(endpoint@, reply@) == Ok::<JsonView, IdentityErrorView>(b@),
            Err(e) => answered(endpoint@, reply@) == Err::<JsonView, IdentityErrorView>(e@),
        },
{
    match reply {
        Reply::Unreachable(e) => Err(issuance((endpoint, " endpoint: ", e.as_str()))),
        Reply::Refused(_) => Err(IdentityError::AuthFailed),
        Reply::Unreadable(e) => Err(issuance((endpoint, " body: ", e.as_str()))),
        Reply::Body(json) => Ok(json),
    }
}

impl OAuthAuthenticator {
    /// The login of a configured provider, with no key of its issuer known yet.
    pub fn new(cfg: OAuthConfig) -> (r: OAuthAuthenticator)
        ensures
            r.cfg == cfg,
            r.keys@.len() == 0,
    {
        OAuthAuthenticator { cfg, keys: Vec::new() }
    }

    /// The provider's page that a browser's login starts at.
    pub fn authorize_redirect(&self, redirect_uri: &str, flow: &LoginFlow) -> (r: String)
        ensures
            r@ == oauth::authorize_url(
                self.cfg,
                redirect_uri@,
                flow.state@,
                oauth::base64url(oauth::sha256(vstd::utf8::encode_utf8(flow.verifier@))),
                flow.nonce@,
            ),
    {
        oauth::authorize_redirect(&self.cfg, redirect_uri, flow)
    }

    /// Begin to exchange an authorization code for a principal, with the verifier and the nonce of
    /// the browser's flow, where there is one.
    pub fn exchange(&self, code: &str, verifier: Option<&str>, expected_nonce: Option<&str>) -> (r: (Exchange, ExchangeAction))
        ensures
            r.0.stage@ == StageView::Token,
            text::opt_view(r.0.nonce) == text::str_opt(expected_nonce),
            r.1@ == (ExchangeActionView::PostToken {
                url: self.cfg.token_url@,
                form: login::token_form_of(self.cfg, code@, text::str_opt(verifier)),
            }),
    {
        let nonce: Option<String> = match expected_nonce {
            Some(n) => Some(n.to_owned()),
            None => None,
        };
        let form = login::token_form(&self.cfg, code, verifier);
        (Exchange { stage: ExchangeStage::Token, nonce }, ExchangeAction::PostToken { url: self.cfg.token_url.clone(), form })
    }

    /// Begin to exchange a bare credential: there is no browser's flow to carry a verifier or a
    /// nonce.
    pub fn authenticate(&self, credential: &str) -> (r: (Exchange, ExchangeAction))
        ensures
            r.0.stage@ == StageView::Token,
            r.0.nonce is None,
            r.1@ == (ExchangeActionView::PostToken {
                url: self.cfg.token_url@,
                form: login::token_form_of(self.cfg, credential@, None),
            }),
    {
        self.exchange(credential, None, None)
    }

    fn check(&self, id_token: String, issuer: String, refreshed: bool) -> (r: (ExchangeStage, ExchangeAction))
        ensures
            checked(self.cfg, id_token@, issuer@, login::key_views(self.keys@), refreshed, (r.0@, r.1@)),
    {
        let v = login::verify_id_token(&self.cfg, id_token.as_str(), issuer.as_str(), &self.keys, refreshed);
        let ghost seen = v@;
        let ghost token = id_token@;
        let ghost from = issuer@;
        let next = match v {
            Verified::NeedKeys => {
                let url = login::discovery_url(issuer.as_str());
                (ExchangeStage::Discovery { id_token, issuer }, ExchangeAction::Fetch { url })
            },
            Verified::Failed(e) => (ExchangeStage::Over, ExchangeAction::Done(Err(e))),
            Verified::Claims(claims) => (ExchangeStage::Claims, ExchangeAction::ReadClaims { claims }),
        };
        assert(login::verified_as(self.cfg, token, from, login::key_views(self.keys@), refreshed, seen));
        assert((next.0@, next.1@) == on_verified(token, from, seen));
        next
    }

    fn next(&mut self, stage: ExchangeStage, nonce: &Option<String>, reply: Reply) -> (r: (ExchangeStage, ExchangeAction))
        ensures
            final(self).cfg == old(self).cfg,
            stepped(
                old(self).cfg,
                ExchangeView { stage: stage@, keys: login::key_views(old(self).keys@), nonce: text::opt_view(*nonce) },
                reply@,
                ExchangeView { stage: r.0@, keys: login::key_views(final(self).keys@), nonce: text::opt_view(*nonce) },
                r.1@,
            ),
    {
        match stage {
            ExchangeStage::Token => match answered_body("token", reply) {
                Err(e) => (ExchangeStage::Over, ExchangeAction::Done(Err(e))),
                Ok(body) => match login::on_token(&self.cfg, true, &body) {
                    TokenAction::Fail(e) => (ExchangeStage::Over, ExchangeAction::Done(Err(e))),
                    TokenAction::Userinfo { access } => (
                        ExchangeStage::Userinfo,
                        ExchangeAction::AskUserinfo { url: self.cfg.userinfo_url.clone(), access },
                    ),
                    TokenAction::Verify { id_token, issuer } => self.check(id_token, issuer, false),
                },
            },
            ExchangeStage::Discovery { id_token, issuer } => {
                let url = login::discovery_url(issuer.as_str());
                match fetched_document(url.as_str(), reply) {
                    Err(e) => (ExchangeStage::Over, ExchangeAction::Done(Err(e))),
                    Ok(doc) => match login::jwks_uri(issuer.as_str(), &doc) {
                        Err(e) => (ExchangeStage::Over, ExchangeAction::Done(Err(e))),
                        Ok(uri) => {
                            let url = uri.clone();
                            (ExchangeStage::Keys { id_token, issuer, uri }, ExchangeAction::Fetch { url })
                        },
                    },
                }
            },
            ExchangeStage::Keys { id_token, issuer, uri } => match fetched_document(uri.as_str(), reply) {
                Err(e) => (ExchangeStage::Over, ExchangeAction::Done(Err(e))),
                Ok(jwks) => match login::read_jwks(uri.as_str(), &jwks) {
                    Err(e) => (ExchangeStage::Over, ExchangeAction::Done(Err(e))),
                    Ok(keys) => {
                        self.keys = keys;
                        self.check(id_token, issuer, true)
                    },
                },
            },
            ExchangeStage::Claims => match reply {
                Reply::Body(json) => {
                    let expected: Option<&str> = match nonce {
                        Some(n) => Some(n.as_str()),
                        None => None,
                    };
                    (ExchangeStage::Over, ExchangeAction::Done(login::on_claims(&self.cfg, &json, expected)))
                },
                _ => (ExchangeStage::Over, ExchangeAction::Done(Err(IdentityError::AuthFailed))),
            },
            ExchangeStage::Userinfo => match answered_body("userinfo", reply) {
                Err(e) => (ExchangeStage::Over, ExchangeAction::Done(Err(e))),
                Ok(user) => (
                    ExchangeStage::Over,
                    ExchangeAction::Done(login::principal_from(&self.cfg, &user)),
                ),
            },
            ExchangeStage::Over => (ExchangeStage::Over, ExchangeAction::Done(Err(IdentityError::AuthFailed))),
        }
    }
}

impl Exchange {
    /// Take what came of the last action, and ask for the next. A fetched key set replaces the
    /// keys that `auth` knows.
    pub fn step(&mut self, auth: &mut OAuthAuthenticator, reply: Reply) -> (r: ExchangeAction)
        ensures
            final(auth).cfg == old(auth).cfg,
            stepped(old(auth).cfg, old(self).of(*old(auth)), reply@, final(self).of(*final(auth)), r@),
    {
        let mut stage = ExchangeStage::Over;
        std::mem::swap(&mut stage, &mut self.stage);
        let (stage, action) = auth.next(stage, &self.nonce, reply);
        self.stage = stage;
        action
    }
}

/// A login goes through its documents: where the token's key is not known the discovery document
/// is fetched, then the key set that it names; where an access token stands alone the userinfo
/// endpoint is asked with it.
pub proof fn logins_fetch_what_they_need(
    cfg: OAuthConfig,
    from: ExchangeView,
    json: JsonView,
    to: ExchangeView,
    action: ExchangeActionView,
)
    requires
        stepped(cfg, from, ReplyView::Body(json), to, action),
    ensures
        to.nonce == from.nonce,
        from.stage is Token && login::asserted(cfg, json) is None ==> match login::text_at(json, "access_token"@) {
            Some(access) => action == (ExchangeActionView::AskUserinfo { url: cfg.userinfo_url@, access })
                && to.stage is Userinfo,
            None => action == ExchangeActionView::Done(Err(IdentityErrorView::AuthFailed)),
        },
        from.stage is Token ==> (login::asserted(cfg, json) matches Some((id_token, issuer)) ==> action == (
        ExchangeActionView::Fetch { url: login::discovery_url_of(issuer) }) || action is ReadClaims || action
            == ExchangeActionView::Done(Err(IdentityErrorView::AuthFailed))),
        from.stage matches StageView::Discovery { id_token, issuer } ==> match login::text_at(json, "jwks_uri"@) {
            Some(uri) => action == (ExchangeActionView::Fetch { url: uri }) && to.stage == (StageView::Keys {
                id_token,
                issuer,
                uri,
            }),
            None => action matches ExchangeActionView::Done(Err(IdentityErrorView::Issuance(_))),
        },
        from.stage is Keys ==> !(action is Fetch) && !(action is AskUserinfo) && !(action is PostToken),
{
}

/// A key set that was fetched is what the login goes on with: its keys replace those known, and a
/// set without a key fails the login.
pub proof fn fetched_keys_replace_the_known(
    cfg: OAuthConfig,
    from: ExchangeView,
    json: JsonView,
    to: ExchangeView,
    action: ExchangeActionView,
)
    requires
        stepped(cfg, from, ReplyView::Body(json), to, action),
    ensures
        from.stage is Keys && login::rsa_keys(login::jwks_entries(json)).len() > 0 ==> to.keys == login::rsa_keys(
            login::jwks_entries(json),
        ),
        from.stage is Keys && login::rsa_keys(login::jwks_entries(json)).len() == 0 ==> action
            matches ExchangeActionView::Done(Err(IdentityErrorView::Issuance(_))),
        !(from.stage is Keys) ==> to.keys == from.keys,
{
}

/// A login ends with the principal of what it read: of a verified token's claims, or of the
/// user's information.
pub proof fn logins_end_with_their_principal(
    cfg: OAuthConfig,
    from: ExchangeView,
    json: JsonView,
    to: ExchangeView,
    action: ExchangeActionView,
)
    requires
        stepped(cfg, from, ReplyView::Body(json), to, action),
    ensures
        from.stage is Userinfo && login::subject_of(json) is Some ==> {
            &&& action matches ExchangeActionView::Done(Ok(p))
            &&& Some(p.subject) == login::subject_of(json)
        },
        from.stage is Claims && login::subject_of(json) is Some && (from.nonce is None || from.nonce->0.len() == 0
            || login::text_at(json, "nonce"@) == from.nonce) ==> {
            &&& action matches ExchangeActionView::Done(Ok(p))
            &&& Some(p.subject) == login::subject_of(json)
        },
        from.stage is Userinfo || from.stage is Claims ==> to.stage is Over,
{
}

/// Nothing but a body takes a login further: any other reply ends it, with a failed login where
/// an endpoint refused and with the reason where a document could not be had.
pub proof fn other_replies_end_the_login(
    cfg: OAuthConfig,
    from: ExchangeView,
    reply: ReplyView,
    to: ExchangeView,
    action: ExchangeActionView,
)
    requires
        stepped(cfg, from, reply, to, action),
        !(reply is Body),
    ensures
        to.stage is Over,
        action matches ExchangeActionView::Done(Err(_)),
        reply is Refused && (from.stage is Token || from.stage is Userinfo || from.stage is Claims) ==> action
            == ExchangeActionView::Done(Err(IdentityErrorView::AuthFailed)),
        reply matches ReplyView::Unreachable(e) ==> (from.stage is Token ==> action == ExchangeActionView::Done(
            Err(IdentityErrorView::Issuance("token"@ + " endpoint: "@ + e)),
        )),
        reply matches ReplyView::Refused(status) ==> (from.stage matches StageView::Keys { id_token, issuer, uri }
            ==> action == ExchangeActionView::Done(Err(IdentityErrorView::Issuance(uri + ": HTTP "@ + status)))),
{
}

} // verus!
