//! What a step is given at launch besides its spec: the secrets it declares and a token for the
//! cloud.
//!
//! Secrets are read one by one and registered with the redactor before they are handed on; they
//! exist only in the launch.

use crate::admission::{SecretScope, SecretScopeView};
use crate::logs::LogService;
use crate::model::{self, SpecView, StepSpec};
use crate::oidc::Claims;
use crate::persist::DeployContext;
use crate::text;
use vstd::prelude::*;

verus! {

/// The text of bytes, with a replacement character in the place of what is not UTF-8.
pub uninterp spec fn lossy_text(bytes: Seq<u8>) -> Seq<char>;

/// `String::from_utf8_lossy`: the text that the bytes encode; where they are not UTF-8, a text
/// that depends on them alone. Which replacement characters stand in it is not stated.
#[verifier::external_body]
fn from_utf8_lossy(bytes: &Vec<u8>) -> (r: String)
    ensures
        r@ == lossy_text(bytes@),
        vstd::utf8::valid_utf8(bytes@) ==> r@ == vstd::utf8::decode_utf8(bytes@),
{
    String::from_utf8_lossy(bytes).into_owned()
}

/// Secrets being resolved for a step: of its declared keys the first `next` are read, and `env`
/// holds them for the step's environment.
#[derive(Debug)]
pub struct StepSecrets {
    pub keys: Vec<String>,
    pub next: usize,
    pub env: Vec<(String, String)>,
}

/// The mathematical model of [`StepSecrets`].
#[verifier::ext_equal]
pub struct StepSecretsView {
    pub keys: Seq<Seq<char>>,
    pub next: int,
    pub env: Seq<(Seq<char>, Seq<char>)>,
}

impl View for StepSecrets {
    type V = StepSecretsView;

    open spec fn view(&self) -> StepSecretsView {
        StepSecretsView {
            keys: text::views(self.keys@),
            next: self.next as int,
            env: model::pair_views(self.env@),
        }
    }
}

impl StepSecretsView {
    pub open spec fn wf(self) -> bool {
        0 <= self.next <= self.keys.len() && self.env.len() == self.next && forall|i: int|
            0 <= i < self.next ==> (#[trigger] self.env[i]).0 == self.keys[i]
    }

    /// The key to be read next.
    pub open spec fn wanted(self) -> Option<Seq<char>> {
        if self.next < self.keys.len() {
            Some(self.keys[self.next])
        } else {
            None
        }
    }
}

/// The redactor masks the value. There is nothing to mask of an empty one.
pub open spec fn masks(logs: LogService, value: Seq<u8>) -> bool {
    value.len() == 0 || text::byte_views(logs.secrets@).contains(value)
}

impl StepSecrets {
    /// The key to be read next.
    pub fn wants(&self) -> (r: Option<&String>)
        ensures
            match r {
                Some(k) => self@.wanted() == Some(k@),
                None => self@.wanted() is None,
            },
    {
        if self.next < self.keys.len() {
            Some(&self.keys[self.next])
        } else {
            None
        }
    }

    /// Take the value of the key that was wanted: it is masked from now on, and goes into the
    /// step's environment under its key.
    pub fn resolved(&mut self, logs: &mut LogService, value: &Vec<u8>)
        requires
            old(self)@.wf(),
            old(self)@.wanted() is Some,
        ensures
            final(self)@.wf(),
            final(self)@ == (StepSecretsView {
                next: old(self)@.next + 1,
                env: old(self)@.env.push((old(self)@.keys[old(self)@.next], lossy_text(value@))),
                ..old(self)@
            }),
            vstd::utf8::valid_utf8(value@) ==> final(self)@.env.last().1 == vstd::utf8::decode_utf8(value@),
            masks(*final(logs), value@),
            forall|v: Seq<u8>| #[trigger] masks(*old(logs), v) ==> masks(*final(logs), v),
    {
        let ghost before = self@;
        let ghost registered = text::byte_views(logs.secrets@);
        logs.register_secret(value);
        proof {
            let now = text::byte_views(logs.secrets@);
            if value@.len() > 0 && !registered.contains(value@) {
                assert(now[registered.len() as int] == value@);
            }
            assert forall|v: Seq<u8>| registered.contains(v) implies now.contains(v) by {
                let i = choose|i: int| 0 <= i < registered.len() && registered[i] == v;
                assert(now[i] == v);
            }
        }
        let key = self.keys[self.next].clone();
        let n: usize = self.keys.len();
        let shown = from_utf8_lossy(value);
        let ghost pair = (key@, shown@);
        self.env.push((key, shown));
        assert(model::pair_views(self.env@) =~= before.env.push(pair));
        assert(self.next < n);
        self.next = self.next + 1;
    }

    /// The step's additional environment, once every key was read.
    pub fn into_env(self) -> (r: Vec<(String, String)>)
        requires
            self@.wf(),
            self@.wanted() is None,
        ensures
            model::pair_views(r@) == self@.env,
            r@.len() == self@.keys.len(),
            forall|i: int| 0 <= i < r@.len() ==> (#[trigger] r@[i]).0@ == self@.keys[i],
    {
        assert(forall|i: int| 0 <= i < self.env@.len() ==> model::pair_views(self.env@)[i].0 == (#[trigger] self.env@[i]).0@);
        self.env
    }
}

/// Start resolving the keys that a step declares. A run that is locked out gets none, and
/// none is read.
pub fn resolve_step_secrets(keys: Vec<String>, locked_out: bool) -> (r: StepSecrets)
    ensures
        r@.wf(),
        r@ == (StepSecretsView {
            keys: if locked_out {
                Seq::empty()
            } else {
                text::views(keys@)
            },
            next: 0,
            env: Seq::empty(),
        }),
        locked_out ==> r@.wanted() is None && r@.env.len() == 0,
{
    let wanted: Vec<String> = if locked_out {
        Vec::new()
    } else {
        keys
    };
    assert(locked_out ==> text::views(wanted@) =~= Seq::empty());
    let r = StepSecrets { keys: wanted, next: 0, env: Vec::new() };
    assert(model::pair_views(r.env@) =~= Seq::empty());
    r
}

/// Where a step's secrets are looked up: in the environment that its run deploys to. A step that
/// declares none, and a run that deploys nowhere, have no such place.
pub fn launch_scope(declares_secrets: bool, target: Option<DeployContext>) -> (r: Option<SecretScope>)
    ensures
        match (r, target) {
            (Some(s), Some(t)) => declares_secrets && s@ == (SecretScopeView::Environment {
                org: t.org@,
                repo: t.project@,
                environment: t.environment@,
            }),
            (None, Some(_)) => !declares_secrets,
            (r, None) => r is None,
        },
{
    if !declares_secrets {
        return None;
    }
    match target {
        Some(t) => Some(SecretScope::Environment { org: t.org, repo: t.project, environment: t.environment }),
        None => None,
    }
}

/// The seconds for which an attempt's token is good.
pub const OIDC_TOKEN_TTL_SECS: i64 = 900;

/// The environment that a token's subject names: none for a run that is locked out, so that its
/// token never passes for a real environment's.
pub open spec fn subject_environment_of(t: DeployContext) -> Seq<char> {
    if t.locked_out {
        "none"@
    } else {
        t.environment@
    }
}

/// A locked out run's token never names the environment that its run targets, unless that one is
/// called `none`; any other run's token names exactly that environment.
pub proof fn locked_out_tokens_name_no_environment(t: DeployContext)
    ensures
        t.locked_out ==> subject_environment_of(t) == "none"@,
        !t.locked_out ==> subject_environment_of(t) == t.environment@,
{
}

/// The secrets of a step are asked for one by one in the order it declares them, until all are there.
pub proof fn every_declared_secret_is_asked_for(s: StepSecretsView)
    requires
        s.wf(),
    ensures
        s.next < s.keys.len() ==> s.wanted() == Some(s.keys[s.next]),
        s.wanted() is None ==> s.env.len() == s.keys.len() && forall|i: int|
            0 <= i < s.keys.len() ==> (#[trigger] s.env[i]).0 == s.keys[i],
{
}

/// The environment that a token's subject names.
pub fn subject_environment(t: &DeployContext) -> (r: String)
    ensures
        r@ == subject_environment_of(*t),
{
    if t.locked_out {
        "none".to_owned()
    } else {
        t.environment.clone()
    }
}

/// The claims of an attempt of a deploying run. `subject` is the subject that the identity layer
/// makes of the org, the project, the subject environment and the ref.
pub fn attempt_claims(
    issuer_url: &str,
    audience: &str,
    target: &DeployContext,
    subject: String,
    run: &str,
    attempt: Option<String>,
    now_ms: i64,
) -> (r: Claims)
    requires
        now_ms >= 0,
    ensures
        r.issuer@ == issuer_url@,
        r.subject == subject,
        r.audience@ == audience@,
        r.run_id@ == run@,
        r.attempt@ == (match attempt {
            Some(a) => a@,
            None => Seq::empty(),
        }),
        r.event@ == "deploy"@,
        r.git_ref@ == target.git_ref@,
        r.sha@.len() == 0,
        r.expires_at == now_ms / 1000 + 900,
{
    let attempt_id: String = match attempt {
        Some(a) => a,
        None => String::new(),
    };
    Claims {
        issuer: issuer_url.to_owned(),
        subject,
        audience: audience.to_owned(),
        expires_at: now_ms / 1000 + OIDC_TOKEN_TTL_SECS,
        run_id: run.to_owned(),
        attempt: attempt_id,
        event: "deploy".to_owned(),
        git_ref: target.git_ref.clone(),
        sha: String::new(),
    }
}

/// The claims of the token that an attempt is launched with, where an audience is configured and
/// the run deploys somewhere. Every other run gets no token.
pub fn mint_oidc_token(
    issuer_url: &str,
    audience: Option<&str>,
    target: Option<&DeployContext>,
    subject: String,
    run: &str,
    attempt: Option<String>,
    now_ms: i64,
) -> (r: Option<Claims>)
    requires
        now_ms >= 0,
    ensures
        r is Some <==> audience is Some && target is Some,
        r matches Some(c) ==> {
            &&& c.issuer@ == issuer_url@
            &&& c.subject == subject
            &&& c.audience@ == audience->0@
            &&& c.run_id@ == run@
            &&& c.attempt@ == (match attempt {
                Some(a) => a@,
                None => Seq::empty(),
            })
            &&& c.event@ == "deploy"@
            &&& c.git_ref@ == target->0.git_ref@
            &&& c.sha@.len() == 0
            &&& c.expires_at == now_ms / 1000 + OIDC_TOKEN_TTL_SECS
        },
{
    match (audience, target) {
        (Some(a), Some(t)) => Some(attempt_claims(issuer_url, a, t, subject, run, attempt, now_ms)),
        _ => None,
    }
}

/// The spec that a step is launched with: the minted token in place of any other, and the resolved
/// secrets behind the declared environment. The rest is as it was.
pub fn launch(spec: StepSpec, token: Option<String>, resolved: Vec<(String, String)>) -> (r: StepSpec)
    ensures
        r@ == (SpecView {
            env: spec@.env + model::pair_views(resolved@),
            oidc_token: match token {
                Some(t) => Some(t@),
                None => spec@.oidc_token,
            },
            ..spec@
        }),
{
    let ghost before = spec.env@;
    let mut spec = spec;
    let mut resolved = resolved;
    let ghost more = resolved@;
    spec.env.append(&mut resolved);
    assert(model::pair_views(spec.env@) =~= model::pair_views(before) + model::pair_views(more));
    if token.is_some() {
        spec.oidc_token = token;
    }
    spec
}

} // verus!
