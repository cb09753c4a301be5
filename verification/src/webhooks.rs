//! Deliveries from forges, from the signature to the runs they start.
//!
//! A delivery is taken step by step: its signature is verified, its body parsed, its id held
//! against the deliveries seen before, an installation is registered, and any other event starts
//! the runs it matches. The steps themselves are taken elsewhere; what follows from each is
//! decided here.

use crate::connections::{ConnectionView, ForgeConnection, ForgeKind};
use crate::errors::{ApiError, ApiErrorView, TriggerError};
use crate::json::{self, Json, JsonView};
use crate::text;
use vstd::prelude::*;

verus! {

/// What a delivery that was taken is answered with.
#[derive(Debug)]
pub enum HookReply {
    /// Nothing to do, and why.
    Ignored(String),
    /// An event that no run can start from.
    NotActedOn,
    /// An installation was registered: so many repos were added and removed.
    Registered { added: u64, removed: u64 },
    /// Runs were started.
    Started { run_ids: Vec<String>, trigger: String },
}

/// The mathematical model of a [`HookReply`].
#[verifier::ext_equal]
pub enum ReplyView {
    Ignored(Seq<char>),
    NotActedOn,
    Registered { added: u64, removed: u64 },
    Started { run_ids: Seq<Seq<char>>, trigger: Seq<char> },
}

impl View for HookReply {
    type V = ReplyView;

    open spec fn view(&self) -> ReplyView {
        match self {
            HookReply::Ignored(why) => ReplyView::Ignored(why@),
            HookReply::NotActedOn => ReplyView::NotActedOn,
            HookReply::Registered { added, removed } => ReplyView::Registered { added: *added, removed: *removed },
            HookReply::Started { run_ids, trigger } => ReplyView::Started {
                run_ids: text::views(run_ids@),
                trigger: trigger@,
            },
        }
    }
}

impl ReplyView {
    /// The HTTP status: accepted where runs were started.
    pub open spec fn status(self) -> u16 {
        if self is Started {
            202
        } else {
            200
        }
    }

    /// The body.
    pub open spec fn body(self) -> JsonView {
        match self {
            ReplyView::Ignored(why) => JsonView::Object(seq![("ignored"@, JsonView::Str(why))]),
            ReplyView::NotActedOn => JsonView::Object(seq![("ignored"@, JsonView::Bool(true))]),
            ReplyView::Registered { added, removed } => JsonView::Object(
                seq![
                    (
                        "registered"@,
                        JsonView::Object(
                            seq![
                                ("added"@, JsonView::Number(text::decimal(added as nat))),
                                ("removed"@, JsonView::Number(text::decimal(removed as nat))),
                            ],
                        ),
                    ),
                ],
            ),
            ReplyView::Started { run_ids, trigger } => JsonView::Object(
                seq![
                    ("run_ids"@, JsonView::Array(run_ids.map_values(|id: Seq<char>| JsonView::Str(id)))),
                    ("trigger"@, JsonView::Str(trigger)),
                ],
            ),
        }
    }
}

fn member(key: &str, value: Json) -> (r: Json)
    ensures
        r@ == JsonView::Object(seq![(key@, value@)]),
{
    let mut m: Vec<(String, Json)> = Vec::new();
    m.push((key.to_owned(), value));
    let r = Json::Object(m);
    assert(r@->Object_0 =~= seq![(key@, value@)]);
    r
}

fn members(a: &str, x: Json, b: &str, y: Json) -> (r: Json)
    ensures
        r@ == JsonView::Object(seq![(a@, x@), (b@, y@)]),
{
    let mut m: Vec<(String, Json)> = Vec::new();
    m.push((a.to_owned(), x));
    m.push((b.to_owned(), y));
    let r = Json::Object(m);
    assert(r@->Object_0 =~= seq![(a@, x@), (b@, y@)]);
    r
}

fn texts(v: &Vec<String>) -> (r: Json)
    ensures
        r@ == JsonView::Array(text::views(v@).map_values(|s: Seq<char>| JsonView::Str(s))),
{
    let mut items: Vec<Json> = Vec::new();
    let mut i: usize = 0;
    while i < v.len()
        invariant
            i <= v@.len(),
            items@.len() == i,
            forall|j: int| 0 <= j < i ==> (#[trigger] items@[j])@ == JsonView::Str(v@[j]@),
        decreases v@.len() - i,
    {
        items.push(Json::Str(v[i].clone()));
        i = i + 1;
    }
    let r = Json::Array(items);
    assert(r@->Array_0 =~= text::views(v@).map_values(|s: Seq<char>| JsonView::Str(s)));
    r
}

impl HookReply {
    /// The reply's HTTP status and body.
    pub fn into_response(self) -> (r: (u16, Json))
        ensures
            r.0 == self@.status(),
            r.1@ == self@.body(),
    {
        match self {
            HookReply::Ignored(why) => (200, member("ignored", Json::Str(why))),
            HookReply::NotActedOn => (200, member("ignored", Json::Bool(true))),
            HookReply::Registered { added, removed } => (
                200,
                member(
                    "registered",
                    members(
                        "added",
                        Json::Number(text::u64_to_string(added)),
                        "removed",
                        Json::Number(text::u64_to_string(removed)),
                    ),
                ),
            ),
            HookReply::Started { run_ids, trigger } => (
                202,
                members("run_ids", texts(&run_ids), "trigger", Json::Str(trigger)),
            ),
        }
    }
}

/// What an installation delivery says.
#[derive(Debug)]
pub struct InstallationSync {
    pub installation_id: String,
    pub account: String,
    pub added: u64,
    pub removed: u64,
}

/// The connection that an installation is registered as. The app's credential is shared by all
/// of its installations.
pub open spec fn installation_connection(installation_id: Seq<char>) -> ConnectionView {
    ConnectionView {
        id: "github-install-"@ + installation_id,
        kind: ForgeKind::GitHub,
        base_url: "https://api.github.com"@,
        credential_ref: "github-app"@,
    }
}

/// What a delivery's body means to its adapter.
#[derive(Debug)]
pub enum Normalized {
    /// An event, by the wire name of its trigger.
    Event { trigger: String },
    /// Nothing that the adapter acts on.
    Unsupported,
    Failed(String),
}

/// What a delivery wants done.
#[derive(Debug)]
pub enum HookAction {
    /// Verify the signature over the raw body.
    Verify,
    /// Parse the body.
    Parse,
    /// Record the delivery's id; it is fresh where it was not recorded before.
    Record { delivery_id: String },
    /// See whether the body is an installation.
    ReadInstallation,
    /// Write the connection to the registry.
    Register { connection: ForgeConnection },
    /// Apply the installation's repos to the connection, for its account.
    ApplyInstallation { connection_id: String, account: String },
    /// Have the adapter read the body.
    Normalize,
    /// Start the runs that the event matches.
    Trigger,
    Reply(HookReply),
    Refuse(ApiError),
}

/// The mathematical model of a [`HookAction`].
pub enum HookActionView {
    Verify,
    Parse,
    Record { delivery_id: Seq<char> },
    ReadInstallation,
    Register { connection: ConnectionView },
    ApplyInstallation { connection_id: Seq<char>, account: Seq<char> },
    Normalize,
    Trigger,
    Reply(ReplyView),
    Refuse(ApiErrorView),
}

impl View for HookAction {
    type V = HookActionView;

    open spec fn view(&self) -> HookActionView {
        match self {
            HookAction::Verify => HookActionView::Verify,
            HookAction::Parse => HookActionView::Parse,
            HookAction::Record { delivery_id } => HookActionView::Record { delivery_id: delivery_id@ },
            HookAction::ReadInstallation => HookActionView::ReadInstallation,
            HookAction::Register { connection } => HookActionView::Register { connection: connection@ },
            HookAction::ApplyInstallation { connection_id, account } => HookActionView::ApplyInstallation {
                connection_id: connection_id@,
                account: account@,
            },
            HookAction::Normalize => HookActionView::Normalize,
            HookAction::Trigger => HookActionView::Trigger,
            HookAction::Reply(r) => HookActionView::Reply(r@),
            HookAction::Refuse(e) => HookActionView::Refuse(e@),
        }
    }
}

/// What came of the last action.
#[derive(Debug)]
pub enum HookEvent {
    Verified(bool),
    Parsed(Result<(), String>),
    /// Whether the delivery is fresh.
    Recorded(Result<bool, String>),
    Installation(Option<InstallationSync>),
    Registered(Result<(), String>),
    Applied(Result<(), String>),
    Normalized(Normalized),
    /// The runs that were started.
    Triggered(Result<Vec<String>, TriggerError>),
}

/// What a delivery waits for.
#[derive(Debug)]
pub enum HookStage {
    AwaitVerify,
    AwaitParse,
    AwaitRecord,
    AwaitInstallation,
    AwaitRegister(InstallationSync),
    AwaitApply { added: u64, removed: u64 },
    AwaitNormalize,
    AwaitTrigger { trigger: String },
    Over,
}

/// The mathematical model of a [`HookStage`].
pub enum HookStageView {
    AwaitVerify,
    AwaitParse,
    AwaitRecord,
    AwaitInstallation,
    AwaitRegister { installation_id: Seq<char>, account: Seq<char>, added: u64, removed: u64 },
    AwaitApply { added: u64, removed: u64 },
    AwaitNormalize,
    AwaitTrigger { trigger: Seq<char> },
    Over,
}

impl View for HookStage {
    type V = HookStageView;

    open spec fn view(&self) -> HookStageView {
        match self {
            HookStage::AwaitVerify => HookStageView::AwaitVerify,
            HookStage::AwaitParse => HookStageView::AwaitParse,
            HookStage::AwaitRecord => HookStageView::AwaitRecord,
            HookStage::AwaitInstallation => HookStageView::AwaitInstallation,
            HookStage::AwaitRegister(s) => HookStageView::AwaitRegister {
                installation_id: s.installation_id@,
                account: s.account@,
                added: s.added,
                removed: s.removed,
            },
            HookStage::AwaitApply { added, removed } => HookStageView::AwaitApply { added: *added, removed: *removed },
            HookStage::AwaitNormalize => HookStageView::AwaitNormalize,
            HookStage::AwaitTrigger { trigger } => HookStageView::AwaitTrigger { trigger: trigger@ },
            HookStage::Over => HookStageView::Over,
        }
    }
}

/// A delivery to the endpoint of one kind of forge. `registry` and `forge` say what is wired.
#[derive(Debug)]
pub struct Webhook {
    pub kind: ForgeKind,
    pub registry: bool,
    pub forge: bool,
    pub delivery_id: String,
    pub stage: HookStage,
}

/// The mathematical model of a [`Webhook`].
pub struct HookView {
    pub kind: ForgeKind,
    pub registry: bool,
    pub forge: bool,
    pub delivery_id: Seq<char>,
    pub stage: HookStageView,
}

impl View for Webhook {
    type V = HookView;

    open spec fn view(&self) -> HookView {
        HookView {
            kind: self.kind,
            registry: self.registry,
            forge: self.forge,
            delivery_id: self.delivery_id@,
            stage: self.stage@,
        }
    }
}

impl HookView {
    pub open spec fn at(self, stage: HookStageView) -> HookView {
        HookView { stage, ..self }
    }

    pub open spec fn refuse(self, e: ApiErrorView) -> (HookView, HookActionView) {
        (self.at(HookStageView::Over), HookActionView::Refuse(e))
    }

    pub open spec fn reply(self, r: ReplyView) -> (HookView, HookActionView) {
        (self.at(HookStageView::Over), HookActionView::Reply(r))
    }

    /// A delivery with an id is held against those seen before, where there is a registry.
    pub open spec fn dedups(self) -> bool {
        self.registry && self.delivery_id.len() > 0
    }

    /// A fresh delivery: only GitHub delivers installations.
    pub open spec fn process(self) -> (HookView, HookActionView) {
        match self.kind {
            ForgeKind::GitHub => (self.at(HookStageView::AwaitInstallation), HookActionView::ReadInstallation),
            ForgeKind::Forgejo => (self.at(HookStageView::AwaitNormalize), HookActionView::Normalize),
        }
    }

    /// What follows an outcome. One that was not waited for ends in a refusal.
    pub open spec fn after(self, ev: HookEvent) -> (HookView, HookActionView) {
        match (self.stage, ev) {
            (HookStageView::AwaitVerify, HookEvent::Verified(ok)) => if ok {
                (self.at(HookStageView::AwaitParse), HookActionView::Parse)
            } else {
                self.refuse(ApiErrorView::Unauthorized)
            },
            (HookStageView::AwaitParse, HookEvent::Parsed(Err(m))) => self.refuse(
                ApiErrorView::BadRequest("invalid JSON: "@ + m@),
            ),
            (HookStageView::AwaitParse, HookEvent::Parsed(Ok(_))) => if self.dedups() {
                (self.at(HookStageView::AwaitRecord), HookActionView::Record { delivery_id: self.delivery_id })
            } else {
                self.process()
            },
            (HookStageView::AwaitRecord, HookEvent::Recorded(Err(m))) => self.refuse(ApiErrorView::Db(m@)),
            (HookStageView::AwaitRecord, HookEvent::Recorded(Ok(fresh))) => if fresh {
                self.process()
            } else {
                self.reply(ReplyView::Ignored("duplicate delivery"@))
            },
            (HookStageView::AwaitInstallation, HookEvent::Installation(None)) => (
                self.at(HookStageView::AwaitNormalize),
                HookActionView::Normalize,
            ),
            (HookStageView::AwaitInstallation, HookEvent::Installation(Some(s))) => if self.registry {
                (
                    self.at(
                        HookStageView::AwaitRegister {
                            installation_id: s.installation_id@,
                            account: s.account@,
                            added: s.added,
                            removed: s.removed,
                        },
                    ),
                    HookActionView::Register { connection: installation_connection(s.installation_id@) },
                )
            } else {
                self.reply(ReplyView::Ignored("no registry configured"@))
            },
            (
                HookStageView::AwaitRegister { installation_id, account, added, removed },
                HookEvent::Registered(Ok(_)),
            ) => (
                self.at(HookStageView::AwaitApply { added, removed }),
                HookActionView::ApplyInstallation {
                    connection_id: installation_connection(installation_id).id,
                    account,
                },
            ),
            (HookStageView::AwaitRegister { .. }, HookEvent::Registered(Err(m))) => self.refuse(ApiErrorView::Db(m@)),
            (HookStageView::AwaitApply { added, removed }, HookEvent::Applied(Ok(_))) => self.reply(
                ReplyView::Registered { added, removed },
            ),
            (HookStageView::AwaitApply { .. }, HookEvent::Applied(Err(m))) => self.refuse(ApiErrorView::Db(m@)),
            (HookStageView::AwaitNormalize, HookEvent::Normalized(Normalized::Unsupported)) => self.reply(
                ReplyView::NotActedOn,
            ),
            (HookStageView::AwaitNormalize, HookEvent::Normalized(Normalized::Failed(m))) => self.refuse(
                ApiErrorView::BadRequest(m@),
            ),
            (HookStageView::AwaitNormalize, HookEvent::Normalized(Normalized::Event { trigger })) => if self.forge {
                (self.at(HookStageView::AwaitTrigger { trigger: trigger@ }), HookActionView::Trigger)
            } else {
                self.reply(ReplyView::Ignored("no forge configured"@))
            },
            (HookStageView::AwaitTrigger { trigger }, HookEvent::Triggered(Ok(runs))) => if runs@.len() > 0 {
                self.reply(ReplyView::Started { run_ids: text::views(runs@), trigger })
            } else {
                self.reply(ReplyView::Ignored("no matching pipeline"@))
            },
            (HookStageView::AwaitTrigger { .. }, HookEvent::Triggered(Err(TriggerError::Db(m)))) => self.refuse(
                ApiErrorView::Db(m@),
            ),
            (HookStageView::AwaitTrigger { .. }, HookEvent::Triggered(Err(e))) => self.refuse(
                ApiErrorView::BadRequest(e.message()),
            ),
            _ => self.refuse(ApiErrorView::Unauthorized),
        }
    }
}

impl Webhook {
    /// Start on a delivery. Without a secret the endpoint is closed.
    pub fn begin(kind: ForgeKind, secret_configured: bool, registry: bool, forge: bool, delivery_id: String) -> (r: (
        Webhook,
        HookAction,
    ))
        ensures
            ({
                let w = HookView { kind, registry, forge, delivery_id: delivery_id@, stage: HookStageView::AwaitVerify };
                (r.0@, r.1@) == if secret_configured {
                    (w, HookActionView::Verify)
                } else {
                    w.refuse(ApiErrorView::Unauthorized)
                }
            }),
    {
        if secret_configured {
            (Webhook { kind, registry, forge, delivery_id, stage: HookStage::AwaitVerify }, HookAction::Verify)
        } else {
            (
                Webhook { kind, registry, forge, delivery_id, stage: HookStage::Over },
                HookAction::Refuse(ApiError::Unauthorized),
            )
        }
    }

    fn process(&mut self) -> (r: HookAction)
        ensures
            (final(self)@, r@) == old(self)@.process(),
    {
        match self.kind {
            ForgeKind::GitHub => {
                self.stage = HookStage::AwaitInstallation;
                HookAction::ReadInstallation
            },
            ForgeKind::Forgejo => {
                self.stage = HookStage::AwaitNormalize;
                HookAction::Normalize
            },
        }
    }

    fn ignore(&mut self, why: &str) -> (r: HookAction)
        ensures
            (final(self)@, r@) == old(self)@.reply(ReplyView::Ignored(why@)),
    {
        self.stage = HookStage::Over;
        HookAction::Reply(HookReply::Ignored(why.to_owned()))
    }

    fn refuse(&mut self, e: ApiError) -> (r: HookAction)
        ensures
            (final(self)@, r@) == old(self)@.refuse(e@),
    {
        self.stage = HookStage::Over;
        HookAction::Refuse(e)
    }

    fn on_installation(&mut self, s: InstallationSync) -> (r: HookAction)
        requires
            old(self)@.stage == HookStageView::AwaitInstallation,
        ensures
            (final(self)@, r@) == old(self)@.after(HookEvent::Installation(Some(s))),
    {
        if !self.registry {
            return self.ignore("no registry configured");
        }
        let mut id: String = "github-install-".to_owned();
        id.append(s.installation_id.as_str());
        self.stage = HookStage::AwaitRegister(s);
        HookAction::Register {
            connection: ForgeConnection {
                id,
                kind: ForgeKind::GitHub,
                base_url: "https://api.github.com".to_owned(),
                credential_ref: "github-app".to_owned(),
            },
        }
    }

    fn on_triggered(&mut self, trigger: String, runs: Result<Vec<String>, TriggerError>) -> (r: HookAction)
        requires
            old(self)@.stage == (HookStageView::AwaitTrigger { trigger: trigger@ }),
        ensures
            (final(self)@, r@) == old(self)@.after(HookEvent::Triggered(runs)),
    {
        match runs {
            Ok(run_ids) => {
                if run_ids.len() > 0 {
                    self.stage = HookStage::Over;
                    HookAction::Reply(HookReply::Started { run_ids, trigger })
                } else {
                    self.ignore("no matching pipeline")
                }
            },
            Err(TriggerError::Db(m)) => self.refuse(ApiError::Db(m)),
            Err(e) => self.refuse(ApiError::BadRequest(e.into_message())),
        }
    }

    /// Take the outcome of the last action and say what comes next.
    pub fn step(&mut self, ev: HookEvent) -> (r: HookAction)
        ensures
            (final(self)@, r@) == old(self)@.after(ev),
    {
        let mut stage = HookStage::Over;
        std::mem::swap(&mut stage, &mut self.stage);
        match (stage, ev) {
            (HookStage::AwaitVerify, HookEvent::Verified(ok)) => {
                if ok {
                    self.stage = HookStage::AwaitParse;
                    HookAction::Parse
                } else {
                    self.refuse(ApiError::Unauthorized)
                }
            },
            (HookStage::AwaitParse, HookEvent::Parsed(Err(e))) => {
                let mut m: String = "invalid JSON: ".to_owned();
                m.append(e.as_str());
                self.refuse(ApiError::BadRequest(m))
            },
            (HookStage::AwaitParse, HookEvent::Parsed(Ok(_))) => {
                if self.registry && self.delivery_id.as_str().unicode_len() > 0 {
                    self.stage = HookStage::AwaitRecord;
                    HookAction::Record { delivery_id: self.delivery_id.clone() }
                } else {
                    self.process()
                }
            },
            (HookStage::AwaitRecord, HookEvent::Recorded(Err(m))) => self.refuse(ApiError::Db(m)),
            (HookStage::AwaitRecord, HookEvent::Recorded(Ok(fresh))) => {
                if fresh {
                    self.process()
                } else {
                    self.ignore("duplicate delivery")
                }
            },
            (HookStage::AwaitInstallation, HookEvent::Installation(None)) => {
                self.stage = HookStage::AwaitNormalize;
                HookAction::Normalize
            },
            (HookStage::AwaitInstallation, HookEvent::Installation(Some(s))) => {
                self.stage = HookStage::AwaitInstallation;
                self.on_installation(s)
            },
            (HookStage::AwaitRegister(s), HookEvent::Registered(Ok(_))) => {
                let mut connection_id: String = "github-install-".to_owned();
                connection_id.append(s.installation_id.as_str());
                self.stage = HookStage::AwaitApply { added: s.added, removed: s.removed };
                HookAction::ApplyInstallation { connection_id, account: s.account }
            },
            (HookStage::AwaitRegister(_), HookEvent::Registered(Err(m))) => self.refuse(ApiError::Db(m)),
            (HookStage::AwaitApply { added, removed }, HookEvent::Applied(Ok(_))) => HookAction::Reply(
                HookReply::Registered { added, removed },
            ),
            (HookStage::AwaitApply { .. }, HookEvent::Applied(Err(m))) => self.refuse(ApiError::Db(m)),
            (HookStage::AwaitNormalize, HookEvent::Normalized(Normalized::Unsupported)) => HookAction::Reply(
                HookReply::NotActedOn,
            ),
            (HookStage::AwaitNormalize, HookEvent::Normalized(Normalized::Failed(m))) => self.refuse(
                ApiError::BadRequest(m),
            ),
            (HookStage::AwaitNormalize, HookEvent::Normalized(Normalized::Event { trigger })) => {
                if self.forge {
                    self.stage = HookStage::AwaitTrigger { trigger };
                    HookAction::Trigger
                } else {
                    self.ignore("no forge configured")
                }
            },
            (HookStage::AwaitTrigger { trigger }, HookEvent::Triggered(runs)) => {
                self.stage = HookStage::AwaitTrigger { trigger: trigger.clone() };
                self.on_triggered(trigger, runs)
            },
            _ => self.refuse(ApiError::Unauthorized),
        }
    }
}

/// A delivery whose signature does not verify comes to nothing but a refusal: it is not recorded,
/// registers nothing and starts nothing.
pub proof fn unverified_deliveries_are_refused(w: HookView)
    requires
        w.stage == HookStageView::AwaitVerify,
    ensures
        w.after(HookEvent::Verified(false)).1 == HookActionView::Refuse(ApiErrorView::Unauthorized),
        w.after(HookEvent::Verified(false)).0.stage == HookStageView::Over,
        forall|ev: HookEvent| #[trigger]
            w.after(ev).1 == HookActionView::Parse || w.after(ev).1 == HookActionView::Refuse(ApiErrorView::Unauthorized),
{
}

/// A delivery that verifies and parses is acted on: recorded first where deliveries are held against
/// those seen before, and then handed on. GitHub's may be an installation, which is registered under
/// its own connection and applied for its account where there is a registry; any other event starts
/// the runs it matches where a forge is wired, and is answered with all of them.
pub proof fn deliveries_are_acted_on(w: HookView, ev: HookEvent)
    ensures
        match (w.stage, ev) {
            (HookStageView::AwaitVerify, HookEvent::Verified(true)) => w.after(ev).1 is Parse && w.after(ev).0.stage is AwaitParse,
            (HookStageView::AwaitParse, HookEvent::Parsed(Ok(_))) => if w.registry && w.delivery_id.len() > 0 {
                w.after(ev).1 == (HookActionView::Record { delivery_id: w.delivery_id }) && w.after(ev).0.stage is AwaitRecord
            } else {
                w.after(ev).1 == (match w.kind {
                    ForgeKind::GitHub => HookActionView::ReadInstallation,
                    ForgeKind::Forgejo => HookActionView::Normalize,
                })
            },
            (HookStageView::AwaitRecord, HookEvent::Recorded(Ok(true))) => w.after(ev).1 == (match w.kind {
                ForgeKind::GitHub => HookActionView::ReadInstallation,
                ForgeKind::Forgejo => HookActionView::Normalize,
            }),
            (HookStageView::AwaitInstallation, HookEvent::Installation(None)) => w.after(ev).1 is Normalize && w.after(
                ev,
            ).0.stage is AwaitNormalize,
            (HookStageView::AwaitInstallation, HookEvent::Installation(Some(s))) => if w.registry {
                &&& w.after(ev).1 matches HookActionView::Register { connection: c } && c.id == "github-install-"@
                    + s.installation_id@ && c.kind == ForgeKind::GitHub && c.base_url == "https://api.github.com"@
                    && c.credential_ref == "github-app"@
                &&& w.after(ev).0.after(HookEvent::Registered(Ok(()))).1 == (HookActionView::ApplyInstallation {
                    connection_id: "github-install-"@ + s.installation_id@,
                    account: s.account@,
                })
                &&& w.after(ev).0.after(HookEvent::Registered(Ok(()))).0.after(HookEvent::Applied(Ok(()))).1
                    == HookActionView::Reply(ReplyView::Registered { added: s.added, removed: s.removed })
            } else {
                w.after(ev).1 == HookActionView::Reply(ReplyView::Ignored("no registry configured"@))
            },
            (HookStageView::AwaitNormalize, HookEvent::Normalized(Normalized::Event { trigger })) => if w.forge {
                w.after(ev).1 is Trigger && (w.after(ev).0.stage matches HookStageView::AwaitTrigger { trigger: t } && t
                    == trigger@)
            } else {
                w.after(ev).1 == HookActionView::Reply(ReplyView::Ignored("no forge configured"@))
            },
            (HookStageView::AwaitNormalize, HookEvent::Normalized(Normalized::Unsupported)) => w.after(ev).1
                == HookActionView::Reply(ReplyView::NotActedOn),
            (HookStageView::AwaitTrigger { trigger }, HookEvent::Triggered(Ok(runs))) => if runs@.len() > 0 {
                w.after(ev).1 matches HookActionView::Reply(ReplyView::Started { run_ids, trigger: t }) && t == trigger
                    && run_ids =~= runs@.map_values(|id: String| id@)
            } else {
                w.after(ev).1 == HookActionView::Reply(ReplyView::Ignored("no matching pipeline"@))
            },
            _ => true,
        },
{
}

/// What fails on the way is refused as what it is: a body that does not parse or cannot be read as a
/// bad request, the store as a server error, a trigger by its own message.
pub proof fn failed_deliveries_say_why(w: HookView, ev: HookEvent)
    ensures
        match (w.stage, ev) {
            (HookStageView::AwaitParse, HookEvent::Parsed(Err(m))) => w.after(ev).1 == HookActionView::Refuse(
                ApiErrorView::BadRequest("invalid JSON: "@ + m@),
            ),
            (HookStageView::AwaitRecord, HookEvent::Recorded(Err(m))) => w.after(ev).1 == HookActionView::Refuse(
                ApiErrorView::Db(m@),
            ),
            (HookStageView::AwaitRegister { .. }, HookEvent::Registered(Err(m))) => w.after(ev).1 == HookActionView::Refuse(
                ApiErrorView::Db(m@),
            ),
            (HookStageView::AwaitApply { .. }, HookEvent::Applied(Err(m))) => w.after(ev).1 == HookActionView::Refuse(
                ApiErrorView::Db(m@),
            ),
            (HookStageView::AwaitNormalize, HookEvent::Normalized(Normalized::Failed(m))) => w.after(ev).1
                == HookActionView::Refuse(ApiErrorView::BadRequest(m@)),
            (HookStageView::AwaitTrigger { .. }, HookEvent::Triggered(Err(e))) => w.after(ev).1 == HookActionView::Refuse(
                match e {
                    TriggerError::Db(m) => ApiErrorView::Db(m@),
                    TriggerError::Pipeline(m) => ApiErrorView::BadRequest("pipeline: "@ + m@),
                    TriggerError::NotUtf8 => ApiErrorView::BadRequest("config is not valid UTF-8"@),
                    TriggerError::ReasonRequired(m) => ApiErrorView::BadRequest(m@),
                    TriggerError::Forge(f) => ApiErrorView::BadRequest(f.message()),
                },
            ),
            _ => true,
        },
{
}

/// A delivery that started runs is answered as accepted, with the ids of all of them; any other that
/// was taken is answered as done.
pub proof fn started_runs_are_reported(r: ReplyView)
    ensures
        r.status() == 202 <==> r is Started,
        r.status() == 200 <==> !(r is Started),
        r matches ReplyView::Started { run_ids, trigger } ==> r.body().at("run_ids"@) == JsonView::Array(
            run_ids.map_values(|id: Seq<char>| JsonView::Str(id)),
        ) && r.body().at("trigger"@) == JsonView::Str(trigger),
        r matches ReplyView::Ignored(why) ==> r.body().at("ignored"@) == JsonView::Str(why),
{
    reveal_strlit("run_ids");
    reveal_strlit("trigger");
    reveal_strlit("ignored");
    assert("run_ids"@[0] == 'r' && "trigger"@[0] == 't');
    if let ReplyView::Started { run_ids, trigger } = r {
        let members = r.body()->Object_0;
        json::the_first_member_counts(members, "run_ids"@, 0);
        json::the_first_member_counts(members, "trigger"@, 1);
    }
}

/// A replayed delivery is acknowledged and not processed again.
pub proof fn replays_are_not_processed(w: HookView)
    requires
        w.stage == HookStageView::AwaitRecord,
    ensures
        w.after(HookEvent::Recorded(Ok(false))).1 == HookActionView::Reply(ReplyView::Ignored("duplicate delivery"@)),
        w.after(HookEvent::Recorded(Ok(false))).0.stage == HookStageView::Over,
{
}

/// Where deliveries are held against those seen before, one is acted on only once it was found
/// to be fresh.
pub proof fn only_fresh_deliveries_are_acted_on(w: HookView, ev: HookEvent)
    requires
        w.dedups(),
        w.stage == HookStageView::AwaitVerify || w.stage == HookStageView::AwaitParse || w.stage
            == HookStageView::AwaitRecord,
        w.after(ev).1 is ReadInstallation || w.after(ev).1 is Normalize,
    ensures
        w.stage == HookStageView::AwaitRecord,
        ev matches HookEvent::Recorded(Ok(fresh)) && fresh,
{
}

/// A header that Forgejo sends under its own name and under Gitea's: its own, unless that is
/// empty.
pub fn forgejo_header(forgejo: &str, gitea: &str) -> (r: String)
    ensures
        r@ == (if forgejo@.len() == 0 {
            gitea@
        } else {
            forgejo@
        }),
{
    if forgejo.unicode_len() == 0 {
        gitea.to_owned()
    } else {
        forgejo.to_owned()
    }
}

/// A delivery that is handed on waits for what it asked for: GitHub's for what kind of body it is,
/// Forgejo's for what the adapter reads. Whatever comes, a delivery stays what it is.
pub proof fn deliveries_wait_for_what_they_asked(w: HookView, ev: HookEvent)
    ensures
        w.after(ev).1 is ReadInstallation ==> w.after(ev).0.stage is AwaitInstallation,
        w.after(ev).1 is Normalize ==> w.after(ev).0.stage is AwaitNormalize,
        w.after(ev).1 is Record ==> w.after(ev).0.stage is AwaitRecord,
        w.after(ev).1 is Register ==> w.after(ev).0.stage is AwaitRegister,
        w.after(ev).1 is ApplyInstallation ==> w.after(ev).0.stage is AwaitApply,
        w.after(ev).1 is Trigger ==> w.after(ev).0.stage is AwaitTrigger,
        w.after(ev).1 is Reply || w.after(ev).1 is Refuse ==> w.after(ev).0.stage is Over,
        w.after(ev).0 == w.at(w.after(ev).0.stage),
        w.after(ev).0.kind == w.kind && w.after(ev).0.registry == w.registry && w.after(ev).0.forge == w.forge,
        w.after(ev).0.delivery_id == w.delivery_id,
{
}

/// A registered installation is answered with how many repos came and went, and an event that no
/// run can start from as ignored.
pub proof fn installations_are_reported(added: u64, removed: u64)
    ensures
        ({
            let told = ReplyView::Registered { added, removed }.body().at("registered"@);
            &&& told.at("added"@) == JsonView::Number(text::decimal(added as nat))
            &&& told.at("removed"@) == JsonView::Number(text::decimal(removed as nat))
        }),
        ReplyView::NotActedOn.body().at("ignored"@) == JsonView::Bool(true),
{
    reveal_strlit("added");
    reveal_strlit("removed");
    assert("added"@.len() != "removed"@.len());
    let outer = ReplyView::Registered { added, removed }.body()->Object_0;
    json::the_first_member_counts(outer, "registered"@, 0);
    let inner = outer[0].1->Object_0;
    json::the_first_member_counts(inner, "added"@, 0);
    json::the_first_member_counts(inner, "removed"@, 1);
    json::the_first_member_counts(ReplyView::NotActedOn.body()->Object_0, "ignored"@, 0);
}

} // verus!
