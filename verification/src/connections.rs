//! The forge connections: how they are listed, created and deleted, and who may change them.

use crate::admission::{SecretScope, SecretScopeView};
use crate::errors::{ApiError, ApiErrorView};
use crate::event::{RepoRef, RepoView};
use crate::ids;
use crate::order;
use crate::sort::{self, Ranked};
use crate::text;
use vstd::prelude::*;

verus! {

/// The org of the secret scope that holds the credentials of connections.
pub const FORGE_CREDENTIALS_ORG: &'static str = "_forge";

#[derive(Debug, Clone, Copy, PartialEq, Eq, Structural)]
pub enum ForgeKind {
    GitHub,
    Forgejo,
}

impl ForgeKind {
    /// The word a kind of forge goes by.
    pub open spec fn word(self) -> Seq<char> {
        match self {
            ForgeKind::GitHub => "github"@,
            ForgeKind::Forgejo => "forgejo"@,
        }
    }

    pub fn as_str(self) -> (r: &'static str)
        ensures
            r@ == self.word(),
    {
        match self {
            ForgeKind::GitHub => "github",
            ForgeKind::Forgejo => "forgejo",
        }
    }

    /// The kind a word stands for.
    pub open spec fn named(s: Seq<char>) -> Option<ForgeKind> {
        if s == "github"@ {
            Some(ForgeKind::GitHub)
        } else if s == "forgejo"@ {
            Some(ForgeKind::Forgejo)
        } else {
            None
        }
    }

    /// The kind a word stands for.
    pub fn from_str_token(s: &str) -> (r: Option<ForgeKind>)
        ensures
            r == ForgeKind::named(s@),
    {
        if text::str_eq(s, "github") {
            Some(ForgeKind::GitHub)
        } else if text::str_eq(s, "forgejo") {
            Some(ForgeKind::Forgejo)
        } else {
            None
        }
    }
}

/// Every kind of forge is the one its own word stands for.
pub proof fn forge_kinds_round_trip(k: ForgeKind)
    ensures
        ForgeKind::named(k.word()) == Some(k),
{
    reveal_strlit("github");
    reveal_strlit("forgejo");
    assert("github"@.len() != "forgejo"@.len());
}

/// The host of a forge's web pages, from the base of its API.
pub open spec fn web_host(kind: ForgeKind, base_url: Seq<char>) -> Seq<char> {
    let base = text::trim_end(base_url, '/');
    match kind {
        ForgeKind::Forgejo => base,
        ForgeKind::GitHub => if text::contains(base, "api.github.com"@) {
            "https://github.com"@
        } else {
            match text::without_suffix(base, "/api/v3"@) {
                Some(host) => host,
                None => base,
            }
        },
    }
}

/// The host of a forge's web pages: GitHub's API lives on a host or under a path of its own,
/// Forgejo's below its web host.
pub fn forge_web_host(kind: ForgeKind, base_url: &str) -> (r: String)
    ensures
        r@ == web_host(kind, base_url@),
{
    let base = text::trim_end_char(base_url, '/');
    match kind {
        ForgeKind::Forgejo => base,
        ForgeKind::GitHub => {
            if text::has_substring(base.as_str(), "api.github.com") {
                return "https://github.com".to_owned();
            }
            match text::strip_suffix(base.as_str(), "/api/v3") {
                Some(host) => host,
                None => base,
            }
        },
    }
}

/// The web page of a repo.
pub fn web_repo_url(kind: ForgeKind, base_url: &str, owner: &str, name: &str) -> (r: String)
    ensures
        r@ == web_host(kind, base_url@) + "/"@ + owner@ + "/"@ + name@,
{
    let mut url = forge_web_host(kind, base_url);
    url.append("/");
    url.append(owner);
    url.append("/");
    url.append(name);
    url
}

/// The endpoint that a forge's deliveries are posted to.
pub open spec fn webhook_url(public_url: Seq<char>, kind: ForgeKind) -> Seq<char> {
    text::trim_end(public_url, '/') + "/webhooks/"@ + kind.word()
}

/// The endpoint that a forge's deliveries are posted to.
pub fn forge_webhook_url(public_url: &str, kind: ForgeKind) -> (r: String)
    ensures
        r@ == webhook_url(public_url@, kind),
{
    let mut url = text::trim_end_char(public_url, '/');
    url.append("/webhooks/");
    url.append(kind.as_str());
    url
}

/// A registered connection. `credential_ref` is the handle its credential is stored under.
#[derive(Debug)]
pub struct ForgeConnection {
    pub id: String,
    pub kind: ForgeKind,
    pub base_url: String,
    pub credential_ref: String,
}

/// The mathematical model of a [`ForgeConnection`].
pub struct ConnectionView {
    pub id: Seq<char>,
    pub kind: ForgeKind,
    pub base_url: Seq<char>,
    pub credential_ref: Seq<char>,
}

impl View for ForgeConnection {
    type V = ConnectionView;

    open spec fn view(&self) -> ConnectionView {
        ConnectionView {
            id: self.id@,
            kind: self.kind,
            base_url: self.base_url@,
            credential_ref: self.credential_ref@,
        }
    }
}

pub open spec fn connection_views(v: Seq<ForgeConnection>) -> Seq<ConnectionView> {
    v.map_values(|c: ForgeConnection| c@)
}

/// Whether a caller may manage connections: a role allows it everywhere, or a binding allows it
/// in at least one org.
pub fn authorize_org_administer(globally_allowed: bool, admin_orgs: &Vec<String>) -> (r: Result<(), ApiError>)
    ensures
        if globally_allowed || admin_orgs@.len() > 0 {
            r is Ok
        } else {
            r matches Err(e) && e@ == ApiErrorView::Forbidden
        },
{
    if globally_allowed || admin_orgs.len() > 0 {
        Ok(())
    } else {
        Err(ApiError::Forbidden)
    }
}

/// Whether a connection's credential resolves: the deployment supplies it, or the secret store
/// has it. `stored` is what the store said, where there is one.
pub fn credential_present(overridden: bool, stored: Option<bool>) -> (r: bool)
    ensures
        r == (overridden || stored == Some(true)),
{
    if overridden {
        return true;
    }
    match stored {
        Some(found) => found,
        None => false,
    }
}

/// Where the credential of a connection is kept: under its handle in the scope of credentials.
pub fn connection_credential(conn: &ForgeConnection) -> (r: (SecretScope, String))
    ensures
        r.0@ == (SecretScopeView::Org { org: "_forge"@ }),
        r.1@ == conn.credential_ref@,
{
    (SecretScope::Org { org: FORGE_CREDENTIALS_ORG.to_owned() }, conn.credential_ref.clone())
}

/// A project that a connection serves.
#[derive(Debug)]
pub struct ConnectionProjectDto {
    pub org: String,
    pub project: String,
    pub owner: String,
    pub name: String,
}

impl Ranked for ConnectionProjectDto {
    open spec fn ranks_before(&self, other: &Self) -> bool {
        order::named_before((self.org@, self.project@), (other.org@, other.project@))
    }

    proof fn rank_total(a: &Self, b: &Self) {
        order::named_before_total((a.org@, a.project@), (b.org@, b.project@));
    }

    proof fn rank_transitive(a: &Self, b: &Self, c: &Self) {
        order::named_before_transitive((a.org@, a.project@), (b.org@, b.project@), (c.org@, c.project@));
    }

    fn may_precede(&self, other: &Self) -> (r: bool) {
        order::pair_le((self.org.as_str(), self.project.as_str()), (other.org.as_str(), other.project.as_str()))
    }
}

/// A connection as the settings list it: its handle, never its credential.
#[derive(Debug)]
pub struct ConnectionDto {
    pub id: String,
    pub kind: String,
    pub base_url: String,
    pub web_url: String,
    pub credential_ref: String,
    pub credential_present: bool,
    pub last_delivery_at: Option<i64>,
    pub projects: Vec<ConnectionProjectDto>,
    pub supports_resync: bool,
    pub managed_by_config: bool,
    pub supports_preflight: bool,
}

/// A connection with what the registry and the secret store say of it.
#[derive(Debug)]
pub struct ConnectionFacts {
    pub connection: ForgeConnection,
    pub projects: Vec<ConnectionProjectDto>,
    pub credential_present: bool,
    pub last_delivery_at: Option<i64>,
}

impl Ranked for ConnectionFacts {
    open spec fn ranks_before(&self, other: &Self) -> bool {
        text::lex_le(self.connection.id@, other.connection.id@)
    }

    proof fn rank_total(a: &Self, b: &Self) {
        text::lex_le_total(a.connection.id@, b.connection.id@);
    }

    proof fn rank_transitive(a: &Self, b: &Self, c: &Self) {
        text::lex_le_transitive(a.connection.id@, b.connection.id@, c.connection.id@);
    }

    fn may_precede(&self, other: &Self) -> (r: bool) {
        text::str_le(self.connection.id.as_str(), other.connection.id.as_str())
    }
}

/// The entry says of the connection what the facts say. What configuration owns is not offered
/// to be re-synced, and only GitHub can be asked what it granted.
pub open spec fn connection_shown(
    d: ConnectionDto,
    f: ConnectionFacts,
    forge_wired: bool,
    config_owned: Seq<Seq<char>>,
) -> bool {
    let c = f.connection;
    &&& d.id == c.id
    &&& d.kind@ == c.kind.word()
    &&& d.base_url == c.base_url
    &&& d.web_url@ == web_host(c.kind, c.base_url@)
    &&& d.credential_ref == c.credential_ref
    &&& d.credential_present == f.credential_present
    &&& d.last_delivery_at == f.last_delivery_at
    &&& d.projects@ == sort::sorted(f.projects@)
    &&& d.managed_by_config == config_owned.contains(c.id@)
    &&& d.supports_resync == (forge_wired && !config_owned.contains(c.id@))
    &&& d.supports_preflight == (forge_wired && c.kind == ForgeKind::GitHub)
}

/// The connections as the settings list them: by id, the projects of each by org and name.
pub fn list_connections(facts: Vec<ConnectionFacts>, forge_wired: bool, config_owned: &Vec<String>) -> (r: Vec<
    ConnectionDto,
>)
    ensures
        r@.len() == facts@.len(),
        r@.len() == sort::sorted(facts@).len(),
        forall|i: int|
            0 <= i < r@.len() ==> connection_shown(
                #[trigger] r@[i],
                sort::sorted(facts@)[i],
                forge_wired,
                text::views(config_owned@),
            ),
{
    proof {
        sort::sorted_is_ordered_permutation(facts@);
    }
    let ordered = sort::sort(facts);
    let mut out: Vec<ConnectionDto> = Vec::new();
    for f in it: ordered
        invariant
            it.seq() == ordered@,
            out@.len() == it.index(),
            forall|i: int|
                0 <= i < it.index() ==> connection_shown(
                    #[trigger] out@[i],
                    ordered@[i],
                    forge_wired,
                    text::views(config_owned@),
                ),
    {
        let managed = text::contains_string(config_owned, f.connection.id.as_str());
        let web_url = forge_web_host(f.connection.kind, f.connection.base_url.as_str());
        let github: bool = match f.connection.kind {
            ForgeKind::GitHub => true,
            ForgeKind::Forgejo => false,
        };
        out.push(
            ConnectionDto {
                id: f.connection.id,
                kind: f.connection.kind.as_str().to_owned(),
                base_url: f.connection.base_url,
                web_url,
                credential_ref: f.connection.credential_ref,
                credential_present: f.credential_present,
                last_delivery_at: f.last_delivery_at,
                projects: sort::sort(f.projects),
                supports_resync: forge_wired && !managed,
                managed_by_config: managed,
                supports_preflight: forge_wired && github,
            },
        );
    }
    out
}

/// A request to connect a forge. The credential is written to the secret store and never read
/// back.
#[derive(Debug)]
pub struct CreateConnectionRequest {
    pub kind: String,
    pub base_url: String,
    pub credential: String,
}

/// The answer to a created connection: its id and the handle of its credential.
#[derive(Debug)]
pub struct CreatedConnectionDto {
    pub id: String,
    pub credential_ref: String,
}

/// A connection to be registered, with the credential to be stored under its handle first.
#[derive(Debug)]
pub struct NewConnection {
    pub connection: ForgeConnection,
    pub credential: String,
}

/// The base of a forge's API as it is stored: without surrounding whitespace and trailing
/// slashes.
pub open spec fn stored_base_url(s: Seq<char>) -> Seq<char> {
    text::trim_end(text::trimmed(s), '/')
}

/// The id of the first connection to the forge at `base_url`.
pub open spec fn serving(existing: Seq<ConnectionView>, kind: ForgeKind, base_url: Seq<char>) -> Option<Seq<char>>
    decreases existing.len(),
{
    if existing.len() == 0 {
        None
    } else if existing[0].kind == kind && existing[0].base_url == base_url {
        Some(existing[0].id)
    } else {
        serving(existing.drop_first(), kind, base_url)
    }
}

/// What a request to connect a forge comes to: the connection and its credential, or the first
/// thing that stands in its way. `existing` is what the registry holds, or why it could not be
/// read.
pub open spec fn creation(
    req: CreateConnectionRequest,
    existing: Result<Seq<ConnectionView>, Seq<char>>,
    suffix: Seq<char>,
) -> Result<(ConnectionView, Seq<char>), ApiErrorView> {
    let base_url = stored_base_url(req.base_url@);
    let credential = text::trimmed(req.credential@);
    match ForgeKind::named(text::trimmed(req.kind@)) {
        None => Err(ApiErrorView::BadRequest("unknown forge kind `"@ + req.kind@ + "`"@)),
        Some(ForgeKind::GitHub) => Err(
            ApiErrorView::BadRequest(
                "GitHub connections register themselves when the Scarab App is installed — install it on the account instead of creating a connection here"@,
            ),
        ),
        Some(kind) => if !text::has_prefix(base_url, "http://"@) && !text::has_prefix(base_url, "https://"@) {
            Err(ApiErrorView::BadRequest("base_url must be an http(s) URL, e.g. https://codeberg.org"@))
        } else if credential.len() == 0 {
            Err(ApiErrorView::BadRequest("credential is required"@))
        } else {
            match existing {
                Err(m) => Err(ApiErrorView::BadRequest(m)),
                Ok(conns) => match serving(conns, kind, base_url) {
                    Some(id) => Err(ApiErrorView::Conflict("connection `"@ + id + "` already serves "@ + base_url)),
                    None => {
                        let (id, credential_ref) = ids::connection_ids(kind.word(), suffix);
                        Ok((ConnectionView { id, kind, base_url, credential_ref }, credential))
                    },
                },
            }
        },
    }
}

/// The outcome agrees with its model.
pub open spec fn creation_result(
    r: Result<NewConnection, ApiError>,
    s: Result<(ConnectionView, Seq<char>), ApiErrorView>,
) -> bool {
    match (r, s) {
        (Ok(n), Ok((c, credential))) => n.connection@ == c && n.credential@ == credential,
        (Err(e), Err(x)) => e@ == x,
        _ => false,
    }
}

fn serving_id(existing: &Vec<ForgeConnection>, kind: ForgeKind, base_url: &str) -> (r: Option<String>)
    ensures
        text::opt_view(r) == serving(connection_views(existing@), kind, base_url@),
{
    let ghost all = connection_views(existing@);
    let mut i: usize = 0;
    assert(all.skip(0) =~= all);
    while i < existing.len()
        invariant
            i <= existing@.len(),
            all == connection_views(existing@),
            serving(all, kind, base_url@) == serving(all.skip(i as int), kind, base_url@),
        decreases existing@.len() - i,
    {
        assert(all.skip(i as int)[0] == existing@[i as int]@);
        assert(all.skip(i as int).drop_first() =~= all.skip(i + 1));
        if existing[i].kind == kind && text::str_eq(existing[i].base_url.as_str(), base_url) {
            return Some(existing[i].id.clone());
        }
        i = i + 1;
    }
    None
}

pub open spec fn registry_view(existing: Result<Vec<ForgeConnection>, String>) -> Result<
    Seq<ConnectionView>,
    Seq<char>,
> {
    match existing {
        Ok(v) => Ok(connection_views(v@)),
        Err(m) => Err(m@),
    }
}

/// What a request to connect a forge comes to, where the ids are to end in `suffix`.
pub fn new_connection(req: CreateConnectionRequest, existing: Result<Vec<ForgeConnection>, String>, suffix: &str) -> (r:
    Result<NewConnection, ApiError>)
    requires
        suffix@.len() >= 8,
    ensures
        creation_result(r, creation(req, registry_view(existing), suffix@)),
{
    let word = text::trim(req.kind.as_str());
    let kind = match ForgeKind::from_str_token(word.as_str()) {
        Some(kind) => kind,
        None => {
            let mut m: String = "unknown forge kind `".to_owned();
            m.append(req.kind.as_str());
            m.append("`");
            return Err(ApiError::BadRequest(m));
        },
    };
    if kind == ForgeKind::GitHub {
        return Err(
            ApiError::BadRequest(
                "GitHub connections register themselves when the Scarab App is installed — install it on the account instead of creating a connection here".to_owned(),
            ),
        );
    }
    let trimmed = text::trim(req.base_url.as_str());
    let base_url = text::trim_end_char(trimmed.as_str(), '/');
    if !text::starts_with(base_url.as_str(), "http://") && !text::starts_with(base_url.as_str(), "https://") {
        return Err(ApiError::BadRequest("base_url must be an http(s) URL, e.g. https://codeberg.org".to_owned()));
    }
    let credential = text::trim(req.credential.as_str());
    if credential.as_str().unicode_len() == 0 {
        return Err(ApiError::BadRequest("credential is required".to_owned()));
    }
    let conns = match existing {
        Ok(v) => v,
        Err(m) => {
            return Err(ApiError::BadRequest(m));
        },
    };
    match serving_id(&conns, kind, base_url.as_str()) {
        Some(id) => {
            let mut m: String = "connection `".to_owned();
            m.append(id.as_str());
            m.append("` already serves ");
            m.append(base_url.as_str());
            Err(ApiError::Conflict(m))
        },
        None => {
            let (id, credential_ref) = ids::connection_ids_of(kind.as_str(), suffix);
            Ok(NewConnection { connection: ForgeConnection { id, kind, base_url, credential_ref }, credential })
        },
    }
}

/// What a request to connect a forge comes to, with freshly minted ids.
pub fn create_connection(req: CreateConnectionRequest, existing: Result<Vec<ForgeConnection>, String>) -> (r: Result<
    NewConnection,
    ApiError,
>)
    ensures
        exists|suffix: Seq<char>| #[trigger]
            ids::simple_uuid(suffix) && creation_result(r, creation(req, registry_view(existing), suffix)),
{
    let suffix = ids::uuid_v4_simple();
    new_connection(req, existing, suffix.as_str())
}

/// A forge at one base is connected at most once: a connection is created only where none serves
/// that forge yet.
pub proof fn forges_are_connected_once(
    req: CreateConnectionRequest,
    existing: Seq<ConnectionView>,
    suffix: Seq<char>,
    i: int,
)
    requires
        creation(req, Ok(existing), suffix) is Ok,
        0 <= i < existing.len(),
    ensures
        ({
            let c = creation(req, Ok(existing), suffix)->Ok_0;
            existing[i].kind != c.0.kind || existing[i].base_url != c.0.base_url
        }),
{
    let c = creation(req, Ok(existing), suffix)->Ok_0;
    not_serving(existing, c.0.kind, c.0.base_url, i);
}

proof fn not_serving(existing: Seq<ConnectionView>, kind: ForgeKind, base_url: Seq<char>, i: int)
    requires
        serving(existing, kind, base_url) is None,
        0 <= i < existing.len(),
    ensures
        existing[i].kind != kind || existing[i].base_url != base_url,
    decreases existing.len(),
{
    if i > 0 {
        not_serving(existing.drop_first(), kind, base_url, i - 1);
        assert(existing.drop_first()[i - 1] == existing[i]);
    }
}

/// A request to delete a connection: whether its projects may go with it.
#[derive(Debug)]
pub struct DeleteConnectionQuery {
    pub unbind_repos: bool,
}

/// A repo by its owner and name.
pub open spec fn slug(r: RepoView) -> Seq<char> {
    r.owner + "/"@ + r.name
}

pub fn repo_slug(r: &RepoRef) -> (s: String)
    ensures
        s@ == slug(r@),
{
    let mut s = r.owner.clone();
    s.append("/");
    s.append(r.name.as_str());
    s
}

pub open spec fn slugs(v: Seq<RepoRef>) -> Seq<Seq<char>> {
    v.map_values(|r: RepoRef| slug(r@))
}

/// The slugs of repos.
pub fn repo_slugs(repos: &Vec<RepoRef>) -> (r: Vec<String>)
    ensures
        text::views(r@) == slugs(repos@),
{
    let mut out: Vec<String> = Vec::new();
    let mut i: usize = 0;
    while i < repos.len()
        invariant
            i <= repos@.len(),
            text::views(out@) =~= slugs(repos@).take(i as int),
        decreases repos@.len() - i,
    {
        let ghost before = text::views(out@);
        let s = repo_slug(&repos[i]);
        out.push(s);
        assert(text::views(out@) =~= before.push(slug(repos@[i as int]@)));
        assert(slugs(repos@).take(i + 1) =~= slugs(repos@).take(i as int).push(slug(repos@[i as int]@)));
        i = i + 1;
    }
    assert(slugs(repos@).take(i as int) =~= slugs(repos@));
    out
}

/// Why a connection with bound repos is kept.
pub open spec fn still_serves(id: Seq<char>, bound: Seq<RepoRef>) -> Seq<char> {
    "connection `"@ + id + "` still serves "@ + text::decimal(bound.len()) + " project(s): "@ + text::join(
        slugs(bound),
        ", "@,
    ) + " — pass unbind_repos=true to remove them with it"@
}

/// Whether a connection may be deleted: nothing is bound to it, or the caller takes its projects
/// with it.
pub fn delete_connection(id: &str, bound: &Vec<RepoRef>, q: &DeleteConnectionQuery) -> (r: Result<(), ApiError>)
    ensures
        if bound@.len() == 0 || q.unbind_repos {
            r is Ok
        } else {
            r matches Err(e) && e@ == ApiErrorView::Conflict(still_serves(id@, bound@))
        },
{
    if bound.len() == 0 || q.unbind_repos {
        return Ok(());
    }
    let names = repo_slugs(bound);
    let joined = text::join_strings(&names, ", ");
    let mut m: String = "connection `".to_owned();
    m.append(id);
    m.append("` still serves ");
    m.append(text::u64_to_string(bound.len() as u64).as_str());
    m.append(" project(s): ");
    m.append(joined.as_str());
    m.append(" — pass unbind_repos=true to remove them with it");
    Err(ApiError::Conflict(m))
}

/// A connection uses the handle.
pub open spec fn referenced(connections: Seq<ConnectionView>, credential_ref: Seq<char>) -> bool {
    exists|i: int| 0 <= i < connections.len() && (#[trigger] connections[i]).credential_ref == credential_ref
}

/// Whether a deleted connection's credential is to be deleted too: only where no remaining
/// connection uses its handle.
pub fn credential_is_orphaned(remaining: &Vec<ForgeConnection>, credential_ref: &str) -> (r: bool)
    ensures
        r == !referenced(connection_views(remaining@), credential_ref@),
{
    let ghost all = connection_views(remaining@);
    let mut i: usize = 0;
    while i < remaining.len()
        invariant
            i <= remaining@.len(),
            all == connection_views(remaining@),
            forall|j: int| 0 <= j < i ==> (#[trigger] all[j]).credential_ref != credential_ref@,
        decreases remaining@.len() - i,
    {
        assert(all[i as int] == remaining@[i as int]@);
        if text::str_eq(remaining[i].credential_ref.as_str(), credential_ref) {
            return false;
        }
        i = i + 1;
    }
    true
}

/// Why a write to a connection that configuration owns is refused.
pub open spec fn owned_by_config(id: Seq<char>, what: Seq<char>) -> Seq<char> {
    "connection `"@ + id + "` is managed by configuration (ADR-0060 part D) — "@ + what
        + " is declared in the `connections:` block. Change it there and redeploy."@
}

/// Refuses a write to a connection that configuration owns, and says where the change belongs.
pub fn deny_if_config_owned(owned: bool, id: &str, what: &str) -> (r: Result<(), ApiError>)
    ensures
        if owned {
            r matches Err(e) && e@ == ApiErrorView::Conflict(owned_by_config(id@, what@))
        } else {
            r is Ok
        },
{
    if !owned {
        return Ok(());
    }
    let mut m: String = "connection `".to_owned();
    m.append(id);
    m.append("` is managed by configuration (ADR-0060 part D) — ");
    m.append(what);
    m.append(" is declared in the `connections:` block. Change it there and redeploy.");
    Err(ApiError::Conflict(m))
}

/// Each kind of forge goes by its own word, and no other word stands for a forge.
pub proof fn forges_go_by_their_names(s: Seq<char>)
    ensures
        ForgeKind::named("github"@) == Some(ForgeKind::GitHub),
        ForgeKind::named("forgejo"@) == Some(ForgeKind::Forgejo),
        s != "github"@ && s != "forgejo"@ ==> ForgeKind::named(s) is None,
        ForgeKind::GitHub.word() == "github"@,
        ForgeKind::Forgejo.word() == "forgejo"@,
{
    forge_kinds_round_trip(ForgeKind::GitHub);
    forge_kinds_round_trip(ForgeKind::Forgejo);
}

/// A forge's pages stand where its API does, without trailing slashes; those of GitHub's own API
/// stand on github.com, and those of a hosted GitHub one level above its API.
pub proof fn pages_stand_beside_the_api(base_url: Seq<char>, host: Seq<char>)
    ensures
        web_host(ForgeKind::Forgejo, base_url) == text::trim_end(base_url, '/'),
        text::contains(text::trim_end(base_url, '/'), "api.github.com"@) ==> web_host(ForgeKind::GitHub, base_url)
            == "https://github.com"@,
        !text::contains(host + "/api/v3"@, "api.github.com"@) ==> web_host(ForgeKind::GitHub, host + "/api/v3"@) == host,
{
    reveal_strlit("/api/v3");
    let full = host + "/api/v3"@;
    assert(full.last() == '3');
    assert(text::trim_end(full, '/') == full);
    assert(full.take(full.len() - "/api/v3"@.len()) =~= host);
    assert(full.skip(full.len() - "/api/v3"@.len()) =~= "/api/v3"@);
}

/// The connection that serves a forge is the first of its kind at its base.
pub proof fn the_first_connection_serves(existing: Seq<ConnectionView>, kind: ForgeKind, base_url: Seq<char>, i: int)
    requires
        0 <= i < existing.len(),
        existing[i].kind == kind,
        existing[i].base_url == base_url,
        forall|j: int|
            0 <= j < i ==> (#[trigger] existing[j]).kind != kind || existing[j].base_url != base_url,
    ensures
        serving(existing, kind, base_url) == Some(existing[i].id),
    decreases i,
{
    if i > 0 {
        let rest = existing.drop_first();
        assert(existing[0].kind != kind || existing[0].base_url != base_url);
        assert forall|j: int| 0 <= j < i - 1 implies (#[trigger] rest[j]).kind != kind || rest[j].base_url != base_url by {
            assert(rest[j] == existing[j + 1]);
        }
        assert(rest[i - 1] == existing[i]);
        the_first_connection_serves(rest, kind, base_url, i - 1);
    }
}

/// A forge is connected where the request names a Forgejo at a web address with a credential and
/// no connection serves it yet: the connection has the trimmed address, and the trimmed
/// credential is stored under the handle that the connection names.
pub proof fn forges_are_connected_as_requested(
    req: CreateConnectionRequest,
    existing: Seq<ConnectionView>,
    suffix: Seq<char>,
)
    ensures
        ({
            let base_url = text::trim_end(text::trimmed(req.base_url@), '/');
            let credential = text::trimmed(req.credential@);
            let kind = text::trimmed(req.kind@);
            let made = creation(req, Ok(existing), suffix);
            let acceptable = kind == "forgejo"@ && (text::has_prefix(base_url, "http://"@) || text::has_prefix(
                base_url,
                "https://"@,
            )) && credential.len() > 0;
            let taken = exists|i: int|
                0 <= i < existing.len() && (#[trigger] existing[i]).kind == ForgeKind::Forgejo && existing[i].base_url
                    == base_url;
            &&& made is Ok <==> acceptable && !taken
            &&& made matches Ok((c, stored)) ==> {
                &&& c.kind == ForgeKind::Forgejo
                &&& c.base_url == base_url
                &&& stored == credential
                &&& (c.id, c.credential_ref) == ids::connection_ids("forgejo"@, suffix)
            }
            &&& made matches Err(e) ==> if acceptable {
                e is Conflict
            } else {
                e is BadRequest
            }
        }),
{
    reveal_strlit("github");
    reveal_strlit("forgejo");
    forges_go_by_their_names(text::trimmed(req.kind@));
    let base_url = stored_base_url(req.base_url@);
    if exists|i: int|
        0 <= i < existing.len() && (#[trigger] existing[i]).kind == ForgeKind::Forgejo && existing[i].base_url == base_url {
        let i = choose|i: int|
            0 <= i < existing.len() && (#[trigger] existing[i]).kind == ForgeKind::Forgejo && existing[i].base_url
                == base_url;
        if serving(existing, ForgeKind::Forgejo, base_url) is None {
            not_serving(existing, ForgeKind::Forgejo, base_url, i);
        }
    } else {
        unserved(existing, ForgeKind::Forgejo, base_url);
    }
}

proof fn unserved(existing: Seq<ConnectionView>, kind: ForgeKind, base_url: Seq<char>)
    requires
        forall|i: int| 0 <= i < existing.len() ==> (#[trigger] existing[i]).kind != kind || existing[i].base_url != base_url,
    ensures
        serving(existing, kind, base_url) is None,
    decreases existing.len(),
{
    if existing.len() > 0 {
        let rest = existing.drop_first();
        assert(existing[0].kind != kind || existing[0].base_url != base_url);
        assert forall|i: int| 0 <= i < rest.len() implies (#[trigger] rest[i]).kind != kind || rest[i].base_url != base_url by {
            assert(rest[i] == existing[i + 1]);
        }
        unserved(rest, kind, base_url);
    }
}

/// A listed connection says what is known of it. Configuration owns what it names, and what it
/// owns is not offered to be re-synced; only GitHub can be asked what it granted, and nothing is
/// offered where no forge is wired.
pub proof fn connections_are_listed_as_they_are(
    d: ConnectionDto,
    f: ConnectionFacts,
    forge_wired: bool,
    config_owned: Seq<Seq<char>>,
)
    requires
        connection_shown(d, f, forge_wired, config_owned),
    ensures
        d.id == f.connection.id && d.base_url == f.connection.base_url && d.credential_ref == f.connection.credential_ref,
        d.credential_present == f.credential_present && d.last_delivery_at == f.last_delivery_at,
        f.connection.kind is GitHub ==> d.kind@ == "github"@,
        f.connection.kind is Forgejo ==> d.kind@ == "forgejo"@ && d.web_url@ == text::trim_end(f.connection.base_url@, '/'),
        d.managed_by_config <==> config_owned.contains(f.connection.id@),
        d.supports_resync <==> forge_wired && !d.managed_by_config,
        d.supports_preflight <==> forge_wired && f.connection.kind is GitHub,
        d.projects@.to_multiset() == f.projects@.to_multiset(),
{
    sort::sorted_is_ordered_permutation(f.projects@);
}

/// A forge's deliveries are posted to the server's own address, without trailing slashes, under
/// the kind of the forge.
pub proof fn deliveries_are_posted_to_their_kind(public_url: Seq<char>)
    ensures
        webhook_url(public_url, ForgeKind::GitHub) == text::trim_end(public_url, '/') + "/webhooks/github"@,
        webhook_url(public_url, ForgeKind::Forgejo) == text::trim_end(public_url, '/') + "/webhooks/forgejo"@,
{
    reveal_strlit("/webhooks/");
    reveal_strlit("github");
    reveal_strlit("forgejo");
    reveal_strlit("/webhooks/github");
    reveal_strlit("/webhooks/forgejo");
    assert(webhook_url(public_url, ForgeKind::GitHub) =~= text::trim_end(public_url, '/') + "/webhooks/github"@);
    assert(webhook_url(public_url, ForgeKind::Forgejo) =~= text::trim_end(public_url, '/') + "/webhooks/forgejo"@);
}

/// A repo goes by its owner and its name, in the order of the repos.
pub proof fn repos_go_by_owner_and_name(repos: Seq<RepoRef>, i: int)
    requires
        0 <= i < repos.len(),
    ensures
        slugs(repos).len() == repos.len(),
        slugs(repos)[i] == repos[i].owner@ + "/"@ + repos[i].name@,
{
}

/// A credential is in use exactly where a connection names its handle.
pub proof fn handles_are_used_by_their_connections(connections: Seq<ConnectionView>, i: int, handle: Seq<char>)
    ensures
        0 <= i < connections.len() ==> referenced(connections, connections[i].credential_ref),
        (forall|j: int| 0 <= j < connections.len() ==> (#[trigger] connections[j]).credential_ref != handle) ==> !referenced(
            connections,
            handle,
        ),
{
}

/// A kept connection is said to serve how many projects and which; a connection of the
/// configuration is said to be its own, with what was to be changed.
pub proof fn kept_connections_say_what_they_serve(id: Seq<char>, bound: Seq<RepoRef>, what: Seq<char>)
    ensures
        text::has_prefix(
            still_serves(id, bound),
            "connection `"@ + id + "` still serves "@ + text::decimal(bound.len()) + " project(s): "@ + text::join(
                slugs(bound),
                ", "@,
            ),
        ),
        text::has_prefix(owned_by_config(id, what), "connection `"@ + id + "` is managed by configuration"@),
        text::contains(owned_by_config(id, what), what),
{
    let a = "connection `"@ + id + "` still serves "@ + text::decimal(bound.len()) + " project(s): "@ + text::join(
        slugs(bound),
        ", "@,
    );
    assert(still_serves(id, bound).subrange(0, a.len() as int) =~= a);
    reveal_strlit("` is managed by configuration");
    reveal_strlit("` is managed by configuration (ADR-0060 part D) — ");
    let owned = owned_by_config(id, what);
    let b = "connection `"@ + id + "` is managed by configuration"@;
    assert(owned.subrange(0, b.len() as int) =~= b);
    let c = "connection `"@ + id + "` is managed by configuration (ADR-0060 part D) — "@;
    assert(owned.subrange(c.len() as int, c.len() as int + what.len()) =~= what);
    assert(text::occurs_at(owned, what, c.len() as int));
}

} // verus!
