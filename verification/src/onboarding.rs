//! Bringing repos under a connection: what its credential reaches, binding and unbinding repos,
//! and whether the forge grants what the server needs.

use crate::connections::{self, ConnectionProjectDto, ForgeConnection, ForgeKind};
use crate::errors::{ApiError, ApiErrorView, ForgeError};
use crate::event::{RepoRef, RepoView};
use crate::order;
use crate::sort::{self, Ranked};
use crate::text;
use vstd::prelude::*;

verus! {

/// A capability that the server needs of a forge app.
#[derive(Debug)]
pub struct CapabilityRequirementDto {
    /// `permission` or `event`.
    pub kind: String,
    pub name: String,
    /// The least level of a permission; an event has none.
    pub level: Option<String>,
    /// `required` or `recommended`.
    pub severity: String,
    /// What breaks without it.
    pub why: String,
}

/// A permission that the forge reports as granted.
#[derive(Debug)]
pub struct GrantedPermissionDto {
    pub name: String,
    pub level: String,
}

/// How a connection's app configuration stands against what the server needs.
#[derive(Debug)]
pub struct ConnectionPreflightDto {
    pub id: String,
    pub kind: String,
    /// `ok`, `degraded` or `unknown`.
    pub status: String,
    /// Whether the forge answered.
    pub checked: bool,
    pub unavailable_reason: Option<String>,
    pub required: Vec<CapabilityRequirementDto>,
    pub missing: Vec<CapabilityRequirementDto>,
    pub granted_permissions: Vec<GrantedPermissionDto>,
    pub subscribed_events: Vec<String>,
}

/// How far a preflight came.
#[derive(Debug)]
pub enum PreflightRead {
    /// The credential does not resolve: there is nothing to ask with.
    NoCredential,
    /// No adapter serves the connection.
    NoAdapter,
    /// The forge could not be asked or did not answer.
    Failed(ForgeError),
    /// What the forge grants, what of the requirements it does not, and whether a required
    /// capability is among those.
    Granted {
        permissions: Vec<GrantedPermissionDto>,
        events: Vec<String>,
        missing: Vec<CapabilityRequirementDto>,
        degraded: bool,
    },
}

/// Why a preflight has no answer.
pub open spec fn preflight_reason(c: ForgeConnection, read: PreflightRead) -> Option<Seq<char>> {
    match read {
        PreflightRead::NoCredential => Some(
            "the credential `"@ + c.credential_ref@ + "` does not resolve, so the forge cannot be asked"@,
        ),
        PreflightRead::NoAdapter => Some("no forge adapter is wired for this connection"@),
        PreflightRead::Failed(ForgeError::Unsupported { what, rendered: _ }) => Some(
            c.kind.word() + " cannot report its granted permissions or subscribed events ("@ + what@ + ")"@,
        ),
        PreflightRead::Failed(e) => Some(e.message()),
        PreflightRead::Granted { permissions, events, missing, degraded } => None,
    }
}

fn reason(c: &ForgeConnection, read: PreflightRead) -> (r: String)
    requires
        read !is Granted,
    ensures
        Some(r@) == preflight_reason(*c, read),
{
    match read {
        PreflightRead::NoCredential => {
            let mut m: String = "the credential `".to_owned();
            m.append(c.credential_ref.as_str());
            m.append("` does not resolve, so the forge cannot be asked");
            m
        },
        PreflightRead::Failed(ForgeError::Unsupported { what, rendered: _ }) => {
            let mut m: String = c.kind.as_str().to_owned();
            m.append(" cannot report its granted permissions or subscribed events (");
            m.append(what.as_str());
            m.append(")");
            m
        },
        PreflightRead::Failed(e) => e.into_message(),
        _ => "no forge adapter is wired for this connection".to_owned(),
    }
}

/// The preflight of a connection that could not be checked: no gap is claimed, the requirements
/// are still listed, and a sentence says why.
pub fn preflight_unknown(conn: &ForgeConnection, required: Vec<CapabilityRequirementDto>, reason: String) -> (r:
    ConnectionPreflightDto)
    ensures
        r.id@ == conn.id@,
        r.kind@ == conn.kind.word(),
        r.status@ == "unknown"@,
        !r.checked,
        r.unavailable_reason == Some(reason),
        r.required == required,
        r.missing@.len() == 0,
        r.granted_permissions@.len() == 0,
        r.subscribed_events@.len() == 0,
{
    ConnectionPreflightDto {
        id: conn.id.clone(),
        kind: conn.kind.as_str().to_owned(),
        status: "unknown".to_owned(),
        checked: false,
        unavailable_reason: Some(reason),
        required,
        missing: Vec::new(),
        granted_permissions: Vec::new(),
        subscribed_events: Vec::new(),
    }
}

/// The preflight of a connection. One that could not be asked is `unknown`, never `ok`.
pub fn connection_preflight(conn: &ForgeConnection, required: Vec<CapabilityRequirementDto>, read: PreflightRead) -> (r:
    ConnectionPreflightDto)
    ensures
        r.id@ == conn.id@,
        r.kind@ == conn.kind.word(),
        r.required == required,
        r.checked == (read is Granted),
        text::opt_view(r.unavailable_reason) == preflight_reason(*conn, read),
        match read {
            PreflightRead::Granted { permissions, events, missing, degraded } => r.status@ == (if degraded {
                "degraded"@
            } else {
                "ok"@
            }) && r.missing == missing && r.granted_permissions == permissions && r.subscribed_events == events,
            _ => r.status@ == "unknown"@ && r.missing@.len() == 0 && r.granted_permissions@.len() == 0
                && r.subscribed_events@.len() == 0,
        },
{
    match read {
        PreflightRead::Granted { permissions, events, missing, degraded } => ConnectionPreflightDto {
            id: conn.id.clone(),
            kind: conn.kind.as_str().to_owned(),
            status: if degraded {
                "degraded".to_owned()
            } else {
                "ok".to_owned()
            },
            checked: true,
            unavailable_reason: None,
            required,
            missing,
            granted_permissions: permissions,
            subscribed_events: events,
        },
        read => {
            let why = reason(conn, read);
            preflight_unknown(conn, required, why)
        },
    }
}

/// The repos that the forge reports for a credential. An adapter that cannot enumerate is no
/// empty list.
pub fn enumerated(kind: ForgeKind, listed: Result<Vec<RepoRef>, ForgeError>) -> (r: Result<Vec<RepoRef>, ApiError>)
    ensures
        match listed {
            Ok(v) => r == Ok::<Vec<RepoRef>, ApiError>(v),
            Err(ForgeError::Unsupported { what, rendered: _ }) => r matches Err(e) && e@ == ApiErrorView::NotImplemented(
                kind.word() + " cannot enumerate repos ("@ + what@ + ")"@,
            ),
            Err(f) => r matches Err(e) && e@ == ApiErrorView::BadRequest(f.message()),
        },
{
    match listed {
        Ok(v) => Ok(v),
        Err(ForgeError::Unsupported { what, rendered: _ }) => {
            let mut m: String = kind.as_str().to_owned();
            m.append(" cannot enumerate repos (");
            m.append(what.as_str());
            m.append(")");
            Err(ApiError::NotImplemented(m))
        },
        Err(f) => Err(ApiError::BadRequest(f.into_message())),
    }
}

pub open spec fn repo_views(v: Seq<RepoRef>) -> Seq<RepoView> {
    v.map_values(|r: RepoRef| r@)
}

fn knows(known: &Vec<RepoRef>, repo: &RepoRef) -> (r: bool)
    ensures
        r == repo_views(known@).contains(repo@),
{
    let ghost all = repo_views(known@);
    let mut i: usize = 0;
    while i < known.len()
        invariant
            i <= known@.len(),
            all == repo_views(known@),
            forall|j: int| 0 <= j < i ==> #[trigger] all[j] != repo@,
        decreases known@.len() - i,
    {
        assert(all[i as int] == known@[i as int]@);
        if known[i].owner == repo.owner && known[i].name == repo.name {
            assert(all[i as int] == repo@);
            return true;
        }
        assert(all[i as int] != repo@);
        i = i + 1;
    }
    false
}

/// Why a connection that configuration owns is not re-synced.
pub open spec fn resync_refusal(id: Seq<char>) -> Seq<char> {
    "connection `"@ + id
        + "` is managed by configuration (ADR-0060 part D) — its repos are declared in the `connections:` block. Add the repo there and redeploy."@
}

/// Refuses to re-sync a connection that configuration owns.
pub fn deny_resync_if_config_owned(owned: bool, id: &str) -> (r: Result<(), ApiError>)
    ensures
        if owned {
            r matches Err(e) && e@ == ApiErrorView::Conflict(resync_refusal(id@))
        } else {
            r is Ok
        },
{
    if !owned {
        return Ok(());
    }
    let mut m: String = "connection `".to_owned();
    m.append(id);
    m.append(
        "` is managed by configuration (ADR-0060 part D) — its repos are declared in the `connections:` block. Add the repo there and redeploy.",
    );
    Err(ApiError::Conflict(m))
}

/// What a re-sync changed: the repos it bound, and how many bindings the forge confirms.
#[derive(Debug)]
pub struct ResyncResultDto {
    pub bound: Vec<String>,
    pub confirmed: usize,
}

/// What a re-sync does: the repos to bind, and how many bindings the forge confirms.
#[derive(Debug)]
pub struct ResyncPlan {
    pub bind: Vec<RepoRef>,
    pub confirmed: usize,
}

/// The reported repos that are not bound yet, in the order of the report.
pub open spec fn unbound(reported: Seq<RepoView>, known: Seq<RepoView>) -> Seq<RepoView>
    decreases reported.len(),
{
    if reported.len() == 0 {
        Seq::empty()
    } else if known.contains(reported.last()) {
        unbound(reported.drop_last(), known)
    } else {
        unbound(reported.drop_last(), known).push(reported.last())
    }
}

/// What re-syncing against the forge's report does: it binds every reported repo that is not
/// bound yet, and unbinds none.
pub fn resync(reported: Vec<RepoRef>, known: &Vec<RepoRef>) -> (r: ResyncPlan)
    ensures
        repo_views(r.bind@) == unbound(repo_views(reported@), repo_views(known@)),
        r.confirmed + r.bind@.len() == reported@.len(),
{
    let ghost all = repo_views(reported@);
    let ghost have = repo_views(known@);
    let mut bind: Vec<RepoRef> = Vec::new();
    let mut confirmed: usize = 0;
    let total: usize = reported.len();
    assert(repo_views(bind@) =~= unbound(all.take(0), have));
    for repo in it: reported
        invariant
            it.seq() == reported@,
            all == repo_views(reported@),
            have == repo_views(known@),
            confirmed + bind@.len() == it.index(),
            it.index() <= reported@.len(),
            total == reported@.len(),
            repo_views(bind@) == unbound(all.take(it.index()), have),
    {
        let ghost k = it.index();
        let ghost before = repo_views(bind@);
        assert(all.take(k + 1).drop_last() =~= all.take(k));
        assert(all.take(k + 1).last() == repo@);
        if knows(known, &repo) {
            assert(confirmed < total);
            confirmed = confirmed + 1;
        } else {
            let ghost v = repo@;
            bind.push(repo);
            assert(repo_views(bind@) =~= before.push(v));
        }
    }
    assert(all.take(all.len() as int) =~= all);
    ResyncPlan { bind, confirmed }
}

/// What a carried-out re-sync is answered with.
pub fn resync_result(plan: &ResyncPlan) -> (r: ResyncResultDto)
    ensures
        text::views(r.bound@) == connections::slugs(plan.bind@),
        r.confirmed == plan.confirmed,
{
    ResyncResultDto { bound: connections::repo_slugs(&plan.bind), confirmed: plan.confirmed }
}

/// After a re-sync every reported repo is bound, and what was bound stays bound.
pub proof fn resync_closes_the_gap(reported: Seq<RepoView>, known: Seq<RepoView>, repo: RepoView)
    ensures
        reported.contains(repo) ==> (known + unbound(reported, known)).contains(repo),
        known.contains(repo) ==> (known + unbound(reported, known)).contains(repo),
        unbound(reported, known).contains(repo) ==> reported.contains(repo) && !known.contains(repo),
    decreases reported.len(),
{
    let after = known + unbound(reported, known);
    if known.contains(repo) {
        let k = choose|k: int| 0 <= k < known.len() && known[k] == repo;
        assert(after[k] == repo);
    }
    if reported.len() > 0 {
        let rest = reported.drop_last();
        resync_closes_the_gap(rest, known, repo);
        if unbound(rest, known).contains(repo) {
            let k = choose|k: int| 0 <= k < unbound(rest, known).len() && unbound(rest, known)[k] == repo;
            assert(unbound(reported, known)[k] == repo);
            assert(after[known.len() + k] == repo);
        }
        if reported.contains(repo) && !known.contains(repo) {
            let k = choose|k: int| 0 <= k < reported.len() && reported[k] == repo;
            if k < rest.len() {
                assert(rest[k] == repo);
                let j = choose|j: int|
                    0 <= j < (known + unbound(rest, known)).len() && (known + unbound(rest, known))[j] == repo;
                assert(j >= known.len());
                assert(unbound(rest, known)[j - known.len()] == repo);
            } else {
                assert(after[after.len() - 1] == repo);
            }
        }
        if unbound(reported, known).contains(repo) && !unbound(rest, known).contains(repo) {
            let k = choose|k: int| 0 <= k < unbound(reported, known).len() && unbound(reported, known)[k] == repo;
            if k < unbound(rest, known).len() {
                assert(unbound(rest, known)[k] == repo);
            }
            assert(reported[reported.len() - 1] == repo);
        }
        if rest.contains(repo) {
            let k = choose|k: int| 0 <= k < rest.len() && rest[k] == repo;
            assert(reported[k] == repo);
        }
    }
}

/// A repo that a connection's credential reaches.
#[derive(Debug)]
pub struct AvailableRepoDto {
    pub owner: String,
    pub name: String,
    /// Already a project on this connection.
    pub bound: bool,
}

impl Ranked for RepoRef {
    open spec fn ranks_before(&self, other: &Self) -> bool {
        order::named_before((self.owner@, self.name@), (other.owner@, other.name@))
    }

    proof fn rank_total(a: &Self, b: &Self) {
        order::named_before_total((a.owner@, a.name@), (b.owner@, b.name@));
    }

    proof fn rank_transitive(a: &Self, b: &Self, c: &Self) {
        order::named_before_transitive((a.owner@, a.name@), (b.owner@, b.name@), (c.owner@, c.name@));
    }

    fn may_precede(&self, other: &Self) -> (r: bool) {
        order::pair_le((self.owner.as_str(), self.name.as_str()), (other.owner.as_str(), other.name.as_str()))
    }
}

pub open spec fn repo_offered(d: AvailableRepoDto, repo: RepoRef, bound: Seq<RepoView>) -> bool {
    d.owner == repo.owner && d.name == repo.name && d.bound == bound.contains(repo@)
}

/// The reported repos by owner and name, each with whether it is bound already.
pub fn available_repos(reported: Vec<RepoRef>, bound: &Vec<RepoRef>) -> (r: Vec<AvailableRepoDto>)
    ensures
        r@.len() == reported@.len(),
        r@.len() == sort::sorted(reported@).len(),
        forall|i: int|
            0 <= i < r@.len() ==> repo_offered(#[trigger] r@[i], sort::sorted(reported@)[i], repo_views(bound@)),
{
    proof {
        sort::sorted_is_ordered_permutation(reported@);
    }
    let ordered = sort::sort(reported);
    let mut out: Vec<AvailableRepoDto> = Vec::new();
    for repo in it: ordered
        invariant
            it.seq() == ordered@,
            out@.len() == it.index(),
            forall|i: int| 0 <= i < it.index() ==> repo_offered(#[trigger] out@[i], ordered@[i], repo_views(bound@)),
    {
        let known = knows(bound, &repo);
        out.push(AvailableRepoDto { owner: repo.owner, name: repo.name, bound: known });
    }
    out
}

/// A request to bring a repo under a connection.
#[derive(Debug)]
pub struct BindRepoRequest {
    pub owner: String,
    pub name: String,
    pub register_webhook: bool,
}

/// What came of binding a repo: its project, and its webhook.
#[derive(Debug)]
pub struct BindRepoResultDto {
    pub org: String,
    pub project: String,
    pub webhook_registered: bool,
    pub webhook_error: Option<String>,
}

/// The repo that a request names, without surrounding whitespace.
pub open spec fn requested_repo(req: BindRepoRequest) -> RepoView {
    RepoView { owner: text::trimmed(req.owner@), name: text::trimmed(req.name@) }
}

/// The repo that a request asks to bind.
pub fn repo_to_bind(req: &BindRepoRequest) -> (r: Result<RepoRef, ApiError>)
    ensures
        ({
            let repo = requested_repo(*req);
            if repo.owner.len() == 0 || repo.name.len() == 0 {
                r matches Err(e) && e@ == ApiErrorView::BadRequest("owner and name are required"@)
            } else {
                r matches Ok(x) && x@ == repo
            }
        }),
{
    let repo = RepoRef { owner: text::trim(req.owner.as_str()), name: text::trim(req.name.as_str()) };
    if repo.owner.as_str().unicode_len() == 0 || repo.name.as_str().unicode_len() == 0 {
        return Err(ApiError::BadRequest("owner and name are required".to_owned()));
    }
    Ok(repo)
}

/// Whether a repo may be bound to connection `id`, and the repo to bind. `bound_to` is the
/// connection it is bound to already; it is never moved from one connection to another.
pub fn bind_repo(id: &str, req: &BindRepoRequest, bound_to: Option<String>) -> (r: Result<RepoRef, ApiError>)
    ensures
        ({
            let repo = requested_repo(*req);
            if repo.owner.len() == 0 || repo.name.len() == 0 {
                r matches Err(e) && e@ == ApiErrorView::BadRequest("owner and name are required"@)
            } else if bound_to is Some && bound_to->0@ != id@ {
                r matches Err(e) && e@ == ApiErrorView::Conflict(
                    repo.owner + "/"@ + repo.name + " is already bound to connection `"@ + bound_to->0@ + "`"@,
                )
            } else {
                r matches Ok(x) && x@ == repo
            }
        }),
{
    let repo = match repo_to_bind(req) {
        Ok(repo) => repo,
        Err(e) => {
            return Err(e);
        },
    };
    match bound_to {
        Some(other) => {
            if !text::str_eq(other.as_str(), id) {
                let mut m = connections::repo_slug(&repo);
                m.append(" is already bound to connection `");
                m.append(other.as_str());
                m.append("`");
                return Err(ApiError::Conflict(m));
            }
        },
        None => {},
    }
    Ok(repo)
}

/// The answer to a bound repo. `registered` is what came of registering its webhook, where that
/// was asked for; that it failed is reported, and the binding stands.
pub fn bind_result(repo: RepoRef, registered: Option<Result<(), String>>) -> (r: BindRepoResultDto)
    ensures
        r.org == repo.owner,
        r.project == repo.name,
        r.webhook_registered == (registered matches Some(Ok(_))),
        r.webhook_error == (match registered {
            Some(Err(m)) => Some(m),
            _ => None,
        }),
{
    let (webhook_registered, webhook_error): (bool, Option<String>) = match registered {
        Some(Ok(_)) => (true, None),
        Some(Err(m)) => (false, Some(m)),
        None => (false, None),
    };
    BindRepoResultDto { org: repo.owner, project: repo.name, webhook_registered, webhook_error }
}

/// Where a repo is bound: its connection, and the project it is.
#[derive(Debug)]
pub struct ResolvedRepo {
    pub connection: ForgeConnection,
    pub org: String,
    pub project: String,
}

/// The project of a bound repo.
pub open spec fn is_project(d: ConnectionProjectDto, repo: RepoRef, found: ResolvedRepo) -> bool {
    d.org == found.org && d.project == found.project && d.owner == repo.owner && d.name == repo.name
}

/// The repos among those of a connection that are projects, in their order.
pub open spec fn resolved_repos(repos: Seq<(RepoRef, Option<ResolvedRepo>)>) -> Seq<(RepoRef, ResolvedRepo)>
    decreases repos.len(),
{
    if repos.len() == 0 {
        Seq::empty()
    } else {
        match repos.last().1 {
            Some(found) => resolved_repos(repos.drop_last()).push((repos.last().0, found)),
            None => resolved_repos(repos.drop_last()),
        }
    }
}

/// The projects of a connection's repos; a repo that resolves to none is left out.
pub fn connection_projects(repos: Vec<(RepoRef, Option<ResolvedRepo>)>) -> (r: Vec<ConnectionProjectDto>)
    ensures
        r@.len() == resolved_repos(repos@).len(),
        forall|i: int|
            0 <= i < r@.len() ==> is_project(#[trigger] r@[i], resolved_repos(repos@)[i].0, resolved_repos(repos@)[i].1),
{
    let mut out: Vec<ConnectionProjectDto> = Vec::new();
    for p in it: repos
        invariant
            it.seq() == repos@,
            out@.len() == resolved_repos(repos@.take(it.index())).len(),
            forall|i: int|
                0 <= i < out@.len() ==> is_project(
                    #[trigger] out@[i],
                    resolved_repos(repos@.take(it.index()))[i].0,
                    resolved_repos(repos@.take(it.index()))[i].1,
                ),
    {
        let ghost k = it.index();
        assert(repos@.take(k + 1).drop_last() =~= repos@.take(k));
        assert(repos@.take(k + 1).last() == p);
        let (repo, found) = p;
        match found {
            Some(x) => {
                out.push(
                    ConnectionProjectDto { org: x.org, project: x.project, owner: repo.owner, name: repo.name },
                );
            },
            None => {},
        }
    }
    assert(repos@.take(repos@.len() as int) =~= repos@);
    out
}

/// The project that connection `id` governs under a repo; a repo of another connection is not
/// found.
pub fn governed(id: &str, resolved: Option<ResolvedRepo>) -> (r: Result<ResolvedRepo, ApiError>)
    ensures
        match resolved {
            Some(x) => if x.connection.id@ == id@ {
                r == Ok::<ResolvedRepo, ApiError>(x)
            } else {
                r matches Err(e) && e@ == ApiErrorView::NotFound
            },
            None => r matches Err(e) && e@ == ApiErrorView::NotFound,
        },
{
    match resolved {
        Some(x) => if text::str_eq(x.connection.id.as_str(), id) {
            Ok(x)
        } else {
            Err(ApiError::NotFound)
        },
        None => Err(ApiError::NotFound),
    }
}

/// The answer to a webhook that was to be registered for a governed repo.
pub fn register_repo_webhook(project: ResolvedRepo, registered: Result<(), String>) -> (r: Result<
    BindRepoResultDto,
    ApiError,
>)
    ensures
        match registered {
            Ok(_) => r matches Ok(d) && d.org == project.org && d.project == project.project && d.webhook_registered
                && d.webhook_error is None,
            Err(m) => r matches Err(e) && e@ == ApiErrorView::BadRequest(m@),
        },
{
    match registered {
        Ok(_) => Ok(
            BindRepoResultDto {
                org: project.org,
                project: project.project,
                webhook_registered: true,
                webhook_error: None,
            },
        ),
        Err(m) => Err(ApiError::BadRequest(m)),
    }
}

/// A preflight has no reason to be unavailable exactly where the forge answered; a missing
/// credential names its handle, and a refusal is passed on.
pub proof fn unanswered_preflights_say_why(c: ForgeConnection, read: PreflightRead)
    ensures
        preflight_reason(c, read) is None <==> read is Granted,
        read is NoCredential ==> preflight_reason(c, read) == Some(
            "the credential `"@ + c.credential_ref@ + "` does not resolve, so the forge cannot be asked"@,
        ),
        read is NoAdapter ==> preflight_reason(c, read) == Some("no forge adapter is wired for this connection"@),
        read matches PreflightRead::Failed(e) ==> preflight_reason(c, read) == Some(
            match e {
                ForgeError::Unsupported { what, rendered: _ } => c.kind.word()
                    + " cannot report its granted permissions or subscribed events ("@ + what@ + ")"@,
                _ => e.message(),
            },
        ),
{
}

/// A re-sync binds what it reports in the order of the report: of two repos that are bound, the
/// one reported first is bound first, and no repo is bound more often than it was reported.
pub proof fn resyncs_keep_the_order_of_the_report(first: Seq<RepoView>, more: Seq<RepoView>, known: Seq<RepoView>)
    ensures
        unbound(first + more, known) == unbound(first, known) + unbound(more, known),
    decreases more.len(),
{
    if more.len() == 0 {
        assert(first + more =~= first);
        assert(unbound(first, known) + unbound(more, known) =~= unbound(first, known));
    } else {
        let rest = more.drop_last();
        resyncs_keep_the_order_of_the_report(first, rest, known);
        assert((first + more).drop_last() =~= first + rest);
        assert((first + more).last() == more.last());
        assert(unbound(first, known) + unbound(rest, known).push(more.last()) =~= (unbound(first, known) + unbound(
            rest,
            known,
        )).push(more.last()));
    }
}

/// Every repo that resolves to a project is among the projects of its connection, and nothing
/// else is.
pub proof fn resolved_repos_are_the_projects(repos: Seq<(RepoRef, Option<ResolvedRepo>)>, repo: RepoRef, found: ResolvedRepo)
    ensures
        resolved_repos(repos).contains((repo, found)) <==> repos.contains((repo, Some(found))),
    decreases repos.len(),
{
    if repos.len() > 0 {
        let rest = repos.drop_last();
        resolved_repos_are_the_projects(rest, repo, found);
        let before = resolved_repos(rest);
        let all = resolved_repos(repos);
        if repos.contains((repo, Some(found))) {
            let k = choose|k: int| 0 <= k < repos.len() && repos[k] == (repo, Some(found));
            if k < rest.len() {
                assert(rest[k] == (repo, Some(found)));
                let j = choose|j: int| 0 <= j < before.len() && before[j] == (repo, found);
                assert(all[j] == (repo, found));
            } else {
                assert(all[all.len() - 1] == (repo, found));
            }
        }
        if all.contains((repo, found)) {
            let j = choose|j: int| 0 <= j < all.len() && all[j] == (repo, found);
            if j < before.len() {
                assert(before[j] == (repo, found));
                let k = choose|k: int| 0 <= k < rest.len() && rest[k] == (repo, Some(found));
                assert(repos[k] == (repo, Some(found)));
            } else {
                assert(repos[repos.len() - 1] == (repo, Some(found)));
            }
        }
    }
}

/// A repo is offered by its owner and name, and as bound exactly where it is a project of the
/// connection already.
pub proof fn repos_are_offered_as_they_are(d: AvailableRepoDto, repo: RepoRef, bound: Seq<RepoView>)
    requires
        repo_offered(d, repo, bound),
    ensures
        d.owner == repo.owner && d.name == repo.name,
        d.bound <==> exists|i: int| 0 <= i < bound.len() && bound[i] == repo@,
{
}

} // verus!
