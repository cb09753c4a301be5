//! The forge events that trigger runs, and what a run records of the event it was born from.

use crate::json::{Json, JsonView};
use crate::text;
use vstd::prelude::*;

verus! {

/// A repository's coordinate on its forge.
#[derive(Debug, PartialEq, Eq)]
pub struct RepoRef {
    pub owner: String,
    pub name: String,
}

/// The mathematical model of a [`RepoRef`].
pub struct RepoView {
    pub owner: Seq<char>,
    pub name: Seq<char>,
}

impl View for RepoRef {
    type V = RepoView;

    open spec fn view(&self) -> RepoView {
        RepoView { owner: self.owner@, name: self.name@ }
    }
}

impl RepoRef {
    /// A copy of the coordinate.
    pub fn copy(&self) -> (r: RepoRef)
        ensures
            r == *self,
    {
        RepoRef { owner: self.owner.clone(), name: self.name.clone() }
    }
}

/// What happened, with the facts each trigger carries.
#[derive(Debug)]
pub enum Trigger {
    Push { git_ref: String, after: String },
    PullRequest { number: u64, head: String, base: String },
    Tag { tag: String },
    Release { tag: String },
    Manual { actor: String, git_ref: String, sha: String, reason: Option<String> },
    Api { actor: String, git_ref: String, sha: String, reason: Option<String> },
    /// Cron, comment, upstream: no commit, no ref of its own.
    Other,
}

/// A normalized forge event. `kind` is the wire name of its trigger, `protection_ref` the
/// symbolic branch or tag ref it ran on, `trigger_title` its headline, `context` the document
/// that conditions and interpolations read.
#[derive(Debug)]
pub struct Event {
    pub trigger: Trigger,
    pub repo: Option<RepoRef>,
    pub kind: String,
    pub actor: Option<String>,
    pub protection_ref: Option<String>,
    pub trigger_title: Option<String>,
    pub fork_pr: bool,
    pub context: Json,
}

/// The key under which a newer run supersedes older ones: same repository, same ref or pull
/// request, same pipeline. Only pushes and pull requests have one.
pub open spec fn supersede_key_of(event: Event, pipeline: Seq<char>) -> Option<Seq<char>> {
    match (event.repo, event.trigger) {
        (Some(repo), Trigger::Push { git_ref, after }) => Some(
            repo.owner@ + "/"@ + repo.name@ + ":"@ + git_ref@ + ":"@ + pipeline,
        ),
        (Some(repo), Trigger::PullRequest { number, head, base }) => Some(
            repo.owner@ + "/"@ + repo.name@ + ":"@ + ("pr-"@ + text::decimal(number as nat)) + ":"@ + pipeline,
        ),
        _ => None,
    }
}

/// The auto-cancel key of an event, where it has one.
pub fn supersede_key(event: &Event, pipeline: &str) -> (r: Option<String>)
    ensures
        text::opt_view(r) == supersede_key_of(*event, pipeline@),
{
    let repo = match &event.repo {
        Some(repo) => repo,
        None => {
            return None;
        },
    };
    let scope = match &event.trigger {
        Trigger::Push { git_ref, after: _ } => git_ref.clone(),
        Trigger::PullRequest { number, head: _, base: _ } => {
            let mut s = "pr-".to_owned();
            s.append(text::u64_to_string(*number).as_str());
            s
        },
        _ => {
            return None;
        },
    };
    let mut key = repo.owner.clone();
    key.append("/");
    key.append(repo.name.as_str());
    key.append(":");
    key.append(scope.as_str());
    key.append(":");
    key.append(pipeline);
    Some(key)
}

/// The ref the pipeline config is read at: the event's commit where it has one.
pub open spec fn config_ref_of(t: Trigger) -> Seq<char> {
    match t {
        Trigger::Push { git_ref, after } => after@,
        Trigger::PullRequest { number, head, base } => head@,
        Trigger::Tag { tag } => "refs/tags/"@ + tag@,
        Trigger::Release { tag } => "refs/tags/"@ + tag@,
        Trigger::Manual { actor, git_ref, sha, reason } => sha@,
        Trigger::Api { actor, git_ref, sha, reason } => sha@,
        Trigger::Other => "HEAD"@,
    }
}

/// The ref or commit to read the pipeline config at.
pub fn config_ref(event: &Event) -> (r: String)
    ensures
        r@ == config_ref_of(event.trigger),
{
    match &event.trigger {
        Trigger::Push { git_ref: _, after } => after.clone(),
        Trigger::PullRequest { number: _, head, base: _ } => head.clone(),
        Trigger::Tag { tag } => {
            let mut s = "refs/tags/".to_owned();
            s.append(tag.as_str());
            s
        },
        Trigger::Release { tag } => {
            let mut s = "refs/tags/".to_owned();
            s.append(tag.as_str());
            s
        },
        Trigger::Manual { actor: _, git_ref: _, sha, reason: _ } => sha.clone(),
        Trigger::Api { actor: _, git_ref: _, sha, reason: _ } => sha.clone(),
        Trigger::Other => "HEAD".to_owned(),
    }
}

/// The commit an event pins, where it carries one.
pub open spec fn pinned_sha(t: Trigger) -> Option<Seq<char>> {
    match t {
        Trigger::Push { git_ref, after } => Some(after@),
        Trigger::PullRequest { number, head, base } => Some(head@),
        Trigger::Manual { actor, git_ref, sha, reason } => Some(sha@),
        Trigger::Api { actor, git_ref, sha, reason } => Some(sha@),
        _ => None,
    }
}

/// The resolved commit an event pinned to.
pub fn origin_sha(event: &Event) -> (r: Option<String>)
    ensures
        text::opt_view(r) == pinned_sha(event.trigger),
{
    match &event.trigger {
        Trigger::Push { git_ref: _, after } => Some(after.clone()),
        Trigger::PullRequest { number: _, head, base: _ } => Some(head.clone()),
        Trigger::Manual { actor: _, git_ref: _, sha, reason: _ } => Some(sha.clone()),
        Trigger::Api { actor: _, git_ref: _, sha, reason: _ } => Some(sha.clone()),
        _ => None,
    }
}

/// A pinned commit is the commit the config is read at.
pub proof fn pinned_sha_is_the_config_ref(t: Trigger)
    ensures
        pinned_sha(t) is Some ==> pinned_sha(t) == Some(config_ref_of(t)),
{
}

/// The config is read at the commit that was pushed, at the head of the pull request, at the tag, or
/// at the commit a dispatch named; an event with none of these reads it at the head of the repository.
pub proof fn the_config_is_read_where_the_event_happened(t: Trigger)
    ensures
        match t {
            Trigger::Push { after, .. } => config_ref_of(t) == after@ && pinned_sha(t) == Some(after@),
            Trigger::PullRequest { head, .. } => config_ref_of(t) == head@ && pinned_sha(t) == Some(head@),
            Trigger::Tag { tag } => config_ref_of(t) == "refs/tags/"@ + tag@ && pinned_sha(t) is None,
            Trigger::Release { tag } => config_ref_of(t) == "refs/tags/"@ + tag@ && pinned_sha(t) is None,
            Trigger::Manual { sha, .. } => config_ref_of(t) == sha@ && pinned_sha(t) == Some(sha@),
            Trigger::Api { sha, .. } => config_ref_of(t) == sha@ && pinned_sha(t) == Some(sha@),
            Trigger::Other => config_ref_of(t) == "HEAD"@ && pinned_sha(t) is None,
        },
{
}

/// A newer run supersedes an older one exactly where both are pushes of one ref or both belong to one
/// pull request; other events supersede nothing.
pub proof fn only_pushes_and_pull_requests_supersede(e: Event, pipeline: Seq<char>)
    ensures
        supersede_key_of(e, pipeline) is Some <==> e.repo is Some && (e.trigger is Push || e.trigger is PullRequest),
        e.repo matches Some(r) ==> match e.trigger {
            Trigger::Push { git_ref, .. } => supersede_key_of(e, pipeline) == Some(
                r.owner@ + "/"@ + r.name@ + ":"@ + git_ref@ + ":"@ + pipeline,
            ),
            Trigger::PullRequest { number, .. } => supersede_key_of(e, pipeline) == Some(
                r.owner@ + "/"@ + r.name@ + ":"@ + ("pr-"@ + text::decimal(number as nat)) + ":"@ + pipeline,
            ),
            _ => true,
        },
{
}

/// The pull-request number of a pull-request event.
pub fn origin_pr_number(event: &Event) -> (r: Option<i64>)
    ensures
        r == (match event.trigger {
            Trigger::PullRequest { number, head, base } => Some(number as i64),
            _ => None,
        }),
{
    match &event.trigger {
        Trigger::PullRequest { number, head: _, base: _ } => Some(*number as i64),
        _ => None,
    }
}

/// The base branch of a pull-request event that names one.
pub open spec fn pr_base(t: Trigger) -> Option<Seq<char>> {
    match t {
        Trigger::PullRequest { number, head, base } => if base@.len() > 0 {
            Some(base@)
        } else {
            None
        },
        _ => None,
    }
}

/// The base branch of a pull-request event.
pub fn origin_pr_base(event: &Event) -> (r: Option<String>)
    ensures
        text::opt_view(r) == pr_base(event.trigger),
{
    match &event.trigger {
        Trigger::PullRequest { number: _, head: _, base } => if !base.as_str().is_empty() {
            Some(base.clone())
        } else {
            None
        },
        _ => None,
    }
}

/// What a clone step fetches: the event's repository at its pinned commit.
pub open spec fn clone_source(event: Event) -> Option<(RepoView, Seq<char>)> {
    match (event.repo, pinned_sha(event.trigger)) {
        (Some(repo), Some(sha)) => Some((repo@, sha)),
        _ => None,
    }
}

/// The repository and pinned commit a clone step fetches.
pub fn clone_context(event: &Event) -> (r: Option<(RepoRef, String)>)
    ensures
        match r {
            Some((repo, sha)) => clone_source(*event) == Some((repo@, sha@)),
            None => clone_source(*event) is None,
        },
{
    match (&event.repo, origin_sha(event)) {
        (Some(repo), Some(sha)) => Some((repo.copy(), sha)),
        _ => None,
    }
}

/// A dispatch by a person or by a program on a person's behalf.
pub open spec fn human_dispatch(t: Trigger) -> bool {
    t is Manual || t is Api
}

/// Whether the event is a manual or API dispatch.
pub fn is_human_dispatch(event: &Event) -> (r: bool)
    ensures
        r == human_dispatch(event.trigger),
{
    match &event.trigger {
        Trigger::Manual { actor: _, git_ref: _, sha: _, reason: _ } => true,
        Trigger::Api { actor: _, git_ref: _, sha: _, reason: _ } => true,
        _ => false,
    }
}

/// The security posture of a run: whether it gets secrets, and the environment its identity
/// token may name.
#[derive(Debug, Clone, PartialEq, Eq)]
pub struct ForkPolicy {
    pub secrets_locked_out: bool,
    pub oidc_env: String,
}

/// An untrusted fork pull request gets no secrets and the environment `none`; any other event
/// keeps its target.
pub fn fork_policy(event: &Event, target_env: &str) -> (r: ForkPolicy)
    ensures
        r.secrets_locked_out == event.fork_pr,
        r.oidc_env@ == (if event.fork_pr {
            "none"@
        } else {
            target_env@
        }),
{
    if event.fork_pr {
        ForkPolicy { secrets_locked_out: true, oidc_env: "none".to_owned() }
    } else {
        ForkPolicy { secrets_locked_out: false, oidc_env: target_env.to_owned() }
    }
}

/// Which trigger a dispatch opts into.
#[derive(Debug, Clone, Copy, PartialEq, Eq, Structural)]
pub enum DispatchKind {
    Manual,
    Api,
}

impl Default for DispatchKind {
    fn default() -> (r: DispatchKind)
        ensures
            r == DispatchKind::Manual,
    {
        DispatchKind::Manual
    }
}

impl DispatchKind {
    pub open spec fn wire_name(self) -> Seq<char> {
        match self {
            DispatchKind::Manual => "manual"@,
            DispatchKind::Api => "api"@,
        }
    }

    /// The `on:` name the pipeline has to declare.
    pub fn trigger_kind(self) -> (r: &'static str)
        ensures
            r@ == self.wire_name(),
    {
        match self {
            DispatchKind::Manual => "manual",
            DispatchKind::Api => "api",
        }
    }

    pub open spec fn event_of(self, actor: String, git_ref: String, sha: String, reason: Option<String>) -> Trigger {
        match self {
            DispatchKind::Manual => Trigger::Manual { actor, git_ref, sha, reason },
            DispatchKind::Api => Trigger::Api { actor, git_ref, sha, reason },
        }
    }

    /// The trigger of a dispatch: `git_ref` is the symbolic ref that was named, `sha` the commit
    /// it resolved to.
    pub fn into_event(self, actor: String, git_ref: String, sha: String, reason: Option<String>) -> (r: Trigger)
        ensures
            r == self.event_of(actor, git_ref, sha, reason),
    {
        match self {
            DispatchKind::Manual => Trigger::Manual { actor, git_ref, sha, reason },
            DispatchKind::Api => Trigger::Api { actor, git_ref, sha, reason },
        }
    }
}

/// The repository and commit a recorded document names, where it names all three parts.
pub open spec fn coords_of(doc: JsonView) -> Option<(RepoView, Seq<char>)> {
    let ev = doc.at("trigger"@).at("event"@);
    match (ev.at("repo"@).at("owner"@).text(), ev.at("repo"@).at("name"@).text(), ev.at("sha"@).text()) {
        (Some(owner), Some(name), Some(sha)) => Some((RepoView { owner, name }, sha)),
        _ => None,
    }
}

/// The coordinates in the first document that names them.
pub open spec fn first_coords(docs: Seq<Json>) -> Option<(RepoView, Seq<char>)>
    decreases docs.len(),
{
    if docs.len() == 0 {
        None
    } else {
        match coords_of(docs[0]@) {
            Some(c) => Some(c),
            None => first_coords(docs.drop_first()),
        }
    }
}

/// The document names an owner, a repository and a commit.
pub open spec fn names_commit(doc: JsonView, owner: Seq<char>, name: Seq<char>, sha: Seq<char>) -> bool {
    let ev = doc.at("trigger"@).at("event"@);
    &&& ev.at("repo"@).at("owner"@).text() == Some(owner)
    &&& ev.at("repo"@).at("name"@).text() == Some(name)
    &&& ev.at("sha"@).text() == Some(sha)
}

/// The document names no commit: an owner, a repository or a commit is missing.
pub open spec fn names_no_commit(doc: JsonView) -> bool {
    let ev = doc.at("trigger"@).at("event"@);
    ev.at("repo"@).at("owner"@).text() is None || ev.at("repo"@).at("name"@).text() is None || ev.at("sha"@).text() is None
}

/// A run's commit is the one that the first document names which names one, whatever stands behind
/// it.
pub proof fn the_first_named_commit_counts(docs: Seq<Json>, i: int, owner: Seq<char>, name: Seq<char>, sha: Seq<char>)
    requires
        0 <= i < docs.len(),
        names_commit(docs[i]@, owner, name, sha),
        forall|j: int| 0 <= j < i ==> names_no_commit(#[trigger] docs[j]@),
    ensures
        first_coords(docs) == Some((RepoView { owner, name }, sha)),
    decreases docs.len(),
{
    if i > 0 {
        assert(names_no_commit(docs[0]@));
        let rest = docs.drop_first();
        assert forall|j: int| 0 <= j < i - 1 implies names_no_commit(#[trigger] rest[j]@) by {
            assert(names_no_commit(docs[j + 1]@));
        }
        the_first_named_commit_counts(rest, i - 1, owner, name, sha);
    }
}

/// A run of which no document names a commit has none.
pub proof fn unnamed_commits_are_not_found(docs: Seq<Json>)
    requires
        forall|j: int| 0 <= j < docs.len() ==> names_no_commit(#[trigger] docs[j]@),
    ensures
        first_coords(docs) is None,
    decreases docs.len(),
{
    if docs.len() > 0 {
        assert(names_no_commit(docs[0]@));
        let rest = docs.drop_first();
        assert forall|j: int| 0 <= j < rest.len() implies names_no_commit(#[trigger] rest[j]@) by {
            assert(names_no_commit(docs[j + 1]@));
        }
        unnamed_commits_are_not_found(rest);
    }
}

fn coords(doc: &Json) -> (r: Option<(RepoRef, String)>)
    ensures
        match r {
            Some((repo, sha)) => coords_of(doc@) == Some((repo@, sha@)),
            None => coords_of(doc@) is None,
        },
{
    let null = Json::Null;
    let trigger = match doc.get("trigger") {
        Some(v) => v,
        None => &null,
    };
    let ev = match trigger.get("event") {
        Some(v) => v,
        None => &null,
    };
    let repo = match ev.get("repo") {
        Some(v) => v,
        None => &null,
    };
    let owner = match repo.get("owner") {
        Some(v) => v.as_str(),
        None => None,
    };
    let name = match repo.get("name") {
        Some(v) => v.as_str(),
        None => None,
    };
    let sha = match ev.get("sha") {
        Some(v) => v.as_str(),
        None => None,
    };
    match (owner, name, sha) {
        (Some(owner), Some(name), Some(sha)) => Some(
            (RepoRef { owner: owner.to_owned(), name: name.to_owned() }, sha.to_owned()),
        ),
        _ => None,
    }
}

/// A run's repository and commit, recovered from the raw documents on its event log.
pub fn run_forge_coords(docs: &Vec<Json>) -> (r: Option<(RepoRef, String)>)
    ensures
        match r {
            Some((repo, sha)) => first_coords(docs@) == Some((repo@, sha@)),
            None => first_coords(docs@) is None,
        },
{
    let mut i: usize = 0;
    assert(docs@.skip(0) =~= docs@);
    while i < docs.len()
        invariant
            i <= docs@.len(),
            first_coords(docs@) == first_coords(docs@.skip(i as int)),
        decreases docs@.len() - i,
    {
        assert(docs@.skip(i as int)[0] == docs@[i as int]);
        match coords(&docs[i]) {
            Some(c) => {
                return Some(c);
            },
            None => {},
        }
        assert(docs@.skip(i as int).drop_first() =~= docs@.skip(i + 1));
        i = i + 1;
    }
    None
}

/// A dispatch is recorded as what it was: by whom, of which ref, at which commit and why; it opts
/// into the trigger of its own name.
pub proof fn dispatches_are_recorded_as_they_were(actor: String, git_ref: String, sha: String, reason: Option<String>)
    ensures
        DispatchKind::Manual.event_of(actor, git_ref, sha, reason) == (Trigger::Manual { actor, git_ref, sha, reason }),
        DispatchKind::Api.event_of(actor, git_ref, sha, reason) == (Trigger::Api { actor, git_ref, sha, reason }),
        DispatchKind::Manual.wire_name() == "manual"@,
        DispatchKind::Api.wire_name() == "api"@,
        human_dispatch(DispatchKind::Manual.event_of(actor, git_ref, sha, reason)),
        human_dispatch(DispatchKind::Api.event_of(actor, git_ref, sha, reason)),
        forall|t: Trigger| #[trigger] human_dispatch(t) ==> t is Manual || t is Api,
{
}

/// A clone step fetches the event's own repo at the commit that the event pinned, wherever it has
/// both.
pub proof fn clones_fetch_what_was_pinned(event: Event)
    ensures
        clone_source(event) is Some <==> event.repo is Some && pinned_sha(event.trigger) is Some,
        clone_source(event) matches Some((repo, sha)) ==> repo == event.repo->0@ && Some(sha) == pinned_sha(event.trigger),
{
}

} // verus!
