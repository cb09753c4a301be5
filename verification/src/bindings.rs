//! Role bindings: granting and revoking them, and seeding them from a forge's permissions.

use crate::authz::{self, Role, Scope, ScopeView};
use crate::errors::{ApiError, ApiErrorView};
use crate::text;
use vstd::prelude::*;

verus! {

/// A request to grant a role, in one project or, without one, in the whole org.
#[derive(Debug)]
pub struct BindingRequest {
    pub subject: String,
    pub role: String,
    pub project: Option<String>,
}

/// A binding as it is listed. An empty project stands for the whole org.
#[derive(Debug)]
pub struct BindingDto {
    pub subject: String,
    pub role: String,
    pub project: String,
}

/// The mathematical model of a [`BindingDto`].
pub struct EntryView {
    pub subject: Seq<char>,
    pub role: Seq<char>,
    pub project: Seq<char>,
}

impl View for BindingDto {
    type V = EntryView;

    open spec fn view(&self) -> EntryView {
        EntryView { subject: self.subject@, role: self.role@, project: self.project@ }
    }
}

pub open spec fn entry_views(v: Seq<BindingDto>) -> Seq<EntryView> {
    v.map_values(|d: BindingDto| d@)
}

/// A request to seed bindings from the permissions of the forge's users.
#[derive(Debug)]
pub struct ImportBindingsRequest {
    pub subjects: Vec<String>,
}

/// A subject's role in a scope.
#[derive(Debug)]
pub struct Binding {
    pub subject: String,
    pub scope: Scope,
    pub role: Role,
}

/// The mathematical model of a [`Binding`].
pub struct BindingView {
    pub subject: Seq<char>,
    pub scope: ScopeView,
    pub role: Role,
}

impl View for Binding {
    type V = BindingView;

    open spec fn view(&self) -> BindingView {
        BindingView { subject: self.subject@, scope: self.scope@, role: self.role }
    }
}

/// The binding as it is listed.
pub open spec fn binding_shown(d: BindingDto, b: Binding) -> bool {
    d.subject == b.subject && d.role@ == authz::role_word(b.role) && d.project@ == (match b.scope {
        Scope::Org(_) => Seq::empty(),
        Scope::Project { org: _, name } => name@,
    })
}

/// An org's bindings as they are listed.
pub fn list_bindings(bindings: Vec<Binding>) -> (r: Vec<BindingDto>)
    ensures
        r@.len() == bindings@.len(),
        forall|i: int| 0 <= i < r@.len() ==> binding_shown(#[trigger] r@[i], bindings@[i]),
{
    let mut out: Vec<BindingDto> = Vec::new();
    for b in it: bindings
        invariant
            it.seq() == bindings@,
            out@.len() == it.index(),
            forall|i: int| 0 <= i < it.index() ==> binding_shown(#[trigger] out@[i], bindings@[i]),
    {
        let project: String = match b.scope {
            Scope::Org(_) => String::new(),
            Scope::Project { org: _, name } => name,
        };
        out.push(BindingDto { subject: b.subject, role: authz::role_name(b.role).to_owned(), project });
    }
    out
}

/// The scope of a binding in an org: a project where one is named.
pub open spec fn scope_named(org: Seq<char>, project: Option<Seq<char>>) -> ScopeView {
    match project {
        Some(name) if name.len() > 0 => ScopeView::Project { org, name },
        _ => ScopeView::Org(org),
    }
}

/// The scope of a binding in an org: a project where one is named.
pub fn binding_scope(org: String, project: Option<String>) -> (r: Scope)
    ensures
        r@ == scope_named(org@, text::opt_view(project)),
{
    match project {
        Some(name) => if name.as_str().unicode_len() > 0 {
            Scope::Project { org, name }
        } else {
            Scope::Org(org)
        },
        None => Scope::Org(org),
    }
}

/// The binding that a request grants, or what is wrong with the request.
pub fn put_binding(org: String, req: BindingRequest) -> (r: Result<Binding, ApiError>)
    ensures
        if req.subject@.len() == 0 {
            r matches Err(e) && e@ == ApiErrorView::BadRequest("subject is required"@)
        } else {
            match r {
                Ok(b) => b@.subject == req.subject@ && b@.scope == scope_named(org@, text::opt_view(req.project))
                    && authz::role_word(b.role) == req.role@,
                Err(e) => (forall|role: Role| req.role@ != #[trigger] authz::role_word(role)) && e@
                    == ApiErrorView::BadRequest(
                    "unknown role `"@ + req.role@ + "` (want viewer|member|admin|owner)"@,
                ),
            }
        },
{
    if req.subject.as_str().unicode_len() == 0 {
        return Err(ApiError::BadRequest("subject is required".to_owned()));
    }
    let scope = binding_scope(org, req.project);
    match authz::parse_role(req.role.as_str()) {
        Ok(role) => Ok(Binding { subject: req.subject, scope, role }),
        Err(e) => Err(e),
    }
}

/// What a user may do on a forge's repo.
#[derive(Debug, Clone, Copy, PartialEq, Eq, Structural)]
pub struct Permissions {
    pub admin: bool,
    pub write: bool,
    pub read: bool,
}

/// The role that forge permissions seed.
pub open spec fn seeded_role(p: Permissions) -> Option<Role> {
    if p.admin {
        Some(Role::Admin)
    } else if p.write {
        Some(Role::Member)
    } else if p.read {
        Some(Role::Viewer)
    } else {
        None
    }
}

fn seed_role(p: Permissions) -> (r: Option<Role>)
    ensures
        r == seeded_role(p),
{
    if p.admin {
        Some(Role::Admin)
    } else if p.write {
        Some(Role::Member)
    } else if p.read {
        Some(Role::Viewer)
    } else {
        None
    }
}

/// No import makes an owner, and no user without access to the repo gets a role.
pub proof fn imports_never_exceed_the_forge(p: Permissions)
    ensures
        seeded_role(p) != Some(Role::Owner),
        seeded_role(p) is None <==> !p.admin && !p.write && !p.read,
        seeded_role(p) == Some(Role::Admin) ==> p.admin,
        seeded_role(p) == Some(Role::Member) ==> p.write,
{
}

/// What an import wants done.
#[derive(Debug)]
pub enum ImportAction {
    /// Ask the forge for the user's permissions on the repo.
    AskPermissions { subject: String },
    /// Grant the binding as an imported one, which overrides no native grant or revocation.
    Grant { binding: Binding },
    /// The import is over: the seeded bindings, or what stopped it.
    Done(Result<Vec<BindingDto>, ApiError>),
}

/// The mathematical model of an [`ImportAction`].
pub enum ImportActionView {
    AskPermissions { subject: Seq<char> },
    Grant { binding: BindingView },
    Done(Result<Seq<EntryView>, ApiErrorView>),
}

impl View for ImportAction {
    type V = ImportActionView;

    open spec fn view(&self) -> ImportActionView {
        match self {
            ImportAction::AskPermissions { subject } => ImportActionView::AskPermissions { subject: subject@ },
            ImportAction::Grant { binding } => ImportActionView::Grant { binding: binding@ },
            ImportAction::Done(Ok(d)) => ImportActionView::Done(Ok(entry_views(d@))),
            ImportAction::Done(Err(e)) => ImportActionView::Done(Err(e@)),
        }
    }
}

/// What came of the last action.
#[derive(Debug)]
pub enum ImportEvent {
    Permissions(Result<Permissions, String>),
    Granted(Result<(), String>),
}

/// An import of the permissions of users on a repo. Of `subjects` the first `next` are done;
/// `seeding` is the role being granted to the one at hand.
#[derive(Debug)]
pub struct ImportBindings {
    pub org: String,
    pub repo: String,
    pub subjects: Vec<String>,
    pub next: usize,
    pub seeding: Option<Role>,
    pub imported: Vec<BindingDto>,
    pub over: bool,
}

/// The mathematical model of an [`ImportBindings`].
#[verifier::ext_equal]
pub struct ImportView {
    pub org: Seq<char>,
    pub repo: Seq<char>,
    pub subjects: Seq<Seq<char>>,
    pub next: int,
    pub seeding: Option<Role>,
    pub imported: Seq<EntryView>,
    pub over: bool,
}

impl View for ImportBindings {
    type V = ImportView;

    open spec fn view(&self) -> ImportView {
        ImportView {
            org: self.org@,
            repo: self.repo@,
            subjects: text::views(self.subjects@),
            next: self.next as int,
            seeding: self.seeding,
            imported: entry_views(self.imported@),
            over: self.over,
        }
    }
}

impl ImportView {
    /// Unless the import is over there is a user at hand.
    pub open spec fn wf(self) -> bool {
        0 <= self.next <= self.subjects.len() && (!self.over ==> self.next < self.subjects.len())
    }

    /// The next user is asked for; behind the last the import is over and hands out what it
    /// seeded.
    pub open spec fn resume(self) -> (ImportView, ImportActionView) {
        if self.next < self.subjects.len() {
            (
                ImportView { seeding: None, over: false, ..self },
                ImportActionView::AskPermissions { subject: self.subjects[self.next] },
            )
        } else {
            (
                ImportView { seeding: None, over: true, imported: Seq::empty(), ..self },
                ImportActionView::Done(Ok(self.imported)),
            )
        }
    }

    pub open spec fn fail(self, message: Seq<char>) -> (ImportView, ImportActionView) {
        (
            ImportView { seeding: None, over: true, ..self },
            ImportActionView::Done(Err(ApiErrorView::BadRequest(message))),
        )
    }

    /// What follows an outcome. One that was not waited for ends the import.
    pub open spec fn after(self, ev: ImportEvent) -> (ImportView, ImportActionView) {
        match (self.over, self.seeding, ev) {
            (false, None, ImportEvent::Permissions(Ok(p))) => match seeded_role(p) {
                Some(role) => (
                    ImportView { seeding: Some(role), ..self },
                    ImportActionView::Grant {
                        binding: BindingView {
                            subject: self.subjects[self.next],
                            scope: ScopeView::Project { org: self.org, name: self.repo },
                            role,
                        },
                    },
                ),
                None => ImportView { next: self.next + 1, ..self }.resume(),
            },
            (false, None, ImportEvent::Permissions(Err(m))) => self.fail(
                "forge permissions for "@ + self.subjects[self.next] + ": "@ + m@,
            ),
            (false, Some(role), ImportEvent::Granted(Ok(_))) => ImportView {
                next: self.next + 1,
                imported: self.imported.push(
                    EntryView {
                        subject: self.subjects[self.next],
                        role: authz::role_word(role),
                        project: self.repo,
                    },
                ),
                ..self
            }.resume(),
            (false, Some(_), ImportEvent::Granted(Err(m))) => self.fail(m@),
            _ => self.fail("unexpected outcome"@),
        }
    }
}

impl ImportBindings {
    /// Start importing the permissions of users on a repo.
    pub fn begin(org: String, repo: String, req: ImportBindingsRequest) -> (r: (ImportBindings, ImportAction))
        ensures
            (r.0@, r.1@) == (ImportView {
                org: org@,
                repo: repo@,
                subjects: text::views(req.subjects@),
                next: 0,
                seeding: None,
                imported: Seq::empty(),
                over: false,
            }).resume(),
            r.0@.wf(),
    {
        let mut i = ImportBindings {
            org,
            repo,
            subjects: req.subjects,
            next: 0,
            seeding: None,
            imported: Vec::new(),
            over: false,
        };
        assert(entry_views(i.imported@) =~= Seq::empty());
        let a = i.resume();
        (i, a)
    }

    fn resume(&mut self) -> (r: ImportAction)
        requires
            0 <= old(self)@.next <= old(self)@.subjects.len(),
        ensures
            (final(self)@, r@) == old(self)@.resume(),
            final(self)@.wf(),
    {
        self.seeding = None;
        if self.next < self.subjects.len() {
            self.over = false;
            ImportAction::AskPermissions { subject: self.subjects[self.next].clone() }
        } else {
            self.over = true;
            let mut done: Vec<BindingDto> = Vec::new();
            std::mem::swap(&mut done, &mut self.imported);
            assert(entry_views(self.imported@) =~= Seq::empty());
            ImportAction::Done(Ok(done))
        }
    }

    fn fail(&mut self, message: String) -> (r: ImportAction)
        ensures
            (final(self)@, r@) == old(self)@.fail(message@),
            old(self)@.wf() ==> final(self)@.wf(),
    {
        self.seeding = None;
        self.over = true;
        ImportAction::Done(Err(ApiError::BadRequest(message)))
    }

    /// Take the outcome of the last action and say what comes next.
    pub fn step(&mut self, ev: ImportEvent) -> (r: ImportAction)
        requires
            old(self)@.wf(),
        ensures
            (final(self)@, r@) == old(self)@.after(ev),
            final(self)@.wf(),
    {
        let n: usize = self.subjects.len();
        match (self.over, self.seeding, ev) {
            (false, None, ImportEvent::Permissions(Ok(p))) => match seed_role(p) {
                Some(role) => {
                    self.seeding = Some(role);
                    ImportAction::Grant {
                        binding: Binding {
                            subject: self.subjects[self.next].clone(),
                            scope: Scope::Project { org: self.org.clone(), name: self.repo.clone() },
                            role,
                        },
                    }
                },
                None => {
                    assert(self.next < n);
                    self.next = self.next + 1;
                    self.resume()
                },
            },
            (false, None, ImportEvent::Permissions(Err(e))) => {
                let mut m: String = "forge permissions for ".to_owned();
                m.append(self.subjects[self.next].as_str());
                m.append(": ");
                m.append(e.as_str());
                self.fail(m)
            },
            (false, Some(role), ImportEvent::Granted(Ok(_))) => {
                assert(self.next < n);
                let ghost before = entry_views(self.imported@);
                let entry = BindingDto {
                    subject: self.subjects[self.next].clone(),
                    role: authz::role_name(role).to_owned(),
                    project: self.repo.clone(),
                };
                let ghost shown = entry@;
                self.imported.push(entry);
                assert(entry_views(self.imported@) =~= before.push(shown));
                self.next = self.next + 1;
                self.resume()
            },
            (false, Some(_), ImportEvent::Granted(Err(m))) => self.fail(m),
            _ => self.fail("unexpected outcome".to_owned()),
        }
    }
}

/// Every user is asked for and granted at most the role that the forge's permissions seed, in
/// the repo's own project.
pub proof fn imports_stay_in_the_project(v: ImportView, ev: ImportEvent)
    requires
        v.after(ev).1 is Grant,
    ensures
        v.after(ev).1->binding.scope == (ScopeView::Project { org: v.org, name: v.repo }),
        v.after(ev).1->binding.subject == v.subjects[v.next],
        ev matches ImportEvent::Permissions(Ok(p)) && seeded_role(p) == Some(v.after(ev).1->binding.role),
{
}

/// What the forge lets a user do is what the import grants: administration makes an admin, the
/// right to push alone a member, the right to read alone a viewer, and no right no role.
pub proof fn roles_are_seeded_by_what_the_forge_grants(p: Permissions)
    ensures
        p.admin <==> seeded_role(p) == Some(Role::Admin),
        !p.admin && p.write <==> seeded_role(p) == Some(Role::Member),
        !p.admin && !p.write && p.read <==> seeded_role(p) == Some(Role::Viewer),
        !p.admin && !p.write && !p.read <==> seeded_role(p) is None,
{
}

/// A binding names its project where it names a project, and the whole organization otherwise.
pub proof fn bindings_reach_as_far_as_they_say(org: Seq<char>, project: Seq<char>)
    ensures
        scope_named(org, Some(project)) == (if project.len() == 0 {
            ScopeView::Org(org)
        } else {
            ScopeView::Project { org, name: project }
        }),
        scope_named(org, None) == ScopeView::Org(org),
{
}

/// The import moves on to the next user: who comes next is asked for, and where no one does the
/// import ends with everything that was granted.
pub open spec fn moves_on(before: ImportView, after: (ImportView, ImportActionView), imported: Seq<EntryView>) -> bool {
    &&& after.0.subjects == before.subjects
    &&& after.0.org == before.org && after.0.repo == before.repo
    &&& after.0.seeding is None
    &&& after.0.next == before.next + 1
    &&& if before.next + 1 < before.subjects.len() {
        &&& after.1 == (ImportActionView::AskPermissions { subject: before.subjects[before.next + 1] })
        &&& after.0.imported == imported
        &&& !after.0.over
    } else {
        after.1 == ImportActionView::Done(Ok(imported)) && after.0.over
    }
}

/// A user with any right on the repo is granted a role on its project.
pub proof fn users_with_rights_are_granted_a_role(v: ImportView, p: Permissions)
    requires
        v.wf(),
        !v.over,
        v.seeding is None,
    ensures
        p.admin || p.write || p.read ==> {
            let after = v.after(ImportEvent::Permissions(Ok(p)));
            &&& after.1 matches ImportActionView::Grant { binding }
            &&& binding.subject == v.subjects[v.next]
            &&& binding.scope == (ScopeView::Project { org: v.org, name: v.repo })
            &&& after.0.seeding == Some(binding.role)
            &&& p.admin ==> binding.role == Role::Admin
            &&& !p.admin && p.write ==> binding.role == Role::Member
            &&& !p.admin && !p.write ==> binding.role == Role::Viewer
            &&& after.0.next == v.next && after.0.imported == v.imported && !after.0.over
        },
{
}

/// A user without rights is passed over, and a granted role is reported with the user and the
/// project it was granted on; either way the import goes on to the next user.
pub proof fn every_user_has_their_turn(v: ImportView, p: Permissions, role: Role)
    requires
        v.wf(),
        !v.over,
        !p.admin && !p.write && !p.read,
    ensures
        v.seeding is None ==> moves_on(v, v.after(ImportEvent::Permissions(Ok(p))), v.imported),
        v.seeding == Some(role) ==> moves_on(
            v,
            v.after(ImportEvent::Granted(Ok(()))),
            v.imported.push(
                EntryView {
                    subject: v.subjects[v.next],
                    role: (match role {
                        Role::Owner => "owner"@,
                        Role::Admin => "admin"@,
                        Role::Member => "member"@,
                        Role::Viewer => "viewer"@,
                    }),
                    project: v.repo,
                },
            ),
        ),
{
}

/// What the forge or the store refuses ends the import with its message.
pub proof fn failures_end_the_import(v: ImportView, m: String)
    requires
        v.wf(),
        !v.over,
    ensures
        v.seeding is None ==> v.after(ImportEvent::Permissions(Err(m))).1 == ImportActionView::Done(
            Err(ApiErrorView::BadRequest("forge permissions for "@ + v.subjects[v.next] + ": "@ + m@)),
        ),
        v.seeding is Some ==> v.after(ImportEvent::Granted(Err(m))).1 == ImportActionView::Done(
            Err(ApiErrorView::BadRequest(m@)),
        ),
{
}

/// A listed binding names its subject, its role and, where it is one of a project, the project.
pub proof fn bindings_are_listed_as_they_are(d: BindingDto, b: Binding)
    requires
        binding_shown(d, b),
    ensures
        d.subject@ == b.subject@,
        d.role@ == match b.role {
            Role::Owner => "owner"@,
            Role::Admin => "admin"@,
            Role::Member => "member"@,
            Role::Viewer => "viewer"@,
        },
        b.scope@ matches ScopeView::Project { org, name } ==> d.project@ == name,
        b.scope@ is Org ==> d.project@.len() == 0,
{
}

} // verus!
