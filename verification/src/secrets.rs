//! Secrets: where they are kept, who may administer them there, and which keys are covered in
//! which environment.

use crate::admission::{ProtectionRules, SecretScope, SecretScopeView};
use crate::authz::{Scope, ScopeView};
use crate::errors::{ApiError, ApiErrorView};
use crate::order;
use crate::text;
use vstd::prelude::*;
use vstd::string::*;

verus! {

/// The scope that administering at an org and optional repo is decided in. An environment adds
/// none.
pub fn rbac_scope(org: &str, repo: Option<&str>) -> (r: Scope)
    ensures
        r@ == (match repo {
            Some(name) => ScopeView::Project { org: org@, name: name@ },
            None => ScopeView::Org(org@),
        }),
{
    match repo {
        Some(name) => Scope::Project { org: org.to_owned(), name: name.to_owned() },
        None => Scope::Org(org.to_owned()),
    }
}

/// The secret scope that a selector names.
pub open spec fn scope_of(org: Seq<char>, repo: Option<Seq<char>>, environment: Option<Seq<char>>) -> Result<
    SecretScopeView,
    Seq<char>,
> {
    if org.len() == 0 {
        Err("org is required"@)
    } else {
        match (repo, environment) {
            (None, None) => Ok(SecretScopeView::Org { org }),
            (Some(repo), None) => Ok(SecretScopeView::Repo { org, repo }),
            (Some(repo), Some(environment)) => Ok(SecretScopeView::Environment { org, repo, environment }),
            (None, Some(_)) => Err("environment-scoped secret requires a repo"@),
        }
    }
}

pub open spec fn scope_result(r: Result<SecretScope, ApiError>, s: Result<SecretScopeView, Seq<char>>) -> bool {
    match r {
        Ok(x) => s matches Ok(v) && x@ == v,
        Err(e) => s matches Err(m) && e@ == ApiErrorView::BadRequest(m),
    }
}

/// A selector names exactly the scope that its parts spell; it is refused without an org, and where it
/// names an environment of no repo.
pub proof fn selectors_name_their_scope(org: Seq<char>, repo: Seq<char>, environment: Seq<char>)
    ensures
        org.len() > 0 ==> scope_of(org, None, None) == Ok::<SecretScopeView, Seq<char>>(SecretScopeView::Org { org }),
        org.len() > 0 ==> scope_of(org, Some(repo), None) == Ok::<SecretScopeView, Seq<char>>(
            SecretScopeView::Repo { org, repo },
        ),
        org.len() > 0 ==> scope_of(org, Some(repo), Some(environment)) == Ok::<SecretScopeView, Seq<char>>(
            SecretScopeView::Environment { org, repo, environment },
        ),
        scope_of(org, None, Some(environment)) is Err,
        forall|r: Option<Seq<char>>, e: Option<Seq<char>>| org.len() == 0 ==> #[trigger] scope_of(org, r, e) is Err,
{
}

/// The secret scope of an org, an optional repo and an optional environment, which needs a repo.
pub fn secret_scope(org: String, repo: Option<String>, environment: Option<String>) -> (r: Result<SecretScope, ApiError>)
    ensures
        scope_result(r, scope_of(org@, text::opt_view(repo), text::opt_view(environment))),
{
    if org.as_str().unicode_len() == 0 {
        return Err(ApiError::BadRequest("org is required".to_owned()));
    }
    match (repo, environment) {
        (None, None) => Ok(SecretScope::Org { org }),
        (Some(repo), None) => Ok(SecretScope::Repo { org, repo }),
        (Some(repo), Some(environment)) => Ok(SecretScope::Environment { org, repo, environment }),
        (None, Some(_)) => Err(ApiError::BadRequest("environment-scoped secret requires a repo".to_owned())),
    }
}

/// A request to define a secret.
#[derive(Debug)]
pub struct PutSecretRequest {
    pub org: String,
    pub repo: Option<String>,
    pub environment: Option<String>,
    pub name: String,
    pub value: String,
}

/// A selector of secrets, with a name where one is meant.
#[derive(Debug)]
pub struct SecretScopeQuery {
    pub org: String,
    pub repo: Option<String>,
    pub environment: Option<String>,
    pub name: Option<String>,
}

/// The names of the secrets at a scope.
#[derive(Debug)]
pub struct SecretListResponse {
    pub names: Vec<String>,
}

/// A secret to be stored.
#[derive(Debug)]
pub struct SecretWrite {
    pub scope: SecretScope,
    pub key: String,
    pub value: Vec<u8>,
}

/// What a request to define a secret stores, or why it is refused.
pub fn put_secret(req: PutSecretRequest) -> (r: Result<SecretWrite, ApiError>)
    ensures
        if req.name@.len() == 0 {
            r matches Err(e) && e@ == ApiErrorView::BadRequest("name is required"@)
        } else {
            match scope_of(req.org@, text::opt_view(req.repo), text::opt_view(req.environment)) {
                Ok(s) => r matches Ok(w) && w.scope@ == s && w.key@ == req.name@ && w.value@ == vstd::utf8::encode_utf8(
                    req.value@,
                ),
                Err(m) => r matches Err(e) && e@ == ApiErrorView::BadRequest(m),
            }
        },
{
    if req.name.as_str().unicode_len() == 0 {
        return Err(ApiError::BadRequest("name is required".to_owned()));
    }
    let value = req.value.as_str().as_bytes_vec();
    match secret_scope(req.org, req.repo, req.environment) {
        Ok(scope) => Ok(SecretWrite { scope, key: req.name, value }),
        Err(e) => Err(e),
    }
}

/// What a request to delete a secret deletes, or why it is refused.
pub fn delete_secret(q: SecretScopeQuery) -> (r: Result<(SecretScope, String), ApiError>)
    ensures
        match q.name {
            Some(name) if name@.len() > 0 => match scope_of(q.org@, text::opt_view(q.repo), text::opt_view(q.environment)) {
                Ok(s) => r matches Ok(w) && w.0@ == s && w.1@ == name@,
                Err(m) => r matches Err(e) && e@ == ApiErrorView::BadRequest(m),
            },
            _ => r matches Err(e) && e@ == ApiErrorView::BadRequest("name is required"@),
        },
{
    let name = match q.name {
        Some(n) => {
            if n.as_str().unicode_len() == 0 {
                return Err(ApiError::BadRequest("name is required".to_owned()));
            }
            n
        },
        None => {
            return Err(ApiError::BadRequest("name is required".to_owned()));
        },
    };
    match secret_scope(q.org, q.repo, q.environment) {
        Ok(scope) => Ok((scope, name)),
        Err(e) => Err(e),
    }
}

/// The subject that an environment's tokens carry.
pub open spec fn oidc_subject_of(org: Seq<char>, repo: Seq<char>, name: Seq<char>) -> Seq<char> {
    "scarab:org/"@ + org + "/repo/"@ + repo + "/env/"@ + name
}

/// The rules of an environment as they are stored: its secret scope and token subject follow from
/// where it is, whatever the request said.
pub fn put_environment(org: &str, repo: &str, name: &str, protection: ProtectionRules) -> (r: ProtectionRules)
    ensures
        r.secret_scope@ == (SecretScopeView::Environment { org: org@, repo: repo@, environment: name@ }),
        r.oidc_subject@ == oidc_subject_of(org@, repo@, name@),
        r.approvers == protection.approvers,
        r.wait_timer == protection.wait_timer,
        r.allowed_refs == protection.allowed_refs,
        r.concurrency == protection.concurrency,
        r.privileged_images == protection.privileged_images,
        r.permit_k8s_overlay == protection.permit_k8s_overlay,
        r.require_reason == protection.require_reason,
{
    let mut subject: String = "scarab:org/".to_owned();
    subject.append(org);
    subject.append("/repo/");
    subject.append(repo);
    subject.append("/env/");
    subject.append(name);
    ProtectionRules {
        approvers: protection.approvers,
        wait_timer: protection.wait_timer,
        allowed_refs: protection.allowed_refs,
        concurrency: protection.concurrency,
        secret_scope: SecretScope::Environment {
            org: org.to_owned(),
            repo: repo.to_owned(),
            environment: name.to_owned(),
        },
        oidc_subject: subject,
        privileged_images: protection.privileged_images,
        permit_k8s_overlay: protection.permit_k8s_overlay,
        require_reason: protection.require_reason,
    }
}

/// The column of the repo's own values.
pub const REPO_DEFAULT_COLUMN: &'static str = "";

/// A cell of the coverage matrix: a key, and the environment it is meant for.
#[derive(Debug)]
pub struct SilenceCellRequest {
    pub key: String,
    pub environment: Option<String>,
}

/// The column that an optional environment names: none or an empty one is the repo's own.
pub open spec fn column_of(environment: Option<Seq<char>>) -> Option<Seq<char>> {
    match environment {
        Some(e) if e.len() > 0 => Some(e),
        _ => None,
    }
}

/// The cell that a request to mark or unmark names, or why it is refused.
pub fn coverage_cell(req: SilenceCellRequest) -> (r: Result<(Option<String>, String), ApiError>)
    ensures
        if req.key@.len() == 0 {
            r matches Err(e) && e@ == ApiErrorView::BadRequest("key is required"@)
        } else {
            r matches Ok(c) && text::opt_view(c.0) == column_of(text::opt_view(req.environment)) && c.1@ == req.key@
        },
{
    if req.key.as_str().unicode_len() == 0 {
        return Err(ApiError::BadRequest("key is required".to_owned()));
    }
    Ok((coverage_column(req.environment), req.key))
}

/// The column that an optional environment names.
pub fn coverage_column(environment: Option<String>) -> (r: Option<String>)
    ensures
        text::opt_view(r) == column_of(text::opt_view(environment)),
{
    match environment {
        Some(e) => if e.as_str().unicode_len() > 0 {
            Some(e)
        } else {
            None
        },
        None => None,
    }
}

/// One key's coverage: its status in each column, and where an inherited value comes from.
#[derive(Debug)]
pub struct SecretMatrixRow {
    pub key: String,
    pub status: Vec<(String, String)>,
    pub inherited_from: Vec<(String, String)>,
}

/// The coverage of a repo's keys.
#[derive(Debug)]
pub struct SecretMatrix {
    pub columns: Vec<String>,
    pub environments: Vec<String>,
    pub keys: Vec<SecretMatrixRow>,
}

/// The keys kept at each scope, and the cells marked as unset on purpose.
#[derive(Debug)]
pub struct Coverage {
    pub org_keys: Vec<String>,
    pub repo_keys: Vec<String>,
    /// Each environment with the keys kept at its own scope.
    pub env_keys: Vec<(String, Vec<String>)>,
    /// Marked cells: the column, where it is an environment's, and the key.
    pub silenced: Vec<(Option<String>, String)>,
}

/// What a cell of the matrix shows.
pub enum Cell {
    Here,
    Inherited(Seq<char>),
    Silenced,
    Unset,
}

pub open spec fn cell_word(c: Cell) -> Seq<char> {
    match c {
        Cell::Here => "set"@,
        Cell::Inherited(_) => "inherited"@,
        Cell::Silenced => "silenced"@,
        Cell::Unset => "unset"@,
    }
}

/// The keys of the last environment with a name.
pub open spec fn keys_of(envs: Seq<(String, Vec<String>)>, name: Seq<char>) -> Option<Seq<Seq<char>>>
    decreases envs.len(),
{
    if envs.len() == 0 {
        None
    } else if envs.last().0@ == name {
        Some(text::views(envs.last().1@))
    } else {
        keys_of(envs.drop_last(), name)
    }
}

/// The marked column of a cell.
pub open spec fn marked_column(c: Option<String>) -> Seq<char> {
    match c {
        Some(s) => s@,
        None => ""@,
    }
}

/// The cell of a column and key is marked.
pub open spec fn is_silenced(silenced: Seq<(Option<String>, String)>, column: Seq<char>, key: Seq<char>) -> bool {
    exists|i: int|
        0 <= i < silenced.len() && marked_column((#[trigger] silenced[i]).0) == column && silenced[i].1@ == key
}

impl Coverage {
    /// A value is kept at exactly the column's scope.
    pub open spec fn set_here(self, column: Seq<char>, key: Seq<char>) -> bool {
        if column == ""@ {
            text::views(self.repo_keys@).contains(key)
        } else {
            keys_of(self.env_keys@, column) matches Some(k) && k.contains(key)
        }
    }

    /// What a cell shows: a value at the column's own scope, else the value of the nearest broader
    /// scope, else whether the gap is on purpose.
    pub open spec fn cell(self, column: Seq<char>, key: Seq<char>) -> Cell {
        if self.set_here(column, key) {
            Cell::Here
        } else if column != ""@ && text::views(self.repo_keys@).contains(key) {
            Cell::Inherited("repo"@)
        } else if text::views(self.org_keys@).contains(key) {
            Cell::Inherited("org"@)
        } else if is_silenced(self.silenced@, column, key) {
            Cell::Silenced
        } else {
            Cell::Unset
        }
    }

    /// The key is kept somewhere, or a cell of it is marked.
    pub open spec fn mentions(self, key: Seq<char>) -> bool {
        ||| text::views(self.org_keys@).contains(key)
        ||| text::views(self.repo_keys@).contains(key)
        ||| exists|i: int|
            0 <= i < self.env_keys@.len() && text::views((#[trigger] self.env_keys@[i]).1@).contains(key)
        ||| exists|i: int| 0 <= i < self.silenced@.len() && (#[trigger] self.silenced@[i]).1@ == key
    }

    /// The columns: the repo's own, then the environments.
    pub open spec fn columns(self) -> Seq<Seq<char>> {
        seq![""@] + self.env_keys@.map_values(|e: (String, Vec<String>)| e.0@)
    }

    fn keys_at(&self, column: &String) -> (r: Option<usize>)
        ensures
            match r {
                Some(i) => i < self.env_keys@.len() && keys_of(self.env_keys@, column@) == Some(
                    text::views(self.env_keys@[i as int].1@),
                ),
                None => keys_of(self.env_keys@, column@) is None,
            },
    {
        let mut i: usize = self.env_keys.len();
        assert(self.env_keys@.take(i as int) =~= self.env_keys@);
        while i > 0
            invariant
                i <= self.env_keys@.len(),
                keys_of(self.env_keys@, column@) == keys_of(self.env_keys@.take(i as int), column@),
            decreases i,
        {
            let ghost seen = self.env_keys@.take(i as int);
            i = i - 1;
            assert(seen.drop_last() =~= self.env_keys@.take(i as int));
            assert(seen.last() == self.env_keys@[i as int]);
            if self.env_keys[i].0 == *column {
                return Some(i);
            }
        }
        None
    }

    fn marked(&self, column: &String, key: &String) -> (r: bool)
        ensures
            r == is_silenced(self.silenced@, column@, key@),
    {
        let mut i: usize = 0;
        while i < self.silenced.len()
            invariant
                i <= self.silenced@.len(),
                forall|j: int|
                    0 <= j < i ==> !(marked_column((#[trigger] self.silenced@[j]).0) == column@ && self.silenced@[j].1@ == key@),
            decreases self.silenced@.len() - i,
        {
            let there: bool = match &self.silenced[i].0 {
                Some(c) => *c == *column,
                None => text::str_eq(column.as_str(), ""),
            };
            if there && self.silenced[i].1 == *key {
                return true;
            }
            i = i + 1;
        }
        false
    }

    /// A cell as its word and, for an inherited value, its origin.
    fn show(&self, column: &String, key: &String) -> (r: (&'static str, Option<&'static str>))
        ensures
            r.0@ == cell_word(self.cell(column@, key@)),
            match r.1 {
                Some(o) => self.cell(column@, key@) == Cell::Inherited(o@),
                None => !(self.cell(column@, key@) is Inherited),
            },
    {
        let default_column: bool = text::str_eq(column.as_str(), "");
        let set_here: bool = if default_column {
            text::contains_string(&self.repo_keys, key.as_str())
        } else {
            match self.keys_at(column) {
                Some(i) => text::contains_string(&self.env_keys[i].1, key.as_str()),
                None => false,
            }
        };
        if set_here {
            ("set", None)
        } else if !default_column && text::contains_string(&self.repo_keys, key.as_str()) {
            ("inherited", Some("repo"))
        } else if text::contains_string(&self.org_keys, key.as_str()) {
            ("inherited", Some("org"))
        } else if self.marked(column, key) {
            ("silenced", None)
        } else {
            ("unset", None)
        }
    }

    fn all_keys(&self) -> (r: Vec<String>)
        ensures
            order::ascending(text::views(r@)),
            forall|key: Seq<char>| #[trigger] text::views(r@).contains(key) <==> self.mentions(key),
    {
        let mut out = order::sorted_set(&self.org_keys);
        let ghost orgs = text::views(self.org_keys@);
        let ghost repos = text::views(self.repo_keys@);
        let mut i: usize = 0;
        while i < self.repo_keys.len()
            invariant
                i <= self.repo_keys@.len(),
                repos == text::views(self.repo_keys@),
                order::ascending(text::views(out@)),
                forall|x: Seq<char>|
                    #[trigger] text::views(out@).contains(x) <==> orgs.contains(x) || repos.take(i as int).contains(x),
            decreases self.repo_keys@.len() - i,
        {
            order::insert(&mut out, &self.repo_keys[i]);
            proof {
                one_more(repos, i as int);
            }
            i = i + 1;
        }
        assert(repos.take(i as int) =~= repos);
        let mut e: usize = 0;
        while e < self.env_keys.len()
            invariant
                e <= self.env_keys@.len(),
                order::ascending(text::views(out@)),
                forall|x: Seq<char>|
                    #[trigger] text::views(out@).contains(x) <==> orgs.contains(x) || repos.contains(x) || exists|k: int|
                        0 <= k < e && text::views((#[trigger] self.env_keys@[k]).1@).contains(x),
            decreases self.env_keys@.len() - e,
        {
            let ghost before = text::views(out@);
            let keys = &self.env_keys[e].1;
            let ghost ks = text::views(keys@);
            let mut k: usize = 0;
            while k < keys.len()
                invariant
                    k <= keys@.len(),
                    ks == text::views(keys@),
                    order::ascending(text::views(out@)),
                    forall|x: Seq<char>|
                        #[trigger] text::views(out@).contains(x) <==> before.contains(x) || ks.take(k as int).contains(x),
                decreases keys@.len() - k,
            {
                order::insert(&mut out, &keys[k]);
                proof {
                    one_more(ks, k as int);
                }
                k = k + 1;
            }
            proof {
                assert(ks.take(k as int) =~= ks);
                assert forall|x: Seq<char>|
                    #[trigger] text::views(out@).contains(x) <==> orgs.contains(x) || repos.contains(x) || exists|j: int|
                        0 <= j < e + 1 && text::views((#[trigger] self.env_keys@[j]).1@).contains(x) by {
                    assert(text::views(out@).contains(x) <==> before.contains(x) || ks.contains(x));
                    assert(ks == text::views(self.env_keys@[e as int].1@));
                }
            }
            e = e + 1;
        }
        let mut s: usize = 0;
        let ghost before = text::views(out@);
        while s < self.silenced.len()
            invariant
                s <= self.silenced@.len(),
                order::ascending(text::views(out@)),
                forall|x: Seq<char>|
                    #[trigger] text::views(out@).contains(x) <==> before.contains(x) || exists|k: int|
                        0 <= k < s && (#[trigger] self.silenced@[k]).1@ == x,
            decreases self.silenced@.len() - s,
        {
            order::insert(&mut out, &self.silenced[s].1);
            s = s + 1;
        }
        out
    }
}

proof fn one_more(s: Seq<Seq<char>>, i: int)
    requires
        0 <= i < s.len(),
    ensures
        forall|x: Seq<char>| #[trigger] s.take(i + 1).contains(x) <==> s.take(i).contains(x) || x == s[i],
{
    let now = s.take(i + 1);
    let was = s.take(i);
    assert forall|x: Seq<char>| #[trigger] now.contains(x) <==> was.contains(x) || x == s[i] by {
        if was.contains(x) {
            let j = choose|j: int| 0 <= j < was.len() && was[j] == x;
            assert(now[j] == x);
        }
        assert(now[i] == s[i]);
        if now.contains(x) {
            let j = choose|j: int| 0 <= j < now.len() && now[j] == x;
            if j < i {
                assert(was[j] == x);
            }
        }
    }
}

pub open spec fn pair_views(v: Seq<(String, String)>) -> Seq<(Seq<char>, Seq<char>)> {
    v.map_values(|p: (String, String)| (p.0@, p.1@))
}

/// The words of a key's cells, by column.
pub open spec fn status_row(c: Coverage, columns: Seq<Seq<char>>, key: Seq<char>) -> Seq<(Seq<char>, Seq<char>)> {
    columns.map_values(|column: Seq<char>| (column, cell_word(c.cell(column, key))))
}

/// The origins of a key's inherited cells, by column.
pub open spec fn origin_row(c: Coverage, columns: Seq<Seq<char>>, key: Seq<char>) -> Seq<(Seq<char>, Seq<char>)>
    decreases columns.len(),
{
    if columns.len() == 0 {
        Seq::empty()
    } else {
        match c.cell(columns.last(), key) {
            Cell::Inherited(o) => origin_row(c, columns.drop_last(), key).push((columns.last(), o)),
            _ => origin_row(c, columns.drop_last(), key),
        }
    }
}

fn matrix_row(c: &Coverage, columns: &Vec<String>, key: String) -> (r: SecretMatrixRow)
    ensures
        r.key@ == key@,
        pair_views(r.status@) == status_row(*c, text::views(columns@), key@),
        pair_views(r.inherited_from@) == origin_row(*c, text::views(columns@), key@),
{
    let ghost cs = text::views(columns@);
    let ghost want = status_row(*c, cs, key@);
    let mut status: Vec<(String, String)> = Vec::new();
    let mut inherited_from: Vec<(String, String)> = Vec::new();
    let mut i: usize = 0;
    assert(pair_views(inherited_from@) =~= origin_row(*c, cs.take(0), key@));
    while i < columns.len()
        invariant
            i <= columns@.len(),
            cs == text::views(columns@),
            want == status_row(*c, cs, key@),
            pair_views(status@) == want.take(i as int),
            pair_views(inherited_from@) == origin_row(*c, cs.take(i as int), key@),
        decreases columns@.len() - i,
    {
        let ghost before = pair_views(status@);
        let ghost origins = pair_views(inherited_from@);
        let column = &columns[i];
        let (word, origin) = c.show(column, &key);
        assert(cs[i as int] == column@);
        status.push((column.clone(), word.to_owned()));
        assert(pair_views(status@) =~= before.push((column@, word@)));
        assert(want.take(i + 1) =~= want.take(i as int).push((column@, word@)));
        assert(cs.take(i + 1).drop_last() =~= cs.take(i as int));
        match origin {
            Some(o) => {
                inherited_from.push((column.clone(), o.to_owned()));
                assert(pair_views(inherited_from@) =~= origins.push((column@, o@)));
            },
            None => {},
        }
        i = i + 1;
    }
    assert(want.take(i as int) =~= want);
    assert(cs.take(i as int) =~= cs);
    SecretMatrixRow { key, status, inherited_from }
}

/// The keys of the rows.
pub open spec fn row_keys(rows: Seq<SecretMatrixRow>) -> Seq<Seq<char>> {
    rows.map_values(|row: SecretMatrixRow| row.key@)
}

/// The coverage matrix: a row for every key that is kept or marked anywhere, ascending, with its
/// status in the repo's own column and in each environment's.
pub fn secret_matrix(c: &Coverage) -> (r: SecretMatrix)
    ensures
        text::views(r.columns@) == c.columns(),
        text::views(r.environments@) == c.env_keys@.map_values(|e: (String, Vec<String>)| e.0@),
        order::ascending(row_keys(r.keys@)),
        forall|key: Seq<char>|
            #[trigger] row_keys(r.keys@).contains(key) <==> c.mentions(key),
        forall|i: int|
            0 <= i < r.keys@.len() ==> pair_views((#[trigger] r.keys@[i]).status@) == status_row(
                *c,
                c.columns(),
                r.keys@[i].key@,
            ) && pair_views(r.keys@[i].inherited_from@) == origin_row(*c, c.columns(), r.keys@[i].key@),
{
    let ghost names = c.env_keys@.map_values(|e: (String, Vec<String>)| e.0@);
    let mut columns: Vec<String> = Vec::new();
    let mut environments: Vec<String> = Vec::new();
    columns.push("".to_owned());
    assert(text::views(columns@) =~= seq![""@] + names.take(0));
    assert(text::views(environments@) =~= names.take(0));
    let mut i: usize = 0;
    while i < c.env_keys.len()
        invariant
            i <= c.env_keys@.len(),
            names == c.env_keys@.map_values(|e: (String, Vec<String>)| e.0@),
            text::views(columns@) == seq![""@] + names.take(i as int),
            text::views(environments@) == names.take(i as int),
        decreases c.env_keys@.len() - i,
    {
        let ghost cols = text::views(columns@);
        let ghost envs = text::views(environments@);
        let name = &c.env_keys[i].0;
        columns.push(name.clone());
        environments.push(name.clone());
        assert(names.take(i + 1) =~= names.take(i as int).push(name@));
        assert(text::views(columns@) =~= cols.push(name@));
        assert(text::views(environments@) =~= envs.push(name@));
        assert(seq![""@] + names.take(i + 1) =~= (seq![""@] + names.take(i as int)).push(name@));
        i = i + 1;
    }
    assert(names.take(i as int) =~= names);
    let all = c.all_keys();
    let ghost ks = text::views(all@);
    let mut keys: Vec<SecretMatrixRow> = Vec::new();
    let mut k: usize = 0;
    while k < all.len()
        invariant
            k <= all@.len(),
            ks == text::views(all@),
            text::views(columns@) == c.columns(),
            keys@.len() == k,
            forall|j: int|
                0 <= j < k ==> (#[trigger] keys@[j]).key@ == ks[j] && pair_views(keys@[j].status@) == status_row(
                    *c,
                    c.columns(),
                    ks[j],
                ) && pair_views(keys@[j].inherited_from@) == origin_row(*c, c.columns(), ks[j]),
        decreases all@.len() - k,
    {
        let row = matrix_row(c, &columns, all[k].clone());
        keys.push(row);
        k = k + 1;
    }
    assert(row_keys(keys@) =~= ks);
    SecretMatrix { columns, environments, keys }
}

/// A key with a value at the repo's scope never shows as missing in any environment.
pub proof fn repo_values_cover_every_environment(c: Coverage, column: Seq<char>, key: Seq<char>)
    requires
        text::views(c.repo_keys@).contains(key),
    ensures
        c.cell(column, key) is Here || c.cell(column, key) == Cell::Inherited("repo"@),
{
}

/// A mark changes only a cell that has no value of its own and none to fall back on.
pub proof fn marks_change_empty_cells_only(c: Coverage, d: Coverage, column: Seq<char>, key: Seq<char>)
    requires
        d.org_keys == c.org_keys,
        d.repo_keys == c.repo_keys,
        d.env_keys == c.env_keys,
        c.cell(column, key) is Here || c.cell(column, key) is Inherited,
    ensures
        d.cell(column, key) == c.cell(column, key),
{
}

/// A cell shows a value that is kept at its own scope as set there, else the value of the repo or of
/// the org as inherited from there, the repo's first; only where no scope has one does it show a gap,
/// and that as silenced exactly where the cell is marked.
pub proof fn cells_show_the_nearest_value(c: Coverage, column: Seq<char>, key: Seq<char>)
    ensures
        ({
            let in_org = exists|i: int| 0 <= i < c.org_keys@.len() && (#[trigger] c.org_keys@[i])@ == key;
            let in_repo = exists|i: int| 0 <= i < c.repo_keys@.len() && (#[trigger] c.repo_keys@[i])@ == key;
            let here = if column == ""@ {
                in_repo
            } else {
                keys_of(c.env_keys@, column) matches Some(k) && k.contains(key)
            };
            let marked = exists|i: int|
                0 <= i < c.silenced@.len() && (#[trigger] c.silenced@[i]).1@ == key && column == (match c.silenced@[i].0 {
                    Some(s) => s@,
                    None => ""@,
                });
            &&& c.cell(column, key) is Here <==> here
            &&& c.cell(column, key) == Cell::Inherited("repo"@) || c.cell(column, key) == Cell::Inherited("org"@) <==> !here && (
            in_repo || in_org)
            &&& !here && in_repo ==> c.cell(column, key) == Cell::Inherited("repo"@)
            &&& !here && !in_repo && in_org ==> c.cell(column, key) == Cell::Inherited("org"@)
            &&& c.cell(column, key) is Silenced <==> !here && !in_repo && !in_org && marked
            &&& c.cell(column, key) is Unset <==> !here && !in_repo && !in_org && !marked
        }),
{
    listed_keys(c.org_keys@, key);
    listed_keys(c.repo_keys@, key);
    let marked = exists|i: int|
        0 <= i < c.silenced@.len() && (#[trigger] c.silenced@[i]).1@ == key && column == (match c.silenced@[i].0 {
            Some(s) => s@,
            None => ""@,
        });
    if marked {
        let i = choose|i: int|
            0 <= i < c.silenced@.len() && (#[trigger] c.silenced@[i]).1@ == key && column == (match c.silenced@[i].0 {
                Some(s) => s@,
                None => ""@,
            });
        assert(marked_column(c.silenced@[i].0) == column);
    }
    if is_silenced(c.silenced@, column, key) {
        let i = choose|i: int|
            0 <= i < c.silenced@.len() && marked_column((#[trigger] c.silenced@[i]).0) == column && c.silenced@[i].1@ == key;
        assert(c.silenced@[i].1@ == key);
    }
}

proof fn listed_keys(v: Seq<String>, key: Seq<char>)
    ensures
        text::views(v).contains(key) <==> exists|i: int| 0 <= i < v.len() && (#[trigger] v[i])@ == key,
{
    let w = text::views(v);
    if w.contains(key) {
        let i = choose|i: int| 0 <= i < w.len() && w[i] == key;
        assert(v[i]@ == key);
    }
    if exists|i: int| 0 <= i < v.len() && (#[trigger] v[i])@ == key {
        let i = choose|i: int| 0 <= i < v.len() && (#[trigger] v[i])@ == key;
        assert(w[i] == key);
    }
}

/// Of environments that share a name the last counts, with exactly its keys.
pub proof fn the_last_environment_counts(envs: Seq<(String, Vec<String>)>, i: int)
    requires
        0 <= i < envs.len(),
        forall|j: int| i < j < envs.len() ==> (#[trigger] envs[j]).0@ != envs[i].0@,
    ensures
        keys_of(envs, envs[i].0@) matches Some(k) && k =~= envs[i].1@.map_values(|s: String| s@),
    decreases envs.len(),
{
    if i < envs.len() - 1 {
        let rest = envs.drop_last();
        assert(envs[envs.len() - 1].0@ != envs[i].0@);
        assert forall|j: int| i < j < rest.len() implies (#[trigger] rest[j]).0@ != rest[i].0@ by {
            assert(rest[j] == envs[j]);
        }
        the_last_environment_counts(rest, i);
    }
}

/// Each state of a cell has its own word.
pub proof fn cells_have_their_word(c: Cell)
    ensures
        match c {
            Cell::Here => cell_word(c) == "set"@,
            Cell::Inherited(_) => cell_word(c) == "inherited"@,
            Cell::Silenced => cell_word(c) == "silenced"@,
            Cell::Unset => cell_word(c) == "unset"@,
        },
{
}

/// The matrix has a column for the repo's own values and then one for each environment, and a row
/// shows the cell of its key in each of them, in that order. Where a row says where a value comes
/// from it does so for exactly the cells that inherit one.
pub proof fn rows_show_every_column(c: Coverage, key: Seq<char>, i: int)
    requires
        0 <= i <= c.env_keys@.len(),
    ensures
        c.columns().len() == c.env_keys@.len() + 1,
        c.columns()[i] == if i == 0 {
            ""@
        } else {
            c.env_keys@[i - 1].0@
        },
        status_row(c, c.columns(), key).len() == c.columns().len(),
        status_row(c, c.columns(), key)[i] == (c.columns()[i], match c.cell(c.columns()[i], key) {
            Cell::Here => "set"@,
            Cell::Inherited(_) => "inherited"@,
            Cell::Silenced => "silenced"@,
            Cell::Unset => "unset"@,
        }),
        c.cell(c.columns()[i], key) matches Cell::Inherited(o) ==> origin_row(c, c.columns(), key).contains(
            (c.columns()[i], o),
        ),
        forall|column: Seq<char>, o: Seq<char>| #[trigger]
            origin_row(c, c.columns(), key).contains((column, o)) ==> c.columns().contains(column) && c.cell(column, key)
                == Cell::Inherited(o),
{
    origins_are_the_inherited(c, c.columns(), key);
}

proof fn origins_are_the_inherited(c: Coverage, columns: Seq<Seq<char>>, key: Seq<char>)
    ensures
        forall|i: int|
            0 <= i < columns.len() ==> (c.cell(#[trigger] columns[i], key) matches Cell::Inherited(o) ==> origin_row(
                c,
                columns,
                key,
            ).contains((columns[i], o))),
        forall|column: Seq<char>, o: Seq<char>| #[trigger]
            origin_row(c, columns, key).contains((column, o)) ==> columns.contains(column) && c.cell(column, key)
                == Cell::Inherited(o),
    decreases columns.len(),
{
    if columns.len() > 0 {
        let rest = columns.drop_last();
        let before = origin_row(c, rest, key);
        let all = origin_row(c, columns, key);
        origins_are_the_inherited(c, rest, key);
        assert forall|i: int| 0 <= i < columns.len() implies (c.cell(#[trigger] columns[i], key) matches Cell::Inherited(o)
            ==> all.contains((columns[i], o))) by {
            if let Cell::Inherited(o) = c.cell(columns[i], key) {
                if i < rest.len() {
                    assert(rest[i] == columns[i]);
                    assert(before.contains((rest[i], o)));
                    let k = choose|k: int| 0 <= k < before.len() && before[k] == (rest[i], o);
                    assert(all[k] == (columns[i], o));
                } else {
                    assert(all[all.len() - 1] == (columns[i], o));
                }
            }
        }
        assert forall|column: Seq<char>, o: Seq<char>| #[trigger] all.contains((column, o)) implies columns.contains(column)
            && c.cell(column, key) == Cell::Inherited(o) by {
            let k = choose|k: int| 0 <= k < all.len() && all[k] == (column, o);
            if k < before.len() {
                assert(before[k] == (column, o));
                assert(before.contains((column, o)));
                let j = choose|j: int| 0 <= j < rest.len() && rest[j] == column;
                assert(columns[j] == column);
            } else {
                assert(columns[columns.len() - 1] == column);
            }
        }
    }
}

/// A key has a row exactly where a scope keeps it or a cell of it is marked.
pub proof fn every_kept_key_has_a_row(c: Coverage, key: Seq<char>, i: int, j: int)
    ensures
        0 <= i < c.org_keys@.len() && c.org_keys@[i]@ == key ==> c.mentions(key),
        0 <= i < c.repo_keys@.len() && c.repo_keys@[i]@ == key ==> c.mentions(key),
        0 <= i < c.env_keys@.len() && 0 <= j < c.env_keys@[i].1@.len() && c.env_keys@[i].1@[j]@ == key ==> c.mentions(key),
        0 <= i < c.silenced@.len() && c.silenced@[i].1@ == key ==> c.mentions(key),
{
    if 0 <= i < c.org_keys@.len() {
        assert(text::views(c.org_keys@)[i] == c.org_keys@[i]@);
    }
    if 0 <= i < c.repo_keys@.len() {
        assert(text::views(c.repo_keys@)[i] == c.repo_keys@[i]@);
    }
    if 0 <= i < c.env_keys@.len() && 0 <= j < c.env_keys@[i].1@.len() {
        assert(text::views(c.env_keys@[i].1@)[j] == c.env_keys@[i].1@[j]@);
    }
}

/// An environment's tokens name its org, its repo and the environment itself, and a cell without an
/// environment is one of the repo's own column.
pub proof fn environments_are_named_where_they_are(org: Seq<char>, repo: Seq<char>, name: Seq<char>)
    ensures
        oidc_subject_of(org, repo, name) == "scarab:org/"@ + org + "/repo/"@ + repo + "/env/"@ + name,
        column_of(None) is None,
        name.len() == 0 ==> column_of(Some(name)) is None,
        name.len() > 0 ==> column_of(Some(name)) == Some(name),
{
}

} // verus!
