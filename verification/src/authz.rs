//! Who a request comes from and what it may do.
//!
//! The session store, the role bindings and the clock answer elsewhere; the functions here say
//! what is asked of them and what follows from each answer.

use crate::errors::{ApiError, ApiErrorView};
use crate::ids;
use crate::order;
use crate::text;
use vstd::prelude::*;

verus! {

/// What a request wants to do.
#[derive(Debug, Clone, Copy, PartialEq, Eq, Structural)]
pub enum Action {
    Read,
    Write,
    Administer,
}

#[derive(Debug, Clone, Copy, PartialEq, Eq, Structural)]
pub enum Role {
    Viewer,
    Member,
    Admin,
    Owner,
}

pub open spec fn role_word(r: Role) -> Seq<char> {
    match r {
        Role::Viewer => "viewer"@,
        Role::Member => "member"@,
        Role::Admin => "admin"@,
        Role::Owner => "owner"@,
    }
}

/// The word a role goes by in requests and listings.
pub fn role_name(r: Role) -> (s: &'static str)
    ensures
        s@ == role_word(r),
{
    match r {
        Role::Viewer => "viewer",
        Role::Member => "member",
        Role::Admin => "admin",
        Role::Owner => "owner",
    }
}

/// The role's own name, as a principal's roles are listed.
pub open spec fn role_title(r: Role) -> Seq<char> {
    match r {
        Role::Viewer => "Viewer"@,
        Role::Member => "Member"@,
        Role::Admin => "Admin"@,
        Role::Owner => "Owner"@,
    }
}

fn role_label(r: Role) -> (s: &'static str)
    ensures
        s@ == role_title(r),
{
    match r {
        Role::Viewer => "Viewer",
        Role::Member => "Member",
        Role::Admin => "Admin",
        Role::Owner => "Owner",
    }
}

/// The role a word stands for.
pub fn parse_role(s: &str) -> (r: Result<Role, ApiError>)
    ensures
        match r {
            Ok(role) => s@ == role_word(role),
            Err(e) => (forall|role: Role| s@ != #[trigger] role_word(role)) && e@ == ApiErrorView::BadRequest(
                "unknown role `"@ + s@ + "` (want viewer|member|admin|owner)"@,
            ),
        },
{
    if text::str_eq(s, "viewer") {
        Ok(Role::Viewer)
    } else if text::str_eq(s, "member") {
        Ok(Role::Member)
    } else if text::str_eq(s, "admin") {
        Ok(Role::Admin)
    } else if text::str_eq(s, "owner") {
        Ok(Role::Owner)
    } else {
        let mut m: String = "unknown role `".to_owned();
        m.append(s);
        m.append("` (want viewer|member|admin|owner)");
        Err(ApiError::BadRequest(m))
    }
}

/// Every role is the one its own word stands for.
pub proof fn roles_round_trip(a: Role, b: Role)
    ensures
        role_word(a) == role_word(b) ==> a == b,
{
    reveal_strlit("viewer");
    reveal_strlit("member");
    reveal_strlit("admin");
    reveal_strlit("owner");
    assert("viewer"@[0] == 'v');
    assert("member"@[0] == 'm');
    assert("admin"@[0] == 'a');
    assert("owner"@[0] == 'o');
}

/// Each role goes by its own word, in requests and in listings.
pub proof fn roles_go_by_their_name(r: Role)
    ensures
        match r {
            Role::Viewer => role_word(r) == "viewer"@ && role_title(r) == "Viewer"@,
            Role::Member => role_word(r) == "member"@ && role_title(r) == "Member"@,
            Role::Admin => role_word(r) == "admin"@ && role_title(r) == "Admin"@,
            Role::Owner => role_word(r) == "owner"@ && role_title(r) == "Owner"@,
        },
{
}

/// An authenticated identity.
#[derive(Debug)]
pub struct Principal {
    pub subject: String,
    pub display_name: Option<String>,
    pub roles: Vec<Role>,
}

/// The mathematical model of a [`Principal`].
#[verifier::ext_equal]
pub struct PrincipalView {
    pub subject: Seq<char>,
    pub display_name: Option<Seq<char>>,
    pub roles: Seq<Role>,
}

impl View for Principal {
    type V = PrincipalView;

    open spec fn view(&self) -> PrincipalView {
        PrincipalView {
            subject: self.subject@,
            display_name: text::opt_view(self.display_name),
            roles: self.roles@,
        }
    }
}

/// A server-side session.
#[derive(Debug)]
pub struct Session {
    pub id: String,
    pub principal: Principal,
    pub expires_at: i64,
    pub csrf: String,
}

/// The part of the world a role binding covers.
#[derive(Debug)]
pub enum Scope {
    Org(String),
    Project { org: String, name: String },
}

/// The mathematical model of a [`Scope`].
pub enum ScopeView {
    Org(Seq<char>),
    Project { org: Seq<char>, name: Seq<char> },
}

impl View for Scope {
    type V = ScopeView;

    open spec fn view(&self) -> ScopeView {
        match self {
            Scope::Org(o) => ScopeView::Org(o@),
            Scope::Project { org, name } => ScopeView::Project { org: org@, name: name@ },
        }
    }
}

/// How a request presented its session.
#[derive(Debug, Clone, Copy, PartialEq, Eq, Structural)]
pub enum AuthVia {
    Bearer,
    Cookie,
}

/// The value of the first piece that, trimmed, starts with `prefix`.
pub open spec fn first_with_prefix(pieces: Seq<Seq<char>>, prefix: Seq<char>) -> Option<Seq<char>>
    decreases pieces.len(),
{
    if pieces.len() == 0 {
        None
    } else {
        match text::without_prefix(text::trimmed(pieces[0]), prefix) {
            Some(v) => Some(v),
            None => first_with_prefix(pieces.drop_first(), prefix),
        }
    }
}

/// The value of a cookie in a `Cookie` header.
pub open spec fn cookie_of(header: Option<Seq<char>>, name: Seq<char>) -> Option<Seq<char>> {
    match header {
        Some(h) => first_with_prefix(text::split(h, ';'), name + "="@),
        None => None,
    }
}

/// A cookie's value is what stands behind its name in the first piece of the header that has it.
pub proof fn the_first_cookie_counts(header: Seq<char>, name: Seq<char>, i: int, value: Seq<char>)
    requires
        0 <= i < text::split(header, ';').len(),
        text::trimmed(text::split(header, ';')[i]) == name + "="@ + value,
        forall|j: int|
            0 <= j < i ==> !text::has_prefix(text::trimmed(#[trigger] text::split(header, ';')[j]), name + "="@),
    ensures
        cookie_of(Some(header), name) == Some(value),
{
    first_piece_counts(text::split(header, ';'), name + "="@, i, value);
}

proof fn first_piece_counts(pieces: Seq<Seq<char>>, prefix: Seq<char>, i: int, value: Seq<char>)
    requires
        0 <= i < pieces.len(),
        text::trimmed(pieces[i]) == prefix + value,
        forall|j: int| 0 <= j < i ==> !text::has_prefix(text::trimmed(#[trigger] pieces[j]), prefix),
    ensures
        first_with_prefix(pieces, prefix) == Some(value),
    decreases pieces.len(),
{
    if i == 0 {
        let s = prefix + value;
        assert(s.subrange(0, prefix.len() as int) =~= prefix);
        assert(s.subrange(prefix.len() as int, s.len() as int) =~= value);
    } else {
        assert(!text::has_prefix(text::trimmed(pieces[0]), prefix));
        let rest = pieces.drop_first();
        assert forall|j: int| 0 <= j < i - 1 implies !text::has_prefix(text::trimmed(#[trigger] rest[j]), prefix) by {
            assert(rest[j] == pieces[j + 1]);
        }
        first_piece_counts(rest, prefix, i - 1, value);
    }
}

/// A header without the cookie gives no value.
pub proof fn missing_cookies_are_not_found(header: Seq<char>, name: Seq<char>)
    requires
        forall|j: int|
            0 <= j < text::split(header, ';').len() ==> !text::has_prefix(
                text::trimmed(#[trigger] text::split(header, ';')[j]),
                name + "="@,
            ),
    ensures
        cookie_of(Some(header), name) is None,
        cookie_of(None, name) is None,
{
    no_piece_counts(text::split(header, ';'), name + "="@);
}

proof fn no_piece_counts(pieces: Seq<Seq<char>>, prefix: Seq<char>)
    requires
        forall|j: int| 0 <= j < pieces.len() ==> !text::has_prefix(text::trimmed(#[trigger] pieces[j]), prefix),
    ensures
        first_with_prefix(pieces, prefix) is None,
    decreases pieces.len(),
{
    if pieces.len() > 0 {
        assert(!text::has_prefix(text::trimmed(pieces[0]), prefix));
        let rest = pieces.drop_first();
        assert forall|j: int| 0 <= j < rest.len() implies !text::has_prefix(text::trimmed(#[trigger] rest[j]), prefix) by {
            assert(rest[j] == pieces[j + 1]);
        }
        no_piece_counts(rest, prefix);
    }
}

/// The value of cookie `name`, if the header holds it.
pub fn cookie_value(header: Option<&str>, name: &str) -> (r: Option<String>)
    ensures
        text::opt_view(r) == cookie_of(text::str_opt(header), name@),
{
    let h = match header {
        None => {
            return None;
        },
        Some(h) => h,
    };
    let mut prefix: String = name.to_owned();
    prefix.append("=");
    let pieces = text::split_char(h, ';');
    let ghost all = text::views(pieces@);
    let mut i: usize = 0;
    assert(all.skip(0) =~= all);
    while i < pieces.len()
        invariant
            i <= pieces@.len(),
            all == text::views(pieces@),
            all == text::split(h@, ';'),
            text::str_opt(header) == Some(h@),
            prefix@ == name@ + "="@,
            first_with_prefix(all, prefix@) == first_with_prefix(all.skip(i as int), prefix@),
        decreases pieces@.len() - i,
    {
        let ghost rest = all.skip(i as int);
        assert(rest[0] == pieces@[i as int]@);
        assert(rest.drop_first() =~= all.skip(i + 1));
        let piece = text::trim(pieces[i].as_str());
        match text::strip_prefix(piece.as_str(), prefix.as_str()) {
            Some(v) => {
                return Some(v);
            },
            None => {},
        }
        i = i + 1;
    }
    None
}

pub open spec fn session_of(authorization: Option<Seq<char>>, cookie: Option<Seq<char>>) -> Option<(Seq<char>, AuthVia)> {
    match authorization {
        Some(a) if text::without_prefix(a, "Bearer "@) is Some => Some(
            (text::without_prefix(a, "Bearer "@)->0, AuthVia::Bearer),
        ),
        _ => match cookie_of(cookie, "scarab_session"@) {
            Some(v) => Some((v, AuthVia::Cookie)),
            None => None,
        },
    }
}

/// A bearer token is the session, whatever cookies come with it; without one the session cookie is.
pub proof fn bearer_tokens_go_before_cookies(token: Seq<char>, authorization: Option<Seq<char>>, cookie: Option<Seq<char>>)
    ensures
        session_of(Some("Bearer "@ + token), cookie) == Some((token, AuthVia::Bearer)),
        authorization is None || !text::has_prefix(authorization->0, "Bearer "@) ==> (match cookie_of(
            cookie,
            "scarab_session"@,
        ) {
            Some(v) => session_of(authorization, cookie) == Some((v, AuthVia::Cookie)),
            None => session_of(authorization, cookie) is None,
        }),
{
    let p = "Bearer "@;
    let s = p + token;
    assert(s.subrange(0, p.len() as int) =~= p);
    assert(s.subrange(p.len() as int, s.len() as int) =~= token);
}

/// The session id a request presents: the bearer token, or else the session cookie.
pub fn session_id(authorization: Option<&str>, cookie: Option<&str>) -> (r: Option<(String, AuthVia)>)
    ensures
        match r {
            Some((id, via)) => session_of(text::str_opt(authorization), text::str_opt(cookie)) == Some((id@, via)),
            None => session_of(text::str_opt(authorization), text::str_opt(cookie)) is None,
        },
{
    match authorization {
        Some(a) => match text::strip_prefix(a, "Bearer ") {
            Some(tok) => {
                return Some((tok, AuthVia::Bearer));
            },
            None => {},
        },
        None => {},
    }
    match cookie_value(cookie, "scarab_session") {
        Some(v) => Some((v, AuthVia::Cookie)),
        None => None,
    }
}

/// Where authentication goes from the headers.
#[derive(Debug)]
pub enum AuthStep {
    /// No session store is configured: everyone is the synthetic owner.
    Anonymous(Principal),
    /// The session is to be looked up.
    Lookup { id: String, via: AuthVia },
    Refused(ApiError),
}

/// The synthetic principal of an installation without a session store.
pub open spec fn anonymous() -> PrincipalView {
    PrincipalView { subject: "anonymous"@, display_name: None, roles: seq![Role::Owner] }
}

/// The first step of authentication: from the headers to a session id.
pub fn authenticate(sessions_configured: bool, authorization: Option<&str>, cookie: Option<&str>) -> (r: AuthStep)
    ensures
        match r {
            AuthStep::Anonymous(p) => !sessions_configured && p@ == anonymous(),
            AuthStep::Lookup { id, via } => sessions_configured && session_of(text::str_opt(authorization), text::str_opt(cookie))
                == Some((id@, via)),
            AuthStep::Refused(e) => sessions_configured && session_of(text::str_opt(authorization), text::str_opt(cookie)) is None
                && e@ == ApiErrorView::Unauthorized,
        },
{
    if !sessions_configured {
        let mut roles: Vec<Role> = Vec::new();
        roles.push(Role::Owner);
        assert(roles@ =~= seq![Role::Owner]);
        return AuthStep::Anonymous(Principal { subject: "anonymous".to_owned(), display_name: None, roles });
    }
    match session_id(authorization, cookie) {
        Some((id, via)) => AuthStep::Lookup { id, via },
        None => AuthStep::Refused(ApiError::Unauthorized),
    }
}

/// The request proves that it was not forged from another site: it only reads, or it carries its
/// credential itself, or it repeats the session's token.
pub open spec fn csrf_proved(action: Action, via: AuthVia, csrf: Seq<char>, presented: Option<Seq<char>>) -> bool {
    action == Action::Read || via == AuthVia::Bearer || (csrf.len() > 0 && presented == Some(csrf))
}

/// A request that changes something and comes with a cookie is let through exactly where it repeats
/// the session's own token, and never where the session has none; a read and a bearer token need none.
pub proof fn forged_requests_are_refused(action: Action, via: AuthVia, csrf: Seq<char>, presented: Option<Seq<char>>)
    ensures
        action == Action::Read ==> csrf_proved(action, via, csrf, presented),
        (via == AuthVia::Bearer) ==> csrf_proved(action, via, csrf, presented),
        action != Action::Read && via == AuthVia::Cookie ==> (csrf_proved(action, via, csrf, presented) <==> csrf.len() > 0
            && (presented matches Some(p) && p == csrf)),
{
}

/// The second step of authentication: what the store answered for the session id. `found` is
/// `None` where the store failed or has no such session; `valid` is whether it has not expired.
pub fn admit_session(found: Option<Session>, valid: bool, action: Action, via: AuthVia, presented: Option<&str>) -> (r: Result<
    Principal,
    ApiError,
>)
    ensures
        match r {
            Ok(p) => found matches Some(s) && valid && csrf_proved(action, via, s.csrf@, text::str_opt(presented)) && p
                == s.principal,
            Err(e) => e@ == (match found {
                Some(s) if valid => ApiErrorView::Forbidden,
                _ => ApiErrorView::Unauthorized,
            }) && !(found matches Some(s) && valid && csrf_proved(action, via, s.csrf@, text::str_opt(presented))),
        },
{
    let session = match found {
        None => {
            return Err(ApiError::Unauthorized);
        },
        Some(s) => s,
    };
    if !valid {
        return Err(ApiError::Unauthorized);
    }
    if action != Action::Read && via == AuthVia::Cookie {
        let matches_token: bool = match presented {
            Some(p) => text::str_eq(p, session.csrf.as_str()),
            None => false,
        };
        if session.csrf.as_str().unicode_len() == 0 || !matches_token {
            return Err(ApiError::Forbidden);
        }
    }
    Ok(session.principal)
}

/// What the role bindings say of a principal in a scope.
#[derive(Debug, Clone, Copy, PartialEq, Eq, Structural)]
pub enum BindingAnswer {
    /// No bindings are configured, or the resource belongs to no tenant.
    NotConsulted,
    /// The bindings could not be read.
    Failed,
    /// The principal has no role there.
    NoRole,
    /// The principal's role there, by whether it allows the action.
    Role { allows: bool },
}

/// Whether the bindings have to be asked at all.
pub fn consults_bindings(globally_allowed: bool, bindings_configured: bool, tenanted: bool) -> (r: bool)
    ensures
        r == (!globally_allowed && bindings_configured && tenanted),
{
    !globally_allowed && bindings_configured && tenanted
}

/// The decision: a role of the principal itself allows everywhere; else the binding in the
/// request's own scope decides.
pub fn authorize_scoped(principal: Principal, globally_allowed: bool, answer: BindingAnswer) -> (r: Result<Principal, ApiError>)
    ensures
        match r {
            Ok(p) => p == principal && (globally_allowed || answer == (BindingAnswer::Role { allows: true })),
            Err(e) => e@ == ApiErrorView::Forbidden && !globally_allowed && answer != (BindingAnswer::Role {
                allows: true,
            }),
        },
{
    if globally_allowed {
        return Ok(principal);
    }
    match answer {
        BindingAnswer::Role { allows } => {
            if allows {
                return Ok(principal);
            }
        },
        _ => {},
    }
    Err(ApiError::Forbidden)
}

/// The tenant scope of a run, if one was stamped on it.
pub fn run_scope(tenant: Option<(String, String)>) -> (r: Option<Scope>)
    ensures
        match tenant {
            Some((org, name)) => r matches Some(s) && s@ == (ScopeView::Project { org: org@, name: name@ }),
            None => r is None,
        },
{
    match tenant {
        Some((org, name)) => Some(Scope::Project { org, name }),
        None => None,
    }
}

/// How long an issued session stays valid.
pub const SESSION_TTL_MS: i64 = 86_400_000;

/// Mints a session: an opaque id, a token against forged requests, and its expiry.
pub fn mint_session(principal: Principal, now_ms: i64) -> (r: Session)
    requires
        now_ms + SESSION_TTL_MS <= i64::MAX,
    ensures
        r.principal == principal,
        r.expires_at == now_ms + SESSION_TTL_MS,
        ids::hyphenated_uuid(r.id@, '4'),
        ids::hyphenated_uuid(r.csrf@, '4'),
{
    Session { id: ids::uuid_v4(), principal, expires_at: now_ms + SESSION_TTL_MS, csrf: ids::uuid_v4() }
}

/// The cookies of a fresh session: the session's own, which scripts cannot read, and the token,
/// which they can.
pub fn set_session_cookies(session: &Session) -> (r: Vec<String>)
    ensures
        text::views(r@) == seq![
            "scarab_session="@ + session.id@ + "; HttpOnly; Secure; Path=/; SameSite=Lax"@,
            "scarab_csrf="@ + session.csrf@ + "; Secure; Path=/; SameSite=Lax"@,
        ],
{
    let mut a: String = "scarab_session=".to_owned();
    a.append(session.id.as_str());
    a.append("; HttpOnly; Secure; Path=/; SameSite=Lax");
    let mut b: String = "scarab_csrf=".to_owned();
    b.append(session.csrf.as_str());
    b.append("; Secure; Path=/; SameSite=Lax");
    let mut out: Vec<String> = Vec::new();
    out.push(a);
    out.push(b);
    assert(text::views(out@) =~= seq![a@, b@]);
    out
}

/// The cookies that end a session in the browser.
pub fn expired_session_cookies() -> (r: Vec<String>)
    ensures
        text::views(r@) == seq![
            "scarab_session=; HttpOnly; Secure; Path=/; SameSite=Lax; Max-Age=0"@,
            "scarab_csrf=; Secure; Path=/; SameSite=Lax; Max-Age=0"@,
        ],
{
    let mut out: Vec<String> = Vec::new();
    out.push("scarab_session=; HttpOnly; Secure; Path=/; SameSite=Lax; Max-Age=0".to_owned());
    out.push("scarab_csrf=; Secure; Path=/; SameSite=Lax; Max-Age=0".to_owned());
    assert(text::views(out@) =~= seq![
        "scarab_session=; HttpOnly; Secure; Path=/; SameSite=Lax; Max-Age=0"@,
        "scarab_csrf=; Secure; Path=/; SameSite=Lax; Max-Age=0"@,
    ]);
    out
}

/// A login request: a credential of the provider.
#[derive(Debug)]
pub struct LoginRequest {
    pub credential: String,
}

/// What a login answers.
#[derive(Debug)]
pub struct LoginResponse {
    pub session: String,
    pub subject: String,
    pub csrf: String,
}

/// The answer to a login, from its session.
pub fn login_response(session: &Session) -> (r: LoginResponse)
    ensures
        r.session@ == session.id@,
        r.subject@ == session.principal.subject@,
        r.csrf@ == session.csrf@,
{
    LoginResponse {
        session: session.id.clone(),
        subject: session.principal.subject.clone(),
        csrf: session.csrf.clone(),
    }
}

/// What a caller learns of itself.
#[derive(Debug)]
pub struct MeResponse {
    pub subject: String,
    pub display_name: Option<String>,
    pub roles: Vec<String>,
    pub can_administer: bool,
    pub admin_orgs: Vec<String>,
}

/// A principal's own account: its roles by name, and whether it administers anything.
pub fn me(principal: Principal, can_administer: bool, admin_orgs: Vec<String>) -> (r: MeResponse)
    ensures
        r.subject == principal.subject,
        r.display_name == principal.display_name,
        text::views(r.roles@) == principal.roles@.map_values(|x: Role| role_title(x)),
        r.can_administer == (can_administer || admin_orgs@.len() > 0),
        r.admin_orgs == admin_orgs,
{
    let ghost want = principal.roles@.map_values(|x: Role| role_title(x));
    let mut roles: Vec<String> = Vec::new();
    let mut i: usize = 0;
    while i < principal.roles.len()
        invariant
            i <= principal.roles@.len(),
            want == principal.roles@.map_values(|x: Role| role_title(x)),
            text::views(roles@) == want.take(i as int),
        decreases principal.roles@.len() - i,
    {
        let ghost before = text::views(roles@);
        let label = role_label(principal.roles[i]).to_owned();
        let ghost lv = label@;
        roles.push(label);
        assert(text::views(roles@) =~= before.push(lv));
        assert(want.take(i + 1) =~= want.take(i as int).push(lv));
        i = i + 1;
    }
    assert(want.take(i as int) =~= want);
    let can: bool = can_administer || admin_orgs.len() > 0;
    MeResponse {
        subject: principal.subject,
        display_name: principal.display_name,
        roles,
        can_administer: can,
        admin_orgs,
    }
}

/// The orgs with a project, to be asked for a binding each unless a role allows everywhere:
/// ascending, each once.
pub fn candidate_orgs(orgs: &Vec<String>) -> (r: Vec<String>)
    ensures
        order::ascending(text::views(r@)),
        forall|x: Seq<char>| #[trigger] text::views(r@).contains(x) <==> text::views(orgs@).contains(x),
{
    order::sorted_set(orgs)
}

/// The texts that are marked.
pub open spec fn marked_only(s: Seq<Seq<char>>, marks: Seq<bool>) -> Seq<Seq<char>>
    decreases s.len(),
{
    if s.len() == 0 || marks.len() < s.len() {
        Seq::empty()
    } else if marks[s.len() - 1] {
        marked_only(s.drop_last(), marks.take(s.len() - 1)).push(s.last())
    } else {
        marked_only(s.drop_last(), marks.take(s.len() - 1))
    }
}

/// Exactly the marked texts are kept.
pub proof fn the_marked_are_kept(s: Seq<Seq<char>>, marks: Seq<bool>, x: Seq<char>)
    requires
        s.len() == marks.len(),
    ensures
        marked_only(s, marks).contains(x) <==> exists|i: int| 0 <= i < s.len() && #[trigger] s[i] == x && marks[i],
    decreases s.len(),
{
    if s.len() > 0 {
        let n = s.len() - 1;
        let rest = s.drop_last();
        let some = marks.take(n);
        let before = marked_only(rest, some);
        let all = marked_only(s, marks);
        the_marked_are_kept(rest, some, x);
        assert(s[n] == s.last());
        if before.contains(x) {
            let k = choose|k: int| 0 <= k < before.len() && before[k] == x;
            assert(all[k] == x);
            let i = choose|i: int| 0 <= i < rest.len() && #[trigger] rest[i] == x && some[i];
            assert(s[i] == x && marks[i]);
        }
        if marks[n] && s[n] == x {
            assert(all[before.len() as int] == x);
        }
        if all.contains(x) {
            let k = choose|k: int| 0 <= k < all.len() && all[k] == x;
            if k < before.len() {
                assert(before[k] == x);
            }
        }
        if exists|i: int| 0 <= i < s.len() && #[trigger] s[i] == x && marks[i] {
            let i = choose|i: int| 0 <= i < s.len() && #[trigger] s[i] == x && marks[i];
            if i < n {
                assert(rest[i] == x && some[i]);
            }
        }
    }
}

/// The orgs a principal may administer: all of the candidates where a role allows it everywhere,
/// none where no bindings are configured, and else those whose binding allows it.
pub fn administrable_orgs(candidates: Vec<String>, globally_allowed: bool, allowed: Option<Vec<bool>>) -> (r: Vec<String>)
    requires
        allowed matches Some(a) ==> a@.len() == candidates@.len(),
    ensures
        text::views(r@) == (if globally_allowed {
            text::views(candidates@)
        } else {
            match allowed {
                None => Seq::empty(),
                Some(a) => marked_only(text::views(candidates@), a@),
            }
        }),
{
    if globally_allowed {
        return candidates;
    }
    let marks = match allowed {
        None => {
            let none: Vec<String> = Vec::new();
            assert(text::views(none@) =~= Seq::<Seq<char>>::empty());
            return none;
        },
        Some(a) => a,
    };
    let ghost all = text::views(candidates@);
    let mut out: Vec<String> = Vec::new();
    let mut i: usize = 0;
    assert(text::views(out@) =~= marked_only(all.take(0), marks@.take(0)));
    while i < candidates.len()
        invariant
            i <= candidates@.len(),
            marks@.len() == candidates@.len(),
            all == text::views(candidates@),
            text::views(out@) == marked_only(all.take(i as int), marks@.take(i as int)),
        decreases candidates@.len() - i,
    {
        let ghost before = text::views(out@);
        proof {
            assert(all.take(i + 1).drop_last() =~= all.take(i as int));
            assert(marks@.take(i + 1).take(i as int) =~= marks@.take(i as int));
            assert(all.take(i + 1).last() == candidates@[i as int]@);
        }
        if marks[i] {
            out.push(candidates[i].clone());
            assert(text::views(out@) =~= before.push(candidates@[i as int]@));
        }
        i = i + 1;
    }
    assert(all.take(i as int) =~= all);
    assert(marks@.take(i as int) =~= marks@);
    out
}

} // verus!
