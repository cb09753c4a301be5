//! Logging in and out: what a browser's callback is held against, and the sessions that follow.

use crate::authz::{self, Principal, Session, SESSION_TTL_MS};
use crate::errors::{ApiError, ApiErrorView};
use crate::ids;
use crate::oauth::{self, LoginFlow};
use crate::oidc::IdentityError;
use crate::text;
use vstd::prelude::*;

verus! {

/// A callback's code and the flow it belongs to, or why it is refused. The state cookie shows that
/// this browser began the login: without it, or with another state, the callback is turned away
/// before any code is exchanged.
pub fn oauth_callback(configured: bool, code: Option<String>, state: Option<String>, cookie: Option<&str>) -> (r: Result<
    (String, LoginFlow),
    ApiError,
>)
    ensures
        match r {
            Ok(b) => {
                &&& configured
                &&& code == Some(b.0)
                &&& state matches Some(s) && s@ == b.1.state@
                &&& cookie matches Some(c) && oauth::flow_of(text::split(c@, '.')) == Some(b.1.parts())
            },
            Err(e) => e@ == if !configured {
                ApiErrorView::NotFound
            } else if code is None || state is None {
                ApiErrorView::BadRequest("missing code/state"@)
            } else {
                ApiErrorView::Unauthorized
            },
        },
        r is Ok <==> configured && code is Some && state is Some && (cookie matches Some(c) && (oauth::flow_of(
            text::split(c@, '.'),
        ) matches Some(f) && f.0 == state->0@)),
{
    if !configured {
        return Err(ApiError::NotFound);
    }
    match (code, state) {
        (Some(code), Some(state)) => match oauth::returned_flow(cookie, state.as_str()) {
            Some(flow) => Ok((code, flow)),
            None => Err(ApiError::Unauthorized),
        },
        _ => Err(ApiError::BadRequest("missing code/state".to_owned())),
    }
}

/// The session of a login that came to a principal; any failure is answered alike.
pub fn finish_login(authenticated: Result<Principal, IdentityError>, now_ms: i64) -> (r: Result<Session, ApiError>)
    requires
        now_ms + SESSION_TTL_MS <= i64::MAX,
    ensures
        match authenticated {
            Ok(p) => r matches Ok(s) && s.principal == p && s.expires_at == now_ms + SESSION_TTL_MS
                && ids::hyphenated_uuid(s.id@, '4') && ids::hyphenated_uuid(s.csrf@, '4'),
            Err(_) => r matches Err(e) && e@ == ApiErrorView::Unauthorized,
        },
{
    match authenticated {
        Ok(p) => Ok(authz::mint_session(p, now_ms)),
        Err(_) => Err(ApiError::Unauthorized),
    }
}

/// The session that a logout revokes, where the request presents one.
pub fn logout(configured: bool, authorization: Option<&str>, cookie: Option<&str>) -> (r: Result<Option<String>, ApiError>)
    ensures
        if !configured {
            r matches Err(e) && e@ == ApiErrorView::NotFound
        } else {
            r matches Ok(id) && text::opt_view(id) == match authz::session_of(
                text::str_opt(authorization),
                text::str_opt(cookie),
            ) {
                Some((id, _)) => Some(id),
                None => None,
            }
        },
{
    if !configured {
        return Err(ApiError::NotFound);
    }
    match authz::session_id(authorization, cookie) {
        Some((id, _)) => Ok(Some(id)),
        None => Ok(None),
    }
}

} // verus!
