//! Failures of the API, of triggers and of dispatches, and what a caller is told of each.

use vstd::prelude::*;

verus! {

/// A request's failure, as the HTTP layer answers it.
#[derive(Debug)]
pub enum ApiError {
    NotFound,
    Unauthorized,
    Forbidden,
    BadRequest(String),
    /// The request conflicts with the resource's current state.
    Conflict(String),
    /// The request's body is larger than is accepted.
    TooLarge(String),
    /// The request is well-formed but the capability does not exist here.
    NotImplemented(String),
    /// The durable store failed; carries the store's own message.
    Db(String),
}

/// The mathematical model of an [`ApiError`].
pub enum ApiErrorView {
    NotFound,
    Unauthorized,
    Forbidden,
    BadRequest(Seq<char>),
    Conflict(Seq<char>),
    TooLarge(Seq<char>),
    NotImplemented(Seq<char>),
    Db(Seq<char>),
}

impl View for ApiError {
    type V = ApiErrorView;

    open spec fn view(&self) -> ApiErrorView {
        match self {
            ApiError::NotFound => ApiErrorView::NotFound,
            ApiError::Unauthorized => ApiErrorView::Unauthorized,
            ApiError::Forbidden => ApiErrorView::Forbidden,
            ApiError::BadRequest(m) => ApiErrorView::BadRequest(m@),
            ApiError::Conflict(m) => ApiErrorView::Conflict(m@),
            ApiError::TooLarge(m) => ApiErrorView::TooLarge(m@),
            ApiError::NotImplemented(m) => ApiErrorView::NotImplemented(m@),
            ApiError::Db(m) => ApiErrorView::Db(m@),
        }
    }
}

impl ApiErrorView {
    /// The HTTP status of the failure.
    pub open spec fn status(self) -> u16 {
        match self {
            ApiErrorView::NotFound => 404,
            ApiErrorView::Unauthorized => 401,
            ApiErrorView::Forbidden => 403,
            ApiErrorView::BadRequest(_) => 400,
            ApiErrorView::Conflict(_) => 409,
            ApiErrorView::TooLarge(_) => 413,
            ApiErrorView::NotImplemented(_) => 501,
            ApiErrorView::Db(_) => 500,
        }
    }

    /// The body that goes with the status.
    pub open spec fn body(self) -> Seq<char> {
        match self {
            ApiErrorView::NotFound => "not found"@,
            ApiErrorView::Unauthorized => "authentication required"@,
            ApiErrorView::Forbidden => "insufficient role"@,
            ApiErrorView::BadRequest(m) => m,
            ApiErrorView::Conflict(m) => m,
            ApiErrorView::TooLarge(m) => m,
            ApiErrorView::NotImplemented(m) => m,
            ApiErrorView::Db(m) => "db error: "@ + m,
        }
    }
}

impl ApiError {
    /// The HTTP status and body the failure is answered with.
    pub fn into_response(self) -> (r: (u16, String))
        ensures
            r.0 == self@.status(),
            r.1@ == self@.body(),
    {
        match self {
            ApiError::NotFound => (404, "not found".to_owned()),
            ApiError::Unauthorized => (401, "authentication required".to_owned()),
            ApiError::Forbidden => (403, "insufficient role".to_owned()),
            ApiError::BadRequest(m) => (400, m),
            ApiError::Conflict(m) => (409, m),
            ApiError::TooLarge(m) => (413, m),
            ApiError::NotImplemented(m) => (501, m),
            ApiError::Db(m) => {
                let mut body = "db error: ".to_owned();
                body.append(m.as_str());
                (500, body)
            },
        }
    }

    /// The failure of a durable-store call.
    pub fn of_db(message: String) -> (r: ApiError)
        ensures
            r@ == ApiErrorView::Db(message@),
    {
        ApiError::Db(message)
    }
}

/// Each failure has its HTTP status and no other shares it; what the caller is told is the failure's
/// own message where it has one.
pub proof fn failures_have_their_status(e: ApiErrorView)
    ensures
        e.status() == 404 <==> e is NotFound,
        e.status() == 401 <==> e is Unauthorized,
        e.status() == 403 <==> e is Forbidden,
        e.status() == 400 <==> e is BadRequest,
        e.status() == 409 <==> e is Conflict,
        e.status() == 413 <==> e is TooLarge,
        e.status() == 501 <==> e is NotImplemented,
        e.status() == 500 <==> e is Db,
        match e {
            ApiErrorView::BadRequest(m) => e.body() == m,
            ApiErrorView::Conflict(m) => e.body() == m,
            ApiErrorView::TooLarge(m) => e.body() == m,
            ApiErrorView::NotImplemented(m) => e.body() == m,
            ApiErrorView::Db(m) => e.body() == "db error: "@ + m,
            ApiErrorView::NotFound => e.body() == "not found"@,
            ApiErrorView::Unauthorized => e.body() == "authentication required"@,
            ApiErrorView::Forbidden => e.body() == "insufficient role"@,
        },
{
}

/// What a forge adapter failed with. `rendered` is the adapter's own message.
#[derive(Debug)]
pub enum ForgeError {
    /// The forge answered with an API failure: the thing asked for is not there.
    Api { rendered: String },
    /// The adapter does not have the capability `what`.
    Unsupported { what: String, rendered: String },
    /// A delivery the adapter does not act on.
    UnsupportedEvent { rendered: String },
    Other { rendered: String },
}

impl ForgeError {
    pub open spec fn message(self) -> Seq<char> {
        match self {
            ForgeError::Api { rendered } => rendered@,
            ForgeError::Unsupported { what, rendered } => rendered@,
            ForgeError::UnsupportedEvent { rendered } => rendered@,
            ForgeError::Other { rendered } => rendered@,
        }
    }

    /// The adapter's own message.
    pub fn into_message(self) -> (r: String)
        ensures
            r@ == self.message(),
    {
        match self {
            ForgeError::Api { rendered } => rendered,
            ForgeError::Unsupported { what: _, rendered } => rendered,
            ForgeError::UnsupportedEvent { rendered } => rendered,
            ForgeError::Other { rendered } => rendered,
        }
    }
}

/// Why a triggered run could not be built from a forge event.
#[derive(Debug)]
pub enum TriggerError {
    Forge(ForgeError),
    Pipeline(String),
    NotUtf8,
    /// A target environment's reason guardrail refused a reasonless human dispatch.
    ReasonRequired(String),
    Db(String),
}

/// The mathematical model of a [`TriggerError`].
pub enum TriggerErrorView {
    Forge(ForgeError),
    Pipeline(Seq<char>),
    NotUtf8,
    ReasonRequired(Seq<char>),
    Db(Seq<char>),
}

impl View for TriggerError {
    type V = TriggerErrorView;

    open spec fn view(&self) -> TriggerErrorView {
        match self {
            TriggerError::Forge(e) => TriggerErrorView::Forge(*e),
            TriggerError::Pipeline(m) => TriggerErrorView::Pipeline(m@),
            TriggerError::NotUtf8 => TriggerErrorView::NotUtf8,
            TriggerError::ReasonRequired(m) => TriggerErrorView::ReasonRequired(m@),
            TriggerError::Db(m) => TriggerErrorView::Db(m@),
        }
    }
}

impl TriggerError {
    pub open spec fn message(self) -> Seq<char> {
        match self {
            TriggerError::Forge(e) => e.message(),
            TriggerError::Pipeline(m) => "pipeline: "@ + m@,
            TriggerError::NotUtf8 => "config is not valid UTF-8"@,
            TriggerError::ReasonRequired(m) => m@,
            TriggerError::Db(m) => m@,
        }
    }

    /// The message a caller sees.
    pub fn into_message(self) -> (r: String)
        ensures
            r@ == self.message(),
    {
        match self {
            TriggerError::Forge(e) => e.into_message(),
            TriggerError::Pipeline(m) => {
                let mut s = "pipeline: ".to_owned();
                s.append(m.as_str());
                s
            },
            TriggerError::NotUtf8 => "config is not valid UTF-8".to_owned(),
            TriggerError::ReasonRequired(m) => m,
            TriggerError::Db(m) => m,
        }
    }
}

/// Why a dispatch of a named pipeline created no run.
#[derive(Debug)]
pub enum DispatchError {
    Forge(ForgeError),
    /// No pipeline by that name exists at the resolved commit.
    PipelineNotFound(String),
    NotUtf8,
    Pipeline(String),
    /// The pipeline does not opt into this dispatch trigger.
    NotDispatchable { pipeline: String, kind: String },
    /// A supplied launch parameter failed coercion or validation.
    Params(String),
    /// The dispatch ref is not among the target environment's allowed refs.
    RefNotAllowed(String),
    ReasonRequired(String),
    Db(String),
}

/// The mathematical model of a [`DispatchError`].
pub enum DispatchErrorView {
    Forge(ForgeError),
    PipelineNotFound(Seq<char>),
    NotUtf8,
    Pipeline(Seq<char>),
    NotDispatchable { pipeline: Seq<char>, kind: Seq<char> },
    Params(Seq<char>),
    RefNotAllowed(Seq<char>),
    ReasonRequired(Seq<char>),
    Db(Seq<char>),
}

impl View for DispatchError {
    type V = DispatchErrorView;

    open spec fn view(&self) -> DispatchErrorView {
        match self {
            DispatchError::Forge(e) => DispatchErrorView::Forge(*e),
            DispatchError::PipelineNotFound(p) => DispatchErrorView::PipelineNotFound(p@),
            DispatchError::NotUtf8 => DispatchErrorView::NotUtf8,
            DispatchError::Pipeline(m) => DispatchErrorView::Pipeline(m@),
            DispatchError::NotDispatchable { pipeline, kind } => DispatchErrorView::NotDispatchable {
                pipeline: pipeline@,
                kind: kind@,
            },
            DispatchError::Params(m) => DispatchErrorView::Params(m@),
            DispatchError::RefNotAllowed(r) => DispatchErrorView::RefNotAllowed(r@),
            DispatchError::ReasonRequired(m) => DispatchErrorView::ReasonRequired(m@),
            DispatchError::Db(m) => DispatchErrorView::Db(m@),
        }
    }
}

impl DispatchError {
    pub open spec fn message(self) -> Seq<char> {
        match self {
            DispatchError::Forge(e) => e.message(),
            DispatchError::PipelineNotFound(p) => "no pipeline `"@ + p@ + "` found at the requested ref"@,
            DispatchError::NotUtf8 => "config is not valid UTF-8"@,
            DispatchError::Pipeline(m) => "pipeline: "@ + m@,
            DispatchError::NotDispatchable { pipeline, kind } => "pipeline `"@ + pipeline@
                + "` is not dispatchable: it declares no matching `on: "@ + kind@ + "`"@,
            DispatchError::Params(m) => "invalid launch parameters: "@ + m@,
            DispatchError::RefNotAllowed(r) => "ref `"@ + r@ + "` is not allowed to deploy to this environment"@,
            DispatchError::ReasonRequired(m) => m@,
            DispatchError::Db(m) => m@,
        }
    }

    /// The message a caller sees.
    pub fn into_message(self) -> (r: String)
        ensures
            r@ == self.message(),
    {
        match self {
            DispatchError::Forge(e) => e.into_message(),
            DispatchError::PipelineNotFound(p) => {
                let mut s = "no pipeline `".to_owned();
                s.append(p.as_str());
                s.append("` found at the requested ref");
                s
            },
            DispatchError::NotUtf8 => "config is not valid UTF-8".to_owned(),
            DispatchError::Pipeline(m) => {
                let mut s = "pipeline: ".to_owned();
                s.append(m.as_str());
                s
            },
            DispatchError::NotDispatchable { pipeline, kind } => {
                let mut s = "pipeline `".to_owned();
                s.append(pipeline.as_str());
                s.append("` is not dispatchable: it declares no matching `on: ");
                s.append(kind.as_str());
                s.append("`");
                s
            },
            DispatchError::Params(m) => {
                let mut s = "invalid launch parameters: ".to_owned();
                s.append(m.as_str());
                s
            },
            DispatchError::RefNotAllowed(r) => {
                let mut s = "ref `".to_owned();
                s.append(r.as_str());
                s.append("` is not allowed to deploy to this environment");
                s
            },
            DispatchError::ReasonRequired(m) => m,
            DispatchError::Db(m) => m,
        }
    }
}

/// A dispatch meets the same failures as a trigger.
pub open spec fn dispatch_error_of(e: TriggerError) -> DispatchError {
    match e {
        TriggerError::Forge(f) => DispatchError::Forge(f),
        TriggerError::Pipeline(m) => DispatchError::Pipeline(m),
        TriggerError::NotUtf8 => DispatchError::NotUtf8,
        TriggerError::ReasonRequired(m) => DispatchError::ReasonRequired(m),
        TriggerError::Db(d) => DispatchError::Db(d),
    }
}

/// What a dispatch failure is answered with: a store failure is a server error, an unknown
/// pipeline is not found, everything else is a bad request that says why.
pub open spec fn api_error_of(e: DispatchError) -> ApiErrorView {
    match e {
        DispatchError::Db(d) => ApiErrorView::Db(d@),
        DispatchError::PipelineNotFound(_) => ApiErrorView::NotFound,
        other => ApiErrorView::BadRequest(other.message()),
    }
}

impl From<TriggerError> for DispatchError {
    fn from(e: TriggerError) -> (r: DispatchError) {
        match e {
            TriggerError::Forge(f) => DispatchError::Forge(f),
            TriggerError::Pipeline(m) => DispatchError::Pipeline(m),
            TriggerError::NotUtf8 => DispatchError::NotUtf8,
            TriggerError::ReasonRequired(m) => DispatchError::ReasonRequired(m),
            TriggerError::Db(d) => DispatchError::Db(d),
        }
    }
}

impl vstd::std_specs::convert::FromSpecImpl<TriggerError> for DispatchError {
    open spec fn obeys_from_spec() -> bool {
        true
    }

    open spec fn from_spec(e: TriggerError) -> DispatchError {
        dispatch_error_of(e)
    }
}

impl ApiError {
    /// What a dispatch failure is answered with.
    pub fn from_dispatch(e: DispatchError) -> (r: ApiError)
        ensures
            r@ == api_error_of(e),
    {
        match e {
            DispatchError::Db(d) => ApiError::Db(d),
            DispatchError::PipelineNotFound(_) => ApiError::NotFound,
            other => ApiError::BadRequest(other.into_message()),
        }
    }
}

/// Why a rerun, a retry or a gate decision was refused. The variants that conflict with the
/// step's state carry the engine's message.
#[derive(Debug)]
pub enum RerunError {
    StepNotFound,
    DependencyNotSatisfied(String),
    NotFailed(String),
    NotAManualGate(String),
    GateNotPending(String),
    Db(String),
}

/// An unknown step is not found, a refusal by the step's state is a conflict.
pub open spec fn api_error_of_rerun(e: RerunError) -> ApiErrorView {
    match e {
        RerunError::StepNotFound => ApiErrorView::NotFound,
        RerunError::DependencyNotSatisfied(m) => ApiErrorView::Conflict(m@),
        RerunError::NotFailed(m) => ApiErrorView::Conflict(m@),
        RerunError::NotAManualGate(m) => ApiErrorView::Conflict(m@),
        RerunError::GateNotPending(m) => ApiErrorView::Conflict(m@),
        RerunError::Db(m) => ApiErrorView::Db(m@),
    }
}

impl ApiError {
    /// What a refused rerun, retry or gate decision is answered with.
    pub fn from_rerun(e: RerunError) -> (r: ApiError)
        ensures
            r@ == api_error_of_rerun(e),
    {
        match e {
            RerunError::StepNotFound => ApiError::NotFound,
            RerunError::DependencyNotSatisfied(m) => ApiError::Conflict(m),
            RerunError::NotFailed(m) => ApiError::Conflict(m),
            RerunError::NotAManualGate(m) => ApiError::Conflict(m),
            RerunError::GateNotPending(m) => ApiError::Conflict(m),
            RerunError::Db(m) => ApiError::Db(m),
        }
    }
}

/// A dispatch is answered as not found exactly where there is no such pipeline, as a server error
/// exactly where the store failed, and else as a bad request that says why. It meets each failure of a
/// trigger under the same name.
pub proof fn dispatch_failures_are_told_apart(e: DispatchError, t: TriggerError)
    ensures
        api_error_of(e) is NotFound <==> e is PipelineNotFound,
        api_error_of(e) is Db <==> e is Db,
        e matches DispatchError::Db(m) ==> api_error_of(e) == ApiErrorView::Db(m@),
        !(e is PipelineNotFound) && !(e is Db) ==> api_error_of(e) == ApiErrorView::BadRequest(e.message()),
        match t {
            TriggerError::Forge(f) => dispatch_error_of(t) == DispatchError::Forge(f),
            TriggerError::Pipeline(m) => dispatch_error_of(t) == DispatchError::Pipeline(m),
            TriggerError::NotUtf8 => dispatch_error_of(t) == DispatchError::NotUtf8,
            TriggerError::ReasonRequired(m) => dispatch_error_of(t) == DispatchError::ReasonRequired(m),
            TriggerError::Db(m) => dispatch_error_of(t) == DispatchError::Db(m),
        },
{
}

/// A rerun, a retry or a gate decision is answered as not found exactly where there is no such step,
/// as a server error exactly where the store failed, and else as a conflict with the reason.
pub proof fn refused_reruns_are_conflicts(e: RerunError)
    ensures
        api_error_of_rerun(e) is NotFound <==> e is StepNotFound,
        match e {
            RerunError::StepNotFound => true,
            RerunError::Db(m) => api_error_of_rerun(e) == ApiErrorView::Db(m@),
            RerunError::DependencyNotSatisfied(m) => api_error_of_rerun(e) == ApiErrorView::Conflict(m@),
            RerunError::NotFailed(m) => api_error_of_rerun(e) == ApiErrorView::Conflict(m@),
            RerunError::NotAManualGate(m) => api_error_of_rerun(e) == ApiErrorView::Conflict(m@),
            RerunError::GateNotPending(m) => api_error_of_rerun(e) == ApiErrorView::Conflict(m@),
        },
{
}

/// `202` for an accepted rerun or retry, the mapped failure otherwise.
pub fn rerun_outcome(res: Result<(), RerunError>) -> (r: Result<u16, ApiError>)
    ensures
        match res {
            Ok(_) => r == Ok::<u16, ApiError>(202u16),
            Err(e) => r is Err && r->Err_0@ == api_error_of_rerun(e),
        },
{
    match res {
        Ok(_) => Ok(202),
        Err(e) => Err(ApiError::from_rerun(e)),
    }
}

/// A secret store's failure.
#[derive(Debug)]
pub enum SecretError {
    NotFound,
    Denied,
    Backend(String),
}

/// What a secret store's failure is answered with.
pub fn secret_err(e: SecretError) -> (r: ApiError)
    ensures
        r@ == (match e {
            SecretError::NotFound => ApiErrorView::NotFound,
            SecretError::Denied => ApiErrorView::Forbidden,
            SecretError::Backend(m) => ApiErrorView::Db(m@),
        }),
{
    match e {
        SecretError::NotFound => ApiError::NotFound,
        SecretError::Denied => ApiError::Forbidden,
        SecretError::Backend(m) => ApiError::Db(m),
    }
}

/// A failure is told in its own words: a forge adapter's as the adapter rendered it, a pipeline's
/// with what it is about, and what a dispatch named by its name.
pub proof fn failures_are_told_in_their_words(f: ForgeError, t: TriggerError, d: DispatchError)
    ensures
        match f {
            ForgeError::Api { rendered } => f.message() == rendered@,
            ForgeError::Unsupported { what: _, rendered } => f.message() == rendered@,
            ForgeError::UnsupportedEvent { rendered } => f.message() == rendered@,
            ForgeError::Other { rendered } => f.message() == rendered@,
        },
        t == TriggerError::Forge(f) ==> t.message() == f.message(),
        t matches TriggerError::Pipeline(m) ==> t.message() == "pipeline: "@ + m@,
        t is NotUtf8 ==> t.message() == "config is not valid UTF-8"@,
        t matches TriggerError::ReasonRequired(m) ==> t.message() == m@,
        t matches TriggerError::Db(m) ==> t.message() == m@,
        d == dispatch_error_of(t) ==> d.message() == t.message(),
        d matches DispatchError::PipelineNotFound(p) ==> d.message() == "no pipeline `"@ + p@
            + "` found at the requested ref"@,
        d matches DispatchError::NotDispatchable { pipeline, kind } ==> d.message() == "pipeline `"@ + pipeline@
            + "` is not dispatchable: it declares no matching `on: "@ + kind@ + "`"@,
        d matches DispatchError::Params(m) ==> d.message() == "invalid launch parameters: "@ + m@,
        d matches DispatchError::RefNotAllowed(r) ==> d.message() == "ref `"@ + r@
            + "` is not allowed to deploy to this environment"@,
{
}

} // verus!
