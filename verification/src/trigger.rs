//! From an event or a dispatch to runs: which pipelines are read, which libraries they need, and
//! which of them a run is created for.

use crate::admission::{self, RunGovernance};
use crate::catalog::{self, PathName};
use crate::errors::{DispatchError, DispatchErrorView, ForgeError, TriggerError, TriggerErrorView};
use crate::event::{self, DispatchKind, Event};
use crate::json::Json;
use crate::model::PipelineIr;
use crate::persist::{self, DbOp, OpView, PersistPlan, PlanView};
use crate::refs;
use crate::sort;
use crate::text;
use vstd::prelude::*;

verus! {

/// The libraries a pipeline needs, fetched one after another. A library may name further ones;
/// each is asked for once.
pub struct Prefetch {
    pub worklist: Vec<String>,
    pub seen: Vec<String>,
    pub libs: Vec<(String, String)>,
    /// Everything that the pipeline and the libraries read so far name.
    pub demanded: Ghost<Set<Seq<char>>>,
}

pub open spec fn lib_views(v: Seq<(String, String)>) -> Seq<(Seq<char>, Seq<char>)> {
    v.map_values(|l: (String, String)| (l.0@, l.1@))
}

/// What a file at a ref gave.
#[derive(Debug)]
pub enum LibraryRead {
    /// Its text and the libraries that text names.
    Source { text: String, names: Vec<String> },
    NotUtf8,
    Failed(ForgeError),
}

impl Prefetch {
    /// Everything demanded was asked for or waits to be; nothing is asked for twice; and only
    /// what was demanded is asked for.
    pub open spec fn wf(self) -> bool {
        &&& forall|p: Seq<char>|
            #[trigger] self.demanded@.contains(p) <==> text::views(self.seen@).contains(p) || text::views(
                self.worklist@,
            ).contains(p)
        &&& forall|i: int, j: int|
            #![trigger self.seen@[i], self.seen@[j]]
            0 <= i < j < self.seen@.len() ==> self.seen@[i]@ != self.seen@[j]@
    }

    /// Begins with the libraries that the pipeline itself names.
    pub fn begin(names: Vec<String>) -> (r: Prefetch)
        ensures
            r.wf(),
            r.demanded@ == Set::new(|p: Seq<char>| text::views(names@).contains(p)),
            r.seen@.len() == 0,
            r.libs@.len() == 0,
    {
        Prefetch {
            worklist: names,
            seen: Vec::new(),
            libs: Vec::new(),
            demanded: Ghost(Set::new(|p: Seq<char>| text::views(names@).contains(p))),
        }
    }

    /// The next library to read: one that was not asked for before. `None` once there is none,
    /// and then everything demanded was asked for.
    pub fn next(&mut self) -> (r: Option<String>)
        requires
            old(self).wf(),
        ensures
            final(self).wf(),
            final(self).demanded == old(self).demanded,
            final(self).libs == old(self).libs,
            match r {
                Some(p) => final(self).demanded@.contains(p@) && !text::views(old(self).seen@).contains(p@) && text::views(
                    final(self).seen@,
                ) == text::views(old(self).seen@).push(p@),
                None => final(self).seen == old(self).seen && forall|p: Seq<char>|
                    #[trigger] final(self).demanded@.contains(p) ==> text::views(final(self).seen@).contains(p),
            },
    {
        let ghost start = text::views(self.seen@);
        while self.worklist.len() > 0
            invariant
                self.wf(),
                self.demanded == old(self).demanded,
                self.libs == old(self).libs,
                self.seen == old(self).seen,
                start == text::views(old(self).seen@),
            decreases self.worklist@.len(),
        {
            let ghost before = text::views(self.worklist@);
            match self.worklist.pop() {
                None => {},
                Some(p) => {
                    let ghost rest = text::views(self.worklist@);
                    assert(rest =~= before.drop_last());
                    assert(before.last() == p@);
                    assert(before.contains(p@)) by {
                        assert(before[before.len() - 1] == p@);
                    }
                    assert(old(self).demanded@.contains(p@));
                    proof {
                        assert forall|x: Seq<char>| #[trigger] before.contains(x) <==> rest.contains(x) || x == p@ by {
                            if rest.contains(x) {
                                let k = choose|k: int| 0 <= k < rest.len() && rest[k] == x;
                                assert(before[k] == x);
                            }
                            if before.contains(x) {
                                let k = choose|k: int| 0 <= k < before.len() && before[k] == x;
                                if k < rest.len() {
                                    assert(rest[k] == x);
                                }
                            }
                        }
                    }
                    if !text::contains_string(&self.seen, p.as_str()) {
                        let out = p.clone();
                        self.seen.push(p);
                        proof {
                            let now = text::views(self.seen@);
                            assert(now =~= start.push(p@));
                            assert forall|x: Seq<char>| #[trigger] now.contains(x) <==> start.contains(x) || x == p@ by {
                                if start.contains(x) {
                                    let k = choose|k: int| 0 <= k < start.len() && start[k] == x;
                                    assert(now[k] == x);
                                }
                                assert(now[start.len() as int] == p@);
                            }
                            assert forall|x: Seq<char>|
                                #[trigger] self.demanded@.contains(x) <==> now.contains(x) || rest.contains(x) by {
                                assert(old(self).demanded@.contains(x) <==> start.contains(x) || before.contains(x));
                                assert(before.contains(x) <==> rest.contains(x) || x == p@);
                                assert(now.contains(x) <==> start.contains(x) || x == p@);
                            }
                            assert forall|i: int, j: int|
                                #![trigger self.seen@[i], self.seen@[j]]
                                0 <= i < j < self.seen@.len() implies self.seen@[i]@ != self.seen@[j]@ by {
                                if j == start.len() {
                                    assert(start[i] == self.seen@[i]@);
                                    assert(start.contains(start[i]));
                                } else {
                                    assert(old(self).seen@[i]@ != old(self).seen@[j]@);
                                }
                            }
                        }
                        return Some(out);
                    }
                    proof {
                        assert forall|x: Seq<char>|
                            #[trigger] self.demanded@.contains(x) <==> start.contains(x) || rest.contains(x) by {
                            assert(old(self).demanded@.contains(x) <==> start.contains(x) || before.contains(x));
                            assert(before.contains(x) <==> rest.contains(x) || x == p@);
                        }
                    }
                },
            }
        }
        None
    }

    /// Takes what reading a library gave. A library that is not there is left to the compiler to
    /// report.
    pub fn on_read(&mut self, path: String, read: LibraryRead) -> (r: Result<(), TriggerError>)
        requires
            old(self).wf(),
        ensures
            final(self).wf(),
            final(self).seen == old(self).seen,
            match read {
                LibraryRead::Source { text, names } => r is Ok && lib_views(final(self).libs@) == lib_views(
                    old(self).libs@,
                ).push((path@, text@)) && final(self).demanded@ == old(self).demanded@.union(
                    Set::new(|p: Seq<char>| text::views(names@).contains(p)),
                ),
                LibraryRead::NotUtf8 => r matches Err(e) && e@ == TriggerErrorView::NotUtf8 && *final(self) == *old(self),
                LibraryRead::Failed(f) => *final(self) == *old(self) && if f is Api {
                    r is Ok
                } else {
                    r matches Err(e) && e@ == TriggerErrorView::Forge(f)
                },
            },
    {
        match read {
            LibraryRead::NotUtf8 => Err(TriggerError::NotUtf8),
            LibraryRead::Failed(ForgeError::Api { rendered: _ }) => Ok(()),
            LibraryRead::Failed(f) => Err(TriggerError::Forge(f)),
            LibraryRead::Source { text, names } => {
                let ghost libs = lib_views(self.libs@);
                let ghost work = text::views(self.worklist@);
                let ghost more = text::views(names@);
                let mut added: Vec<String> = names;
                self.worklist.append(&mut added);
                self.libs.push((path, text));
                assert(lib_views(self.libs@) =~= libs.push((path@, text@)));
                self.demanded = Ghost(self.demanded@.union(Set::new(|p: Seq<char>| more.contains(p))));
                proof {
                    let now = text::views(self.worklist@);
                    assert(now =~= work + more);
                    assert forall|p: Seq<char>|
                        #[trigger] self.demanded@.contains(p) <==> text::views(self.seen@).contains(p) || now.contains(p) by {
                        assert(old(self).demanded@.contains(p) <==> text::views(self.seen@).contains(p) || work.contains(p));
                        if work.contains(p) {
                            let k = choose|k: int| 0 <= k < work.len() && work[k] == p;
                            assert(now[k] == p);
                        }
                        if more.contains(p) {
                            let k = choose|k: int| 0 <= k < more.len() && more[k] == p;
                            assert(now[work.len() + k] == p);
                        }
                        if now.contains(p) {
                            let k = choose|k: int| 0 <= k < now.len() && now[k] == p;
                            if k < work.len() {
                                assert(work[k] == p);
                            } else {
                                assert(more[k - work.len()] == p);
                            }
                        }
                    }
                }
                Ok(())
            },
        }
    }
}

/// The writes of an admitted run: its plan and, where it was launched with parameters, the
/// parameters behind it.
pub open spec fn created(plan: PlanView, has_params: bool) -> Seq<OpView> {
    if has_params {
        plan.ops.push(OpView::SetParams)
    } else {
        plan.ops
    }
}

/// A run that was launched with parameters keeps them, behind everything else; one that was not
/// writes nothing more than its plan.
pub proof fn launch_parameters_are_kept(plan: PlanView)
    ensures
        created(plan, false) == plan.ops,
        created(plan, true).len() == plan.ops.len() + 1,
        created(plan, true).last() is SetParams,
        created(plan, true).drop_last() =~= plan.ops,
{
}

/// Admits a compiled pipeline under its environment's rules and plans the run's writes. `None` is
/// a ref that the environment does not allow. A run whose group or one of whose steps is rejected
/// is an error, and nothing of it is to be written.
pub fn admit_and_create_run(
    gov: &RunGovernance,
    event: &Event,
    ir: &PipelineIr,
    path: &str,
    excluded: &Vec<String>,
    has_params: bool,
    ref_allowed: bool,
    reason: Result<(), Vec<String>>,
) -> (r: Result<Option<Vec<DbOp>>, TriggerError>)
    ensures
        ({
            let plan = persist::run_plan(*ir, *event, path@, *gov, text::views(excluded@));
            if event.repo is None {
                r matches Err(e) && e@ == TriggerErrorView::Pipeline("event carries no repository"@)
            } else if gov.rules() is Some && !admission::ref_admitted(gov.rules()->0, *event, ref_allowed) {
                r matches Ok(None)
            } else if gov.rules() is Some && reason is Err {
                r matches Err(e) && e@ == TriggerErrorView::ReasonRequired(text::join(text::views(reason->Err_0@), "; "@))
            } else if plan.failure is Some {
                r matches Err(e) && e@ == TriggerErrorView::Pipeline(plan.failure->0)
            } else {
                r matches Ok(Some(ops)) && persist::op_views(ops@) == created(plan, has_params)
            }
        }),
{
    match &event.repo {
        None => {
            return Err(TriggerError::Pipeline("event carries no repository".to_owned()));
        },
        Some(_) => {},
    }
    match admission::admit_run(gov, event, ref_allowed, reason) {
        Err(e) => Err(e),
        Ok(false) => Ok(None),
        Ok(true) => {
            let plan = persist::persist_run_from_ir(ir, event, path, gov, excluded);
            let PersistPlan { ops, failure } = plan;
            match failure {
                Some(m) => Err(TriggerError::Pipeline(m)),
                None => {
                    let mut ops: Vec<DbOp> = ops;
                    if has_params {
                        persist::push_op(&mut ops, DbOp::SetParams);
                    }
                    Ok(Some(ops))
                },
            }
        },
    }
}

/// What compiling a pipeline showed: whether the event triggers it, the steps whose guards are
/// off, and how many steps it has.
#[derive(Debug)]
pub struct PipelineVerdict {
    pub matched: Result<bool, String>,
    pub excluded: Result<Vec<String>, String>,
    pub steps: usize,
}

#[derive(Debug, Clone, Copy, PartialEq, Eq, Structural)]
pub enum TriggerPhase {
    Listing,
    Reading,
    Compiling,
    Planning,
    Creating,
    Done,
}

/// The pipelines of one event, evaluated one after another in the order of their paths. Their runs
/// are created once all are evaluated.
#[derive(Debug)]
pub struct TriggerRun {
    pub paths: Vec<String>,
    pub at: usize,
    /// The pipelines whose runs are planned.
    pub planned: Vec<String>,
    pub phase: TriggerPhase,
}

/// The mathematical model of a [`TriggerRun`].
#[verifier::ext_equal]
pub struct TriggerView {
    pub paths: Seq<Seq<char>>,
    pub at: int,
    pub planned: Seq<Seq<char>>,
    pub phase: TriggerPhase,
}

impl View for TriggerRun {
    type V = TriggerView;

    open spec fn view(&self) -> TriggerView {
        TriggerView {
            paths: text::views(self.paths@),
            at: self.at as int,
            planned: text::views(self.planned@),
            phase: self.phase,
        }
    }
}

/// What evaluating an event does next.
#[derive(Debug)]
pub enum TriggerAction {
    ListDir,
    ReadFile { path: String },
    /// Fetch the libraries the text needs and compile it.
    Compile { path: String, yaml: String },
    /// Admit the compiled pipeline and plan its run, writing nothing.
    Plan { path: String, excluded: Vec<String> },
    /// Create the runs planned for these pipelines: all of them, or none.
    Create { paths: Vec<String> },
    /// All pipelines were evaluated; the runs that were created.
    Done { runs: Vec<String> },
    Fail(TriggerError),
}

/// The mathematical model of a [`TriggerAction`].
pub enum TriggerActionView {
    ListDir,
    ReadFile { path: Seq<char> },
    Compile { path: Seq<char>, yaml: Seq<char> },
    Plan { path: Seq<char>, excluded: Seq<Seq<char>> },
    Create { paths: Seq<Seq<char>> },
    Done { runs: Seq<Seq<char>> },
    Fail(TriggerErrorView),
}

impl View for TriggerAction {
    type V = TriggerActionView;

    open spec fn view(&self) -> TriggerActionView {
        match self {
            TriggerAction::ListDir => TriggerActionView::ListDir,
            TriggerAction::ReadFile { path } => TriggerActionView::ReadFile { path: path@ },
            TriggerAction::Compile { path, yaml } => TriggerActionView::Compile { path: path@, yaml: yaml@ },
            TriggerAction::Plan { path, excluded } => TriggerActionView::Plan {
                path: path@,
                excluded: text::views(excluded@),
            },
            TriggerAction::Create { paths } => TriggerActionView::Create { paths: text::views(paths@) },
            TriggerAction::Done { runs } => TriggerActionView::Done { runs: text::views(runs@) },
            TriggerAction::Fail(e) => TriggerActionView::Fail(e@),
        }
    }
}

/// The outcome of an action.
#[derive(Debug)]
pub enum TriggerOutcome {
    Listed(Result<Vec<PathName>, ForgeError>),
    Read(Result<Vec<u8>, ForgeError>),
    Compiled(Result<PipelineVerdict, TriggerError>),
    /// Whether the run is planned; not where the environment does not allow the ref.
    Planned(Result<bool, TriggerError>),
    /// The ids of the created runs.
    Created(Result<Vec<String>, TriggerError>),
}

pub open spec fn path_texts(v: Seq<PathName>) -> Seq<Seq<char>> {
    v.map_values(|p: PathName| p.0@)
}

impl TriggerView {
    pub open spec fn wf(self) -> bool {
        0 <= self.at <= self.paths.len() && (self.phase == TriggerPhase::Reading || self.phase == TriggerPhase::Compiling
            || self.phase == TriggerPhase::Planning ==> self.at < self.paths.len())
    }

    pub open spec fn expects(self, ev: TriggerOutcome) -> bool {
        match self.phase {
            TriggerPhase::Listing => ev is Listed,
            TriggerPhase::Reading => ev is Read,
            TriggerPhase::Compiling => ev is Compiled,
            TriggerPhase::Planning => ev is Planned,
            TriggerPhase::Creating => ev is Created,
            TriggerPhase::Done => false,
        }
    }

    /// On to the pipeline at `at`; behind the last, the planned runs are created.
    pub open spec fn go_on(self) -> (TriggerView, TriggerActionView) {
        if self.at < self.paths.len() {
            (
                TriggerView { phase: TriggerPhase::Reading, ..self },
                TriggerActionView::ReadFile { path: self.paths[self.at] },
            )
        } else if self.planned.len() == 0 {
            self.end(Seq::empty())
        } else {
            (
                TriggerView { phase: TriggerPhase::Creating, ..self },
                TriggerActionView::Create { paths: self.planned },
            )
        }
    }

    pub open spec fn end(self, runs: Seq<Seq<char>>) -> (TriggerView, TriggerActionView) {
        (TriggerView { phase: TriggerPhase::Done, ..self }, TriggerActionView::Done { runs })
    }

    pub open spec fn skip(self) -> (TriggerView, TriggerActionView) {
        (TriggerView { at: self.at + 1, ..self }).go_on()
    }

    pub open spec fn fail(self, e: TriggerErrorView) -> (TriggerView, TriggerActionView) {
        (TriggerView { phase: TriggerPhase::Done, ..self }, TriggerActionView::Fail(e))
    }

    /// The state and the action that follow an outcome.
    pub open spec fn after(self, ev: TriggerOutcome) -> (TriggerView, TriggerActionView) {
        match ev {
            TriggerOutcome::Listed(Ok(v)) => (TriggerView {
                paths: path_texts(sort::sorted(catalog::pipeline_files(v@))),
                at: 0,
                ..self
            }).go_on(),
            TriggerOutcome::Listed(Err(f)) => if f is Api {
                self.end(Seq::empty())
            } else {
                self.fail(TriggerErrorView::Forge(f))
            },
            TriggerOutcome::Read(Ok(bytes)) => if vstd::utf8::valid_utf8(bytes@) {
                (
                    TriggerView { phase: TriggerPhase::Compiling, ..self },
                    TriggerActionView::Compile {
                        path: self.paths[self.at],
                        yaml: vstd::utf8::decode_utf8(bytes@),
                    },
                )
            } else {
                self.fail(TriggerErrorView::NotUtf8)
            },
            TriggerOutcome::Read(Err(f)) => if f is Api {
                self.skip()
            } else {
                self.fail(TriggerErrorView::Forge(f))
            },
            TriggerOutcome::Compiled(Err(e)) => self.fail(e@),
            TriggerOutcome::Compiled(Ok(v)) => match v.matched {
                Err(m) => self.fail(TriggerErrorView::Pipeline(m@)),
                Ok(false) => self.skip(),
                Ok(true) => match v.excluded {
                    Err(m) => self.fail(TriggerErrorView::Pipeline(m@)),
                    Ok(x) => if x@.len() == v.steps {
                        self.skip()
                    } else {
                        (
                            TriggerView { phase: TriggerPhase::Planning, ..self },
                            TriggerActionView::Plan { path: self.paths[self.at], excluded: text::views(x@) },
                        )
                    },
                },
            },
            TriggerOutcome::Planned(Err(e)) => self.fail(e@),
            TriggerOutcome::Planned(Ok(false)) => self.skip(),
            TriggerOutcome::Planned(Ok(true)) => (TriggerView {
                planned: self.planned.push(self.paths[self.at]),
                ..self
            }).skip(),
            TriggerOutcome::Created(Err(e)) => self.fail(e@),
            TriggerOutcome::Created(Ok(runs)) => self.end(text::views(runs@)),
        }
    }
}

impl TriggerRun {
    fn go_on(&mut self) -> (r: TriggerAction)
        requires
            old(self)@.at <= old(self)@.paths.len(),
        ensures
            (final(self)@, r@) == old(self)@.go_on(),
    {
        if self.at < self.paths.len() {
            self.phase = TriggerPhase::Reading;
            TriggerAction::ReadFile { path: self.paths[self.at].clone() }
        } else if self.planned.len() == 0 {
            let none: Vec<String> = Vec::new();
            assert(text::views(none@) =~= Seq::<Seq<char>>::empty());
            self.end(none)
        } else {
            self.phase = TriggerPhase::Creating;
            TriggerAction::Create { paths: text::clone_strings(&self.planned) }
        }
    }

    fn end(&mut self, runs: Vec<String>) -> (r: TriggerAction)
        ensures
            (final(self)@, r@) == old(self)@.end(text::views(runs@)),
    {
        self.phase = TriggerPhase::Done;
        TriggerAction::Done { runs }
    }

    fn fail(&mut self, e: TriggerError) -> (r: TriggerAction)
        ensures
            (final(self)@, r@) == old(self)@.fail(e@),
    {
        self.phase = TriggerPhase::Done;
        TriggerAction::Fail(e)
    }

    fn skip(&mut self) -> (r: TriggerAction)
        requires
            old(self)@.at < old(self)@.paths.len(),
        ensures
            (final(self)@, r@) == old(self)@.skip(),
    {
        let n: usize = self.paths.len();
        assert(self.at < n);
        self.at = self.at + 1;
        self.go_on()
    }

    /// Takes the outcome of the last action and says what comes next.
    pub fn step(&mut self, ev: TriggerOutcome) -> (r: TriggerAction)
        requires
            old(self)@.wf(),
            old(self)@.expects(ev),
        ensures
            final(self)@.wf(),
            (final(self)@, r@) == old(self)@.after(ev),
    {
        match ev {
            TriggerOutcome::Listed(Ok(v)) => {
                let sorted = catalog::pipeline_paths(v);
                let ghost want = path_texts(sorted@);
                let mut paths: Vec<String> = Vec::new();
                for p in it: sorted
                    invariant
                        it.seq() == sorted@,
                        want == path_texts(sorted@),
                        text::views(paths@) == want.take(it.index()),
                {
                    let ghost k = it.index();
                    let ghost before = text::views(paths@);
                    let PathName(s) = p;
                    paths.push(s);
                    assert(text::views(paths@) =~= before.push(s@));
                    assert(want.take(k + 1) =~= want.take(k).push(s@));
                }
                assert(want.take(want.len() as int) =~= want);
                self.paths = paths;
                self.at = 0;
                self.go_on()
            },
            TriggerOutcome::Listed(Err(ForgeError::Api { rendered: _ })) => {
                let none: Vec<String> = Vec::new();
                assert(text::views(none@) =~= Seq::<Seq<char>>::empty());
                self.end(none)
            },
            TriggerOutcome::Listed(Err(f)) => self.fail(TriggerError::Forge(f)),
            TriggerOutcome::Read(Ok(bytes)) => match text::utf8_text(bytes) {
                Some(yaml) => {
                    self.phase = TriggerPhase::Compiling;
                    TriggerAction::Compile { path: self.paths[self.at].clone(), yaml }
                },
                None => self.fail(TriggerError::NotUtf8),
            },
            TriggerOutcome::Read(Err(ForgeError::Api { rendered: _ })) => self.skip(),
            TriggerOutcome::Read(Err(f)) => self.fail(TriggerError::Forge(f)),
            TriggerOutcome::Compiled(Err(e)) => self.fail(e),
            TriggerOutcome::Compiled(Ok(v)) => match v.matched {
                Err(m) => self.fail(TriggerError::Pipeline(m)),
                Ok(false) => self.skip(),
                Ok(true) => match v.excluded {
                    Err(m) => self.fail(TriggerError::Pipeline(m)),
                    Ok(x) => if x.len() == v.steps {
                        self.skip()
                    } else {
                        self.phase = TriggerPhase::Planning;
                        TriggerAction::Plan { path: self.paths[self.at].clone(), excluded: x }
                    },
                },
            },
            TriggerOutcome::Planned(Err(e)) => self.fail(e),
            TriggerOutcome::Planned(Ok(false)) => self.skip(),
            TriggerOutcome::Planned(Ok(true)) => {
                let ghost before = text::views(self.planned@);
                let path = self.paths[self.at].clone();
                self.planned.push(path);
                assert(text::views(self.planned@) =~= before.push(path@));
                self.skip()
            },
            TriggerOutcome::Created(Err(e)) => self.fail(e),
            TriggerOutcome::Created(Ok(runs)) => self.end(runs),
        }
    }
}

/// Begins with the directory listing; an event without a repository starts nothing.
pub fn trigger_run_from_event(event: &Event) -> (r: (TriggerRun, TriggerAction))
    ensures
        r.0@.wf(),
        r.0@.paths == Seq::<Seq<char>>::empty(),
        r.0@.planned == Seq::<Seq<char>>::empty(),
        if event.repo is None {
            r.0@.phase == TriggerPhase::Done && r.1@ == (TriggerActionView::Done { runs: Seq::empty() })
        } else {
            r.0@.phase == TriggerPhase::Listing && r.1@ == TriggerActionView::ListDir
        },
{
    let known: bool = match &event.repo {
        None => false,
        Some(_) => true,
    };
    let phase = if known {
        TriggerPhase::Listing
    } else {
        TriggerPhase::Done
    };
    let s = TriggerRun { paths: Vec::new(), at: 0, planned: Vec::new(), phase };
    assert(s@.paths =~= Seq::<Seq<char>>::empty());
    assert(s@.planned =~= Seq::<Seq<char>>::empty());
    if known {
        (s, TriggerAction::ListDir)
    } else {
        let runs: Vec<String> = Vec::new();
        assert(text::views(runs@) =~= Seq::<Seq<char>>::empty());
        (s, TriggerAction::Done { runs })
    }
}

/// A run is planned only where the event triggers the pipeline and some step of it is left.
pub proof fn only_triggered_pipelines_are_admitted(t: TriggerView, ev: TriggerOutcome)
    requires
        t.expects(ev),
        t.after(ev).1 is Plan,
    ensures
        ev matches TriggerOutcome::Compiled(Ok(v)) && v.matched == Ok::<bool, String>(true) && (v.excluded matches Ok(x)
            && x@.len() != v.steps),
{
}

/// Every outcome ends the evaluation or moves it on: the pipeline before the next one is done
/// with, so that each is evaluated at most once.
pub proof fn every_pipeline_is_evaluated_once(t: TriggerView, ev: TriggerOutcome)
    requires
        t.wf(),
        t.expects(ev),
        t.phase != TriggerPhase::Listing,
    ensures
        t.after(ev).0.paths == t.paths,
        t.after(ev).0.at >= t.at,
        t.after(ev).0.phase == TriggerPhase::Reading ==> t.after(ev).0.at == t.at + 1,
        t.after(ev).0.planned.len() <= t.planned.len() + 1,
{
}

/// A delivery is all or nothing: runs are asked for once, together, and only after every pipeline
/// was read, compiled and planned. Whatever fails before that leaves no run, and nothing but the
/// creation itself can fail after it.
pub proof fn deliveries_are_all_or_nothing(t: TriggerView, ev: TriggerOutcome)
    requires
        t.wf(),
        t.expects(ev),
    ensures
        t.after(ev).1 matches TriggerActionView::Create { paths } ==> t.phase != TriggerPhase::Creating && t.after(ev).0.at
            == t.after(ev).0.paths.len() && paths == t.after(ev).0.planned,
        t.after(ev).0.phase == TriggerPhase::Creating <==> t.after(ev).1 is Create,
        t.phase == TriggerPhase::Creating ==> t.after(ev).0.phase == TriggerPhase::Done && (t.after(ev).1 is Fail
            <==> ev matches TriggerOutcome::Created(Err(_))),
        t.after(ev).1 matches TriggerActionView::Done { runs } ==> runs.len() == 0 || t.phase == TriggerPhase::Creating,
{
}

/// A pipeline that was read is compiled, and one that the event triggers is planned, with the steps
/// whose guards are off, unless all are. One that the event does not trigger, or that is gone, is
/// passed over; anything else that stands in the way ends the evaluation with its message.
pub proof fn triggered_pipelines_are_planned(t: TriggerView, ev: TriggerOutcome)
    requires
        t.wf(),
        t.expects(ev),
    ensures
        match ev {
            TriggerOutcome::Read(Ok(bytes)) => if vstd::utf8::valid_utf8(bytes@) {
                t.after(ev).1 == (TriggerActionView::Compile {
                    path: t.paths[t.at],
                    yaml: vstd::utf8::decode_utf8(bytes@),
                })
            } else {
                t.after(ev).1 == TriggerActionView::Fail(TriggerErrorView::NotUtf8)
            },
            TriggerOutcome::Read(Err(f)) => if f is Api {
                !(t.after(ev).1 is Fail) && t.after(ev).0.at == t.at + 1 && t.after(ev).0.planned == t.planned
            } else {
                t.after(ev).1 == TriggerActionView::Fail(TriggerErrorView::Forge(f))
            },
            TriggerOutcome::Compiled(Ok(v)) => match v.matched {
                Ok(true) => match v.excluded {
                    Ok(x) => if x@.len() != v.steps {
                        t.after(ev).1 matches TriggerActionView::Plan { path, excluded } && path == t.paths[t.at] && excluded
                            =~= x@.map_values(|s: String| s@)
                    } else {
                        !(t.after(ev).1 is Fail) && t.after(ev).0.at == t.at + 1 && t.after(ev).0.planned == t.planned
                    },
                    Err(m) => t.after(ev).1 == TriggerActionView::Fail(TriggerErrorView::Pipeline(m@)),
                },
                Ok(false) => !(t.after(ev).1 is Fail) && t.after(ev).0.at == t.at + 1 && t.after(ev).0.planned == t.planned,
                Err(m) => t.after(ev).1 == TriggerActionView::Fail(TriggerErrorView::Pipeline(m@)),
            },
            TriggerOutcome::Compiled(Err(e)) => t.after(ev).1 == TriggerActionView::Fail(e@),
            TriggerOutcome::Planned(Ok(planned)) => !(t.after(ev).1 is Fail) && t.after(ev).0.at == t.at + 1 && t.after(
                ev,
            ).0.planned == (if planned {
                t.planned.push(t.paths[t.at])
            } else {
                t.planned
            }),
            TriggerOutcome::Planned(Err(e)) => t.after(ev).1 == TriggerActionView::Fail(e@),
            TriggerOutcome::Created(Ok(runs)) => t.after(ev).1 matches TriggerActionView::Done { runs: r } && r
                =~= runs@.map_values(|s: String| s@),
            TriggerOutcome::Created(Err(e)) => t.after(ev).1 == TriggerActionView::Fail(e@),
            TriggerOutcome::Listed(Err(f)) => if f is Api {
                t.after(ev).1 matches TriggerActionView::Done { runs } && runs.len() == 0
            } else {
                t.after(ev).1 == TriggerActionView::Fail(TriggerErrorView::Forge(f))
            },
            TriggerOutcome::Listed(Ok(_)) => !(t.after(ev).1 is Fail),
        },
{
}

/// An evaluation under way: where it stands after the outcomes, and all it asked for. The outcome at
/// `i` answers the action at `i`.
pub open spec fn evaluated(t: TriggerView, evs: Seq<TriggerOutcome>) -> (TriggerView, Seq<TriggerActionView>)
    decreases evs.len(),
{
    if evs.len() == 0 {
        (t, seq![TriggerActionView::ListDir])
    } else {
        let (before, actions) = evaluated(t, evs.drop_last());
        let (next, action) = before.after(evs.last());
        (next, actions.push(action))
    }
}

/// Every outcome answers what was asked for.
pub open spec fn answered(t: TriggerView, evs: Seq<TriggerOutcome>) -> bool
    decreases evs.len(),
{
    evs.len() == 0 || (answered(t, evs.drop_last()) && evaluated(t, evs.drop_last()).0.expects(evs.last()))
}

/// The files that were asked for, in that order.
pub open spec fn files_read(actions: Seq<TriggerActionView>) -> Seq<Seq<char>>
    decreases actions.len(),
{
    if actions.len() == 0 {
        Seq::empty()
    } else {
        match actions.last() {
            TriggerActionView::ReadFile { path } => files_read(actions.drop_last()).push(path),
            _ => files_read(actions.drop_last()),
        }
    }
}

/// The pipelines whose plan was accepted, in that order.
pub open spec fn plans_accepted(actions: Seq<TriggerActionView>, evs: Seq<TriggerOutcome>) -> Seq<Seq<char>>
    decreases evs.len(),
{
    if evs.len() == 0 {
        Seq::empty()
    } else {
        let before = plans_accepted(actions, evs.drop_last());
        match (actions[evs.len() - 1], evs.last()) {
            (TriggerActionView::Plan { path, excluded }, TriggerOutcome::Planned(Ok(true))) => before.push(path),
            _ => before,
        }
    }
}

proof fn plans_ignore_later_actions(a: Seq<TriggerActionView>, b: Seq<TriggerActionView>, evs: Seq<TriggerOutcome>)
    requires
        forall|i: int| 0 <= i < evs.len() ==> a[i] == b[i],
    ensures
        plans_accepted(a, evs) == plans_accepted(b, evs),
    decreases evs.len(),
{
    if evs.len() > 0 {
        plans_ignore_later_actions(a, b, evs.drop_last());
    }
}

proof fn evaluations_go_file_by_file(t: TriggerView, listed: Vec<PathName>, evs: Seq<TriggerOutcome>)
    requires
        t.phase == TriggerPhase::Listing,
        t.planned.len() == 0,
        evs.len() > 0,
        evs[0] == TriggerOutcome::Listed(Ok(listed)),
        answered(t, evs),
    ensures
        ({
            let (now, actions) = evaluated(t, evs);
            let files = path_texts(sort::sorted(catalog::pipeline_files(listed@)));
            &&& actions.len() == evs.len() + 1
            &&& now.wf()
            &&& now.phase != TriggerPhase::Listing
            &&& now.paths == files
            &&& now.phase == TriggerPhase::Done ==> actions.last() is Done || actions.last() is Fail
            &&& now.phase != TriggerPhase::Done ==> !(actions.last() is Done || actions.last() is Fail)
            &&& now.phase == TriggerPhase::Planning ==> (actions.last() matches TriggerActionView::Plan { path, excluded }
                && path == files[now.at])
            &&& now.phase != TriggerPhase::Planning ==> !(actions.last() is Plan)
            &&& now.planned == plans_accepted(actions, evs)
            &&& now.phase == TriggerPhase::Reading || now.phase == TriggerPhase::Compiling || now.phase
                == TriggerPhase::Planning ==> files_read(actions) == files.take(now.at + 1)
            &&& now.phase == TriggerPhase::Creating ==> now.at == files.len() && files_read(actions) == files && (actions.last()
                matches TriggerActionView::Create { paths } && paths == now.planned)
            &&& actions.last() matches TriggerActionView::Done { runs } ==> files_read(actions) == files && (now.planned.len()
                == 0 ==> runs.len() == 0)
        }),
    decreases evs.len(),
{
    reveal_with_fuel(files_read, 3);
    reveal_with_fuel(evaluated, 2);
    reveal_with_fuel(answered, 2);
    reveal_with_fuel(plans_accepted, 2);
    let files = path_texts(sort::sorted(catalog::pipeline_files(listed@)));
    let rest = evs.drop_last();
    let (before, actions) = evaluated(t, rest);
    let (now, action) = before.after(evs.last());
    let all = actions.push(action);
    assert(all.drop_last() =~= actions);
    if evs.len() == 1 {
        assert(evs.last() == evs[0]);
        assert(actions =~= seq![TriggerActionView::ListDir]);
        assert(actions.drop_last() =~= Seq::<TriggerActionView>::empty());
        assert(files_read(actions) =~= Seq::<Seq<char>>::empty());
        assert(now.planned =~= plans_accepted(all, evs));
        if files.len() > 0 {
            assert(files_read(all) =~= files.take(1));
        } else {
            assert(files_read(all) =~= files);
        }
    } else {
        assert(rest[0] == evs[0]);
        evaluations_go_file_by_file(t, listed, rest);
        assert(forall|i: int| 0 <= i < rest.len() ==> all[i] == actions[i]);
        plans_ignore_later_actions(all, actions, rest);
        assert(all[evs.len() - 1] == actions.last());
        if now.at == before.at + 1 {
            if now.at < files.len() {
                assert(files_read(all) =~= files.take(now.at + 1));
            } else {
                assert(files.take(before.at + 1) =~= files);
            }
        }
    }
}

/// An evaluation that comes to creating runs, or to an end, has read every pipeline of the directory,
/// each once and in order. The runs it creates are exactly those of the pipelines whose plan was
/// accepted.
pub proof fn every_pipeline_gets_its_run(t: TriggerView, listed: Vec<PathName>, evs: Seq<TriggerOutcome>)
    requires
        t.phase == TriggerPhase::Listing,
        t.planned.len() == 0,
        evs.len() > 0,
        evs[0] == TriggerOutcome::Listed(Ok(listed)),
        answered(t, evs),
    ensures
        ({
            let actions = evaluated(t, evs).1;
            let files = sort::sorted(catalog::pipeline_files(listed@)).map_values(|p: PathName| p.0@);
            &&& actions.last() matches TriggerActionView::Create { paths } ==> files_read(actions) == files && paths
                == plans_accepted(actions, evs)
            &&& actions.last() is Done ==> files_read(actions) == files
            &&& actions.last() is Done && evs.last() !is Created ==> plans_accepted(actions, evs).len() == 0
        }),
{
    evaluations_go_file_by_file(t, listed, evs);
    let files = sort::sorted(catalog::pipeline_files(listed@));
    assert(path_texts(files) =~= files.map_values(|p: PathName| p.0@));
    let before = evaluated(t, evs.drop_last()).0;
    if evs.len() == 1 {
        assert(evs.last() == evs[0]);
    } else {
        assert(evs.drop_last()[0] == evs[0]);
        evaluations_go_file_by_file(t, listed, evs.drop_last());
    }
}

/// The ref that a refused dispatch reports: the symbolic one that was matched, or else the one
/// the configuration was read at.
pub fn refused_ref(event: &Event) -> (r: String)
    ensures
        r@ == (match event.protection_ref {
            Some(p) => p@,
            None => event::config_ref_of(event.trigger),
        }),
{
    match &event.protection_ref {
        Some(p) => p.clone(),
        None => event::config_ref(event),
    }
}

/// What compiling a dispatched pipeline showed: whether it opts into the trigger, whether the
/// launch parameters pass, and the steps whose guards are off.
#[derive(Debug)]
pub struct DispatchVerdict {
    pub matched: Result<bool, String>,
    pub params: Result<(), String>,
    pub excluded: Result<Vec<String>, String>,
}

/// A request to start a named pipeline of a repo at a ref.
#[derive(Debug)]
pub struct DispatchRequest {
    pub git_ref: String,
    pub pipeline: String,
    pub params: Vec<(String, Json)>,
    pub kind: DispatchKind,
    pub reason: Option<String>,
}

#[derive(Debug, Clone, Copy, PartialEq, Eq, Structural)]
pub enum DispatchPhase {
    Resolving,
    Reading,
    Compiling,
    Admitting,
    Done,
}

/// The dispatch of one named pipeline.
#[derive(Debug)]
pub struct DispatchRun {
    pub pipeline: String,
    pub kind: DispatchKind,
    pub candidates: Vec<String>,
    pub at: usize,
    pub phase: DispatchPhase,
}

/// The mathematical model of a [`DispatchRun`].
#[verifier::ext_equal]
pub struct DispatchView {
    pub pipeline: Seq<char>,
    pub kind: DispatchKind,
    pub candidates: Seq<Seq<char>>,
    pub at: int,
    pub phase: DispatchPhase,
}

impl View for DispatchRun {
    type V = DispatchView;

    open spec fn view(&self) -> DispatchView {
        DispatchView {
            pipeline: self.pipeline@,
            kind: self.kind,
            candidates: text::views(self.candidates@),
            at: self.at as int,
            phase: self.phase,
        }
    }
}

/// What a dispatch does next.
#[derive(Debug)]
pub enum DispatchAction {
    ResolveCommit,
    ReadFile { path: String },
    Compile { path: String, yaml: String },
    Admit { path: String, excluded: Vec<String> },
    Done { run: String },
    Fail(DispatchError),
}

/// The mathematical model of a [`DispatchAction`].
pub enum DispatchActionView {
    ResolveCommit,
    ReadFile { path: Seq<char> },
    Compile { path: Seq<char>, yaml: Seq<char> },
    Admit { path: Seq<char>, excluded: Seq<Seq<char>> },
    Done { run: Seq<char> },
    Fail(DispatchErrorView),
}

impl View for DispatchAction {
    type V = DispatchActionView;

    open spec fn view(&self) -> DispatchActionView {
        match self {
            DispatchAction::ResolveCommit => DispatchActionView::ResolveCommit,
            DispatchAction::ReadFile { path } => DispatchActionView::ReadFile { path: path@ },
            DispatchAction::Compile { path, yaml } => DispatchActionView::Compile { path: path@, yaml: yaml@ },
            DispatchAction::Admit { path, excluded } => DispatchActionView::Admit {
                path: path@,
                excluded: text::views(excluded@),
            },
            DispatchAction::Done { run } => DispatchActionView::Done { run: run@ },
            DispatchAction::Fail(e) => DispatchActionView::Fail(e@),
        }
    }
}

/// The outcome of an action.
#[derive(Debug)]
pub enum DispatchOutcome {
    /// The commit that the ref stands for was found.
    Resolved(Result<(), ForgeError>),
    Read(Result<Vec<u8>, ForgeError>),
    Compiled(Result<DispatchVerdict, TriggerError>),
    /// The id of the created run, or `None` and the ref that the environment does not allow.
    Admitted { run: Result<Option<String>, TriggerError>, refused: String },
}

/// A trigger's failure as a dispatch reports it.
pub open spec fn dispatch_view(e: TriggerErrorView) -> DispatchErrorView {
    match e {
        TriggerErrorView::Forge(f) => DispatchErrorView::Forge(f),
        TriggerErrorView::Pipeline(m) => DispatchErrorView::Pipeline(m),
        TriggerErrorView::NotUtf8 => DispatchErrorView::NotUtf8,
        TriggerErrorView::ReasonRequired(m) => DispatchErrorView::ReasonRequired(m),
        TriggerErrorView::Db(m) => DispatchErrorView::Db(m),
    }
}

impl DispatchView {
    pub open spec fn wf(self) -> bool {
        0 <= self.at <= self.candidates.len() && (self.phase == DispatchPhase::Reading || self.phase
            == DispatchPhase::Compiling || self.phase == DispatchPhase::Admitting ==> self.at < self.candidates.len())
    }

    pub open spec fn expects(self, ev: DispatchOutcome) -> bool {
        match self.phase {
            DispatchPhase::Resolving => ev is Resolved,
            DispatchPhase::Reading => ev is Read,
            DispatchPhase::Compiling => ev is Compiled,
            DispatchPhase::Admitting => ev is Admitted,
            DispatchPhase::Done => false,
        }
    }

    pub open spec fn fail(self, e: DispatchErrorView) -> (DispatchView, DispatchActionView) {
        (DispatchView { phase: DispatchPhase::Done, ..self }, DispatchActionView::Fail(e))
    }

    /// On to the candidate at `at`; past the last there is no such pipeline.
    pub open spec fn try_next(self) -> (DispatchView, DispatchActionView) {
        if self.at < self.candidates.len() {
            (
                DispatchView { phase: DispatchPhase::Reading, ..self },
                DispatchActionView::ReadFile { path: self.candidates[self.at] },
            )
        } else {
            self.fail(DispatchErrorView::PipelineNotFound(self.pipeline))
        }
    }

    /// The state and the action that follow an outcome.
    pub open spec fn after(self, ev: DispatchOutcome) -> (DispatchView, DispatchActionView) {
        match ev {
            DispatchOutcome::Resolved(Err(f)) => self.fail(DispatchErrorView::Forge(f)),
            DispatchOutcome::Resolved(Ok(_)) => self.try_next(),
            DispatchOutcome::Read(Ok(bytes)) => if vstd::utf8::valid_utf8(bytes@) {
                (
                    DispatchView { phase: DispatchPhase::Compiling, ..self },
                    DispatchActionView::Compile {
                        path: self.candidates[self.at],
                        yaml: vstd::utf8::decode_utf8(bytes@),
                    },
                )
            } else {
                self.fail(DispatchErrorView::NotUtf8)
            },
            DispatchOutcome::Read(Err(f)) => if f is Api {
                (DispatchView { at: self.at + 1, ..self }).try_next()
            } else {
                self.fail(DispatchErrorView::Forge(f))
            },
            DispatchOutcome::Compiled(Err(e)) => self.fail(dispatch_view(e@)),
            DispatchOutcome::Compiled(Ok(v)) => match v.matched {
                Err(m) => self.fail(DispatchErrorView::Pipeline(m@)),
                Ok(false) => self.fail(
                    DispatchErrorView::NotDispatchable { pipeline: self.pipeline, kind: self.kind.wire_name() },
                ),
                Ok(true) => match v.params {
                    Err(m) => self.fail(DispatchErrorView::Params(m@)),
                    Ok(_) => match v.excluded {
                        Err(m) => self.fail(DispatchErrorView::Pipeline(m@)),
                        Ok(x) => (
                            DispatchView { phase: DispatchPhase::Admitting, ..self },
                            DispatchActionView::Admit { path: self.candidates[self.at], excluded: text::views(x@) },
                        ),
                    },
                },
            },
            DispatchOutcome::Admitted { run: Err(e), refused } => self.fail(dispatch_view(e@)),
            DispatchOutcome::Admitted { run: Ok(None), refused } => self.fail(DispatchErrorView::RefNotAllowed(refused@)),
            DispatchOutcome::Admitted { run: Ok(Some(run)), refused } => (
                DispatchView { phase: DispatchPhase::Done, ..self },
                DispatchActionView::Done { run: run@ },
            ),
        }
    }
}

impl DispatchRun {
    fn fail(&mut self, e: DispatchError) -> (r: DispatchAction)
        ensures
            (final(self)@, r@) == old(self)@.fail(e@),
    {
        self.phase = DispatchPhase::Done;
        DispatchAction::Fail(e)
    }

    fn try_next(&mut self) -> (r: DispatchAction)
        requires
            old(self)@.at <= old(self)@.candidates.len(),
        ensures
            (final(self)@, r@) == old(self)@.try_next(),
    {
        if self.at < self.candidates.len() {
            self.phase = DispatchPhase::Reading;
            DispatchAction::ReadFile { path: self.candidates[self.at].clone() }
        } else {
            let name = self.pipeline.clone();
            self.fail(DispatchError::PipelineNotFound(name))
        }
    }

    fn fail_as(&mut self, e: TriggerError) -> (r: DispatchAction)
        ensures
            (final(self)@, r@) == old(self)@.fail(dispatch_view(e@)),
    {
        self.fail(DispatchError::from(e))
    }

    /// Takes the outcome of the last action and says what comes next.
    pub fn step(&mut self, ev: DispatchOutcome) -> (r: DispatchAction)
        requires
            old(self)@.wf(),
            old(self)@.expects(ev),
        ensures
            final(self)@.wf(),
            (final(self)@, r@) == old(self)@.after(ev),
    {
        match ev {
            DispatchOutcome::Resolved(Err(f)) => self.fail(DispatchError::Forge(f)),
            DispatchOutcome::Resolved(Ok(_)) => self.try_next(),
            DispatchOutcome::Read(Ok(bytes)) => match text::utf8_text(bytes) {
                Some(yaml) => {
                    self.phase = DispatchPhase::Compiling;
                    DispatchAction::Compile { path: self.candidates[self.at].clone(), yaml }
                },
                None => self.fail(DispatchError::NotUtf8),
            },
            DispatchOutcome::Read(Err(ForgeError::Api { rendered: _ })) => {
                let n: usize = self.candidates.len();
                assert(self.at < n);
                self.at = self.at + 1;
                self.try_next()
            },
            DispatchOutcome::Read(Err(f)) => self.fail(DispatchError::Forge(f)),
            DispatchOutcome::Compiled(Err(e)) => self.fail_as(e),
            DispatchOutcome::Compiled(Ok(v)) => match v.matched {
                Err(m) => self.fail(DispatchError::Pipeline(m)),
                Ok(false) => {
                    let pipeline = self.pipeline.clone();
                    let kind = self.kind.trigger_kind().to_owned();
                    self.fail(DispatchError::NotDispatchable { pipeline, kind })
                },
                Ok(true) => match v.params {
                    Err(m) => self.fail(DispatchError::Params(m)),
                    Ok(_) => match v.excluded {
                        Err(m) => self.fail(DispatchError::Pipeline(m)),
                        Ok(x) => {
                            self.phase = DispatchPhase::Admitting;
                            DispatchAction::Admit { path: self.candidates[self.at].clone(), excluded: x }
                        },
                    },
                },
            },
            DispatchOutcome::Admitted { run: Err(e), refused: _ } => self.fail_as(e),
            DispatchOutcome::Admitted { run: Ok(None), refused } => self.fail(DispatchError::RefNotAllowed(refused)),
            DispatchOutcome::Admitted { run: Ok(Some(run)), refused: _ } => {
                self.phase = DispatchPhase::Done;
                DispatchAction::Done { run }
            },
        }
    }
}

/// Begins by resolving the ref to a commit.
pub fn dispatch_run(pipeline: String, kind: DispatchKind) -> (r: (DispatchRun, DispatchAction))
    ensures
        r.0@ == (DispatchView {
            pipeline: pipeline@,
            kind,
            candidates: refs::candidates(pipeline@),
            at: 0,
            phase: DispatchPhase::Resolving,
        }),
        r.0@.wf(),
        r.1@ == DispatchActionView::ResolveCommit,
{
    let candidates = refs::dispatch_candidate_paths(pipeline.as_str());
    (
        DispatchRun { pipeline, kind, candidates, at: 0, phase: DispatchPhase::Resolving },
        DispatchAction::ResolveCommit,
    )
}

/// A dispatch looks at its candidates in order and takes the first that is there; where none is, there
/// is no such pipeline. A pipeline that opted into the trigger and whose parameters pass is admitted
/// with the steps whose guards are off; what stands in the way is reported as what it is.
pub proof fn dispatches_run_what_they_name(d: DispatchView, ev: DispatchOutcome)
    requires
        d.wf(),
        d.expects(ev),
    ensures
        match ev {
            DispatchOutcome::Resolved(Ok(_)) => if d.at < d.candidates.len() {
                d.after(ev).1 == (DispatchActionView::ReadFile { path: d.candidates[d.at] })
            } else {
                d.after(ev).1 == DispatchActionView::Fail(DispatchErrorView::PipelineNotFound(d.pipeline))
            },
            DispatchOutcome::Resolved(Err(f)) => d.after(ev).1 == DispatchActionView::Fail(DispatchErrorView::Forge(f)),
            DispatchOutcome::Read(Ok(bytes)) => if vstd::utf8::valid_utf8(bytes@) {
                d.after(ev).1 == (DispatchActionView::Compile {
                    path: d.candidates[d.at],
                    yaml: vstd::utf8::decode_utf8(bytes@),
                })
            } else {
                d.after(ev).1 == DispatchActionView::Fail(DispatchErrorView::NotUtf8)
            },
            DispatchOutcome::Read(Err(f)) => if !(f is Api) {
                d.after(ev).1 == DispatchActionView::Fail(DispatchErrorView::Forge(f))
            } else if d.at + 1 < d.candidates.len() {
                d.after(ev).1 == (DispatchActionView::ReadFile { path: d.candidates[d.at + 1] }) && d.after(ev).0.at == d.at
                    + 1
            } else {
                d.after(ev).1 == DispatchActionView::Fail(DispatchErrorView::PipelineNotFound(d.pipeline))
            },
            DispatchOutcome::Compiled(Ok(v)) => match v.matched {
                Ok(true) => match (v.params, v.excluded) {
                    (Ok(_), Ok(x)) => d.after(ev).1 matches DispatchActionView::Admit { path, excluded } && path
                        == d.candidates[d.at] && excluded =~= x@.map_values(|s: String| s@),
                    (Ok(_), Err(m)) => d.after(ev).1 == DispatchActionView::Fail(DispatchErrorView::Pipeline(m@)),
                    (Err(m), _) => d.after(ev).1 == DispatchActionView::Fail(DispatchErrorView::Params(m@)),
                },
                Ok(false) => d.after(ev).1 matches DispatchActionView::Fail(DispatchErrorView::NotDispatchable {
                    pipeline,
                    kind,
                }) && pipeline == d.pipeline && kind == (match d.kind {
                    DispatchKind::Manual => "manual"@,
                    DispatchKind::Api => "api"@,
                }),
                Err(m) => d.after(ev).1 == DispatchActionView::Fail(DispatchErrorView::Pipeline(m@)),
            },
            DispatchOutcome::Compiled(Err(_)) => d.after(ev).1 is Fail,
            DispatchOutcome::Admitted { run, refused } => match run {
                Ok(Some(id)) => d.after(ev).1 == (DispatchActionView::Done { run: id@ }),
                Ok(None) => d.after(ev).1 == DispatchActionView::Fail(DispatchErrorView::RefNotAllowed(refused@)),
                Err(_) => d.after(ev).1 is Fail,
            },
        },
        d.after(ev).1 is Done || d.after(ev).1 is Fail <==> d.after(ev).0.phase == DispatchPhase::Done,
{
}

/// A failure keeps its kind and its message when a dispatch reports it.
pub proof fn failures_keep_their_message(e: TriggerErrorView)
    ensures
        match e {
            TriggerErrorView::Forge(f) => dispatch_view(e) == DispatchErrorView::Forge(f),
            TriggerErrorView::Pipeline(m) => dispatch_view(e) == DispatchErrorView::Pipeline(m),
            TriggerErrorView::NotUtf8 => dispatch_view(e) == DispatchErrorView::NotUtf8,
            TriggerErrorView::ReasonRequired(m) => dispatch_view(e) == DispatchErrorView::ReasonRequired(m),
            TriggerErrorView::Db(m) => dispatch_view(e) == DispatchErrorView::Db(m),
        },
{
}

/// A run is asked for only after the pipeline opted into the trigger and the launch parameters
/// passed: a bad request creates nothing.
pub proof fn dispatches_are_checked_before_they_run(d: DispatchView, ev: DispatchOutcome)
    requires
        d.expects(ev),
        d.after(ev).1 is Admit,
    ensures
        ev matches DispatchOutcome::Compiled(Ok(v)) && v.matched == Ok::<bool, String>(true) && v.params is Ok && v.excluded is Ok,
{
}

/// A dispatch waits for what it asked for and stays what it is; it turns to the next candidate only
/// where the one before is not there. A failure of the pipeline or of the admission is passed on as
/// it is.
pub proof fn dispatches_wait_for_what_they_asked(d: DispatchView, ev: DispatchOutcome)
    requires
        d.wf(),
        d.expects(ev),
    ensures
        d.after(ev).1 is ReadFile ==> d.after(ev).0.phase is Reading,
        d.after(ev).1 is Compile ==> d.after(ev).0.phase is Compiling,
        d.after(ev).1 is Admit ==> d.after(ev).0.phase is Admitting,
        d.after(ev).0.pipeline == d.pipeline && d.after(ev).0.kind == d.kind && d.after(ev).0.candidates == d.candidates,
        d.after(ev).0.at == d.at + if ev matches DispatchOutcome::Read(Err(f)) && f is Api {
            1int
        } else {
            0int
        },
        ev matches DispatchOutcome::Compiled(Err(e)) ==> d.after(ev).1 == DispatchActionView::Fail(dispatch_view(e@)),
        ev matches DispatchOutcome::Admitted { run: Err(e), refused: _ } ==> d.after(ev).1 == DispatchActionView::Fail(
            dispatch_view(e@),
        ),
{
}

} // verus!
