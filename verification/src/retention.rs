//! Retention: pruning expired logs and artifacts, and the mark-sweep collection of workspace
//! objects with its detection of a torn cold tier.

use crate::mark;
use crate::mark::MarkWalk;
use crate::metrics;
use crate::metrics::Metrics;
use crate::sort;
use crate::sort::Ranked;
use crate::text;
use vstd::prelude::*;

verus! {

/// How long the logs and the artifacts of a terminal run are kept.
#[derive(Debug, Clone, Copy)]
pub struct RetentionConfig {
    pub log_ttl_ms: i64,
    pub artifact_ttl_ms: i64,
}

/// The lease that gates the sweeper to one replica at a time.
pub const RETENTION_LEASE: &'static str = "retention-sweeper";

pub const RETENTION_LEASE_TTL_MS: i64 = 300000;

/// Runs pruned per pass.
pub const SWEEP_BATCH: u32 = 100;

/// The lease that gates the collection of workspace objects.
pub const GC_LEASE: &'static str = "cas-gc";

pub const GC_LEASE_TTL_MS: i64 = 300000;

/// Bound on the residue alarms of one pass.
pub const RESIDUE_LOG_CAP: usize = 50;

/// What a prune pass asks for next. Logs come first, then artifacts.
#[derive(Debug)]
pub enum RetentionAction {
    /// The runs of the class that are past `cutoff`.
    ListRuns { artifacts: bool, cutoff: i64 },
    /// The object keys of a run.
    ListKeys { artifacts: bool, run: String },
    DeleteBlob { key: String },
    /// Drop a run's index rows.
    DropIndex { artifacts: bool, run: String },
    /// The pass is over: the runs pruned, or the failure that ended it.
    Done(Result<u32, String>),
}

/// The mathematical model of a [`RetentionAction`].
pub enum RetentionActionView {
    ListRuns { artifacts: bool, cutoff: i64 },
    ListKeys { artifacts: bool, run: Seq<char> },
    DeleteBlob { key: Seq<char> },
    DropIndex { artifacts: bool, run: Seq<char> },
    Done(Result<u32, Seq<char>>),
}

impl View for RetentionAction {
    type V = RetentionActionView;

    open spec fn view(&self) -> RetentionActionView {
        match self {
            RetentionAction::ListRuns { artifacts, cutoff } => RetentionActionView::ListRuns {
                artifacts: *artifacts,
                cutoff: *cutoff,
            },
            RetentionAction::ListKeys { artifacts, run } => RetentionActionView::ListKeys {
                artifacts: *artifacts,
                run: run@,
            },
            RetentionAction::DeleteBlob { key } => RetentionActionView::DeleteBlob { key: key@ },
            RetentionAction::DropIndex { artifacts, run } => RetentionActionView::DropIndex {
                artifacts: *artifacts,
                run: run@,
            },
            RetentionAction::Done(r) => RetentionActionView::Done(
                match r {
                    Ok(n) => Ok(*n),
                    Err(m) => Err(m@),
                },
            ),
        }
    }
}

/// The outcome of the action that was asked for.
#[derive(Debug)]
pub enum RetentionEvent {
    /// The names a listing gave: runs or keys.
    Listed(Result<Vec<String>, String>),
    /// A deletion or an index drop.
    Performed(Result<(), String>),
}

/// What a pass waits for.
#[derive(Debug, Clone, Copy, PartialEq, Eq, Structural)]
pub enum RetentionStage {
    AwaitRuns,
    AwaitKeys,
    AwaitDelete,
    AwaitDrop,
    Over,
}

/// A prune pass. `runs` are the runs of the class at hand, of which `run` are done; `keys` are
/// the object keys of the run at hand, of which `key` are deleted. `pruned` counts the runs whose
/// logs are gone.
#[derive(Debug)]
pub struct RetentionPass {
    pub artifacts: bool,
    pub artifact_cutoff: i64,
    pub runs: Vec<String>,
    pub run: usize,
    pub keys: Vec<String>,
    pub key: usize,
    pub pruned: u32,
    pub stage: RetentionStage,
}

/// The mathematical model of a [`RetentionPass`].
#[verifier::ext_equal]
pub struct PassView {
    pub artifacts: bool,
    pub artifact_cutoff: i64,
    pub runs: Seq<Seq<char>>,
    pub run: int,
    pub keys: Seq<Seq<char>>,
    pub key: int,
    pub pruned: int,
    pub stage: RetentionStage,
}

impl View for RetentionPass {
    type V = PassView;

    open spec fn view(&self) -> PassView {
        PassView {
            artifacts: self.artifacts,
            artifact_cutoff: self.artifact_cutoff,
            runs: text::views(self.runs@),
            run: self.run as int,
            keys: text::views(self.keys@),
            key: self.key as int,
            pruned: self.pruned as int,
            stage: self.stage,
        }
    }
}

impl PassView {
    /// The cursors stand inside their lists.
    pub open spec fn in_bounds(self) -> bool {
        0 <= self.run <= self.runs.len() && 0 <= self.key <= self.keys.len()
    }

    /// What is waited for is there.
    pub open spec fn wf(self) -> bool {
        &&& self.in_bounds()
        &&& self.stage == RetentionStage::AwaitKeys ==> self.run < self.runs.len()
        &&& self.stage == RetentionStage::AwaitDelete ==> self.run < self.runs.len() && self.key < self.keys.len()
        &&& self.stage == RetentionStage::AwaitDrop ==> self.run < self.runs.len() && self.key == self.keys.len()
    }

    /// The next run of the class; behind the last, the next class; behind that, the end.
    pub open spec fn next_run(self) -> (PassView, RetentionActionView) {
        if self.run < self.runs.len() {
            (
                PassView { stage: RetentionStage::AwaitKeys, ..self },
                RetentionActionView::ListKeys { artifacts: self.artifacts, run: self.runs[self.run] },
            )
        } else if !self.artifacts {
            (
                PassView {
                    artifacts: true,
                    runs: Seq::<Seq<char>>::empty(),
                    run: 0,
                    stage: RetentionStage::AwaitRuns,
                    ..self
                },
                RetentionActionView::ListRuns { artifacts: true, cutoff: self.artifact_cutoff },
            )
        } else {
            (
                PassView { stage: RetentionStage::Over, ..self },
                RetentionActionView::Done(Ok(self.pruned as u32)),
            )
        }
    }

    /// The next key of the run; behind the last, its index.
    pub open spec fn next_key(self) -> (PassView, RetentionActionView) {
        if self.key < self.keys.len() {
            (
                PassView { stage: RetentionStage::AwaitDelete, ..self },
                RetentionActionView::DeleteBlob { key: self.keys[self.key] },
            )
        } else {
            (
                PassView { stage: RetentionStage::AwaitDrop, ..self },
                RetentionActionView::DropIndex { artifacts: self.artifacts, run: self.runs[self.run] },
            )
        }
    }

    /// The pass ends with a failure.
    pub open spec fn failed(self, message: Seq<char>) -> (PassView, RetentionActionView) {
        (PassView { stage: RetentionStage::Over, ..self }, RetentionActionView::Done(Err(message)))
    }

    /// The pass after an outcome, and what it asks for next.
    pub open spec fn after(self, ev: RetentionEvent) -> (PassView, RetentionActionView) {
        match (self.stage, ev) {
            (RetentionStage::AwaitRuns, RetentionEvent::Listed(Ok(runs))) => PassView {
                runs: text::views(runs@),
                run: 0,
                ..self
            }.next_run(),
            (RetentionStage::AwaitKeys, RetentionEvent::Listed(Ok(keys))) => PassView {
                keys: text::views(keys@),
                key: 0,
                ..self
            }.next_key(),
            (RetentionStage::AwaitDelete, RetentionEvent::Performed(Ok(_))) => PassView {
                key: self.key + 1,
                ..self
            }.next_key(),
            (RetentionStage::AwaitDelete, RetentionEvent::Performed(Err(e))) => self.failed(
                "delete "@ + self.keys[self.key] + ": "@ + e@,
            ),
            (RetentionStage::AwaitDrop, RetentionEvent::Performed(Ok(_))) => PassView {
                run: self.run + 1,
                pruned: if self.artifacts {
                    self.pruned
                } else {
                    self.pruned + 1
                },
                ..self
            }.next_run(),
            (_, RetentionEvent::Listed(Err(e))) => self.failed(e@),
            (_, RetentionEvent::Performed(Err(e))) => self.failed(e@),
            _ => self.failed("unexpected outcome"@),
        }
    }
}

/// The action succeeded.
pub open spec fn performed(ev: RetentionEvent) -> bool {
    ev matches RetentionEvent::Performed(r) && r is Ok
}

/// An index is dropped only behind its bodies: when a pass asks for a drop, it has asked for the
/// deletion of every key of that run, and none of them failed.
pub proof fn index_is_dropped_last(pass: PassView, ev: RetentionEvent)
    requires
        pass.wf(),
    ensures
        pass.after(ev).1 matches RetentionActionView::DropIndex { artifacts, run } ==> {
            let after = pass.after(ev).0;
            &&& after.stage == RetentionStage::AwaitDrop
            &&& after.key == after.keys.len()
            &&& run == after.runs[after.run]
        },
        pass.after(ev).1 is DropIndex && pass.stage == RetentionStage::AwaitDelete ==> performed(ev),
        pass.after(ev).0.key > pass.key ==> pass.stage == RetentionStage::AwaitDelete && performed(ev),
{
}

impl RetentionPass {
    fn next_run(&mut self) -> (r: RetentionAction)
        requires
            old(self)@.in_bounds(),
        ensures
            (final(self)@, r@) == old(self)@.next_run(),
            final(self)@.wf(),
    {
        if self.run < self.runs.len() {
            self.stage = RetentionStage::AwaitKeys;
            RetentionAction::ListKeys { artifacts: self.artifacts, run: self.runs[self.run].clone() }
        } else if !self.artifacts {
            self.artifacts = true;
            self.runs = Vec::new();
            self.run = 0;
            self.stage = RetentionStage::AwaitRuns;
            assert(self@.runs =~= Seq::<Seq<char>>::empty());
            RetentionAction::ListRuns { artifacts: true, cutoff: self.artifact_cutoff }
        } else {
            self.stage = RetentionStage::Over;
            RetentionAction::Done(Ok(self.pruned))
        }
    }

    fn next_key(&mut self) -> (r: RetentionAction)
        requires
            old(self)@.in_bounds(),
            old(self).run < old(self).runs@.len(),
        ensures
            (final(self)@, r@) == old(self)@.next_key(),
            final(self)@.wf(),
    {
        if self.key < self.keys.len() {
            self.stage = RetentionStage::AwaitDelete;
            RetentionAction::DeleteBlob { key: self.keys[self.key].clone() }
        } else {
            self.stage = RetentionStage::AwaitDrop;
            RetentionAction::DropIndex { artifacts: self.artifacts, run: self.runs[self.run].clone() }
        }
    }

    fn fail(&mut self, message: String) -> (r: RetentionAction)
        ensures
            (final(self)@, r@) == old(self)@.failed(message@),
            old(self)@.in_bounds() ==> final(self)@.wf(),
    {
        self.stage = RetentionStage::Over;
        RetentionAction::Done(Err(message))
    }

    /// Take the outcome of the last action and say what comes next.
    pub fn step(&mut self, ev: RetentionEvent) -> (r: RetentionAction)
        requires
            old(self)@.wf(),
            old(self)@.artifacts || old(self)@.pruned < u32::MAX,
        ensures
            (final(self)@, r@) == old(self)@.after(ev),
            final(self)@.wf(),
    {
        match (self.stage, ev) {
            (RetentionStage::AwaitRuns, RetentionEvent::Listed(Ok(runs))) => {
                self.runs = runs;
                self.run = 0;
                self.next_run()
            },
            (RetentionStage::AwaitKeys, RetentionEvent::Listed(Ok(keys))) => {
                self.keys = keys;
                self.key = 0;
                self.next_key()
            },
            (RetentionStage::AwaitDelete, RetentionEvent::Performed(Ok(_))) => {
                let n: usize = self.keys.len();
                assert(self.key < n);
                self.key = self.key + 1;
                self.next_key()
            },
            (RetentionStage::AwaitDelete, RetentionEvent::Performed(Err(e))) => {
                let mut m = "delete ".to_owned();
                m.append(self.keys[self.key].as_str());
                m.append(": ");
                m.append(e.as_str());
                self.fail(m)
            },
            (RetentionStage::AwaitDrop, RetentionEvent::Performed(Ok(_))) => {
                let n: usize = self.runs.len();
                assert(self.run < n);
                self.run = self.run + 1;
                if !self.artifacts {
                    self.pruned = self.pruned + 1;
                }
                self.next_run()
            },
            (_, RetentionEvent::Listed(Err(e))) => self.fail(e),
            (_, RetentionEvent::Performed(Err(e))) => self.fail(e),
            _ => self.fail("unexpected outcome".to_owned()),
        }
    }
}

/// Begin a pass, where this replica holds the lease: a replica that does not prunes nothing.
pub fn sweep_retention(owner: &str, lease_owner: &str, now: i64, cfg: RetentionConfig) -> (r: (RetentionPass, RetentionAction))
    requires
        i64::MIN <= now - cfg.log_ttl_ms <= i64::MAX,
        i64::MIN <= now - cfg.artifact_ttl_ms <= i64::MAX,
    ensures
        r.0@.wf(),
        r.0@.pruned == 0,
        if owner@ == lease_owner@ {
            &&& r.0@.stage == RetentionStage::AwaitRuns
            &&& !r.0@.artifacts
            &&& r.0@.artifact_cutoff == now - cfg.artifact_ttl_ms
            &&& r.1@ == RetentionActionView::ListRuns { artifacts: false, cutoff: (now - cfg.log_ttl_ms) as i64 }
        } else {
            &&& r.0@.stage == RetentionStage::Over
            &&& r.1@ == RetentionActionView::Done(Ok(0u32))
        },
{
    let mut pass = RetentionPass {
        artifacts: false,
        artifact_cutoff: now - cfg.artifact_ttl_ms,
        runs: Vec::new(),
        run: 0,
        keys: Vec::new(),
        key: 0,
        pruned: 0,
        stage: RetentionStage::AwaitRuns,
    };
    if !text::str_eq(owner, lease_owner) {
        pass.stage = RetentionStage::Over;
        return (pass, RetentionAction::Done(Ok(0)));
    }
    (pass, RetentionAction::ListRuns { artifacts: false, cutoff: now - cfg.log_ttl_ms })
}

/// What a presence check of a snapshot's root tree found.
#[derive(Debug, Clone, Copy, PartialEq, Eq, Structural)]
pub enum RootCheck {
    Present,
    NotFound,
    Failed,
}

/// Whether a workspace snapshot can still be materialised. Only a definitive not-found says no:
/// a transient failure is no proof of absence.
pub fn snapshot_present(check: RootCheck) -> (r: bool)
    ensures
        r == (check != RootCheck::NotFound),
{
    match check {
        RootCheck::Present => true,
        RootCheck::NotFound => false,
        RootCheck::Failed => true,
    }
}

/// The workspace collection's windows.
#[derive(Debug, Clone, Copy)]
pub struct GcConfig {
    /// How long a terminal run's workspace stays reachable.
    pub workspace_ttl_ms: i64,
    /// Objects younger than this are never swept.
    pub grace_ms: i64,
}

/// A reachable object that the cold listing does not hold.
#[derive(Debug, PartialEq, Eq)]
pub struct ColdResidue {
    pub key: String,
    /// The first root whose walk reached the object.
    pub root: String,
    pub root_recorded_at: i64,
}

impl Ranked for ColdResidue {
    open spec fn ranks_before(&self, other: &Self) -> bool {
        text::lex_le(self.key@, other.key@)
    }

    proof fn rank_total(a: &Self, b: &Self) {
        text::lex_le_total(a.key@, b.key@);
    }

    proof fn rank_transitive(a: &Self, b: &Self, c: &Self) {
        text::lex_le_transitive(a.key@, b.key@, c.key@);
    }

    fn may_precede(&self, other: &Self) -> (r: bool) {
        text::str_le(self.key.as_str(), other.key.as_str())
    }
}

/// What one collection pass did and what it found missing.
#[derive(Debug)]
pub struct CasSweepReport {
    pub swept: u32,
    pub residue: Vec<ColdResidue>,
    /// Residue under roots younger than the grace window.
    pub suppressed_residue: Vec<ColdResidue>,
}

/// What the depot said of its durability tier.
#[derive(Debug)]
pub enum TierProbe {
    /// No depot is configured.
    NoDepot,
    Answered(String),
    Failed,
}

impl TierProbe {
    /// Only a positive answer says that cold is not expected to hold anything.
    pub open spec fn warm_only(self) -> bool {
        self matches TierProbe::Answered(t) && t@ == "warm-only"@
    }
}

/// Take the lease's answer into the gauges. A replica that lost the lease stops exporting what
/// it reported as leader. Returns whether the pass goes on.
pub fn begin_cas_pass(m: &mut Metrics, owner: &str, lease_owner: &str) -> (leads: bool)
    ensures
        leads == (owner@ == lease_owner@),
        *final(m) == if leads {
            Metrics { leader: 1, ..*old(m) }
        } else {
            Metrics { cold_residue: 0, cold_residue_suppressed: 0, tier_probe_failed: 0, leader: 0, ..*old(m) }
        },
{
    if !text::str_eq(owner, lease_owner) {
        metrics::set_cas_gc_cold_residue(m, 0, 0);
        metrics::set_cas_gc_tier_probe_failed(m, false);
        metrics::set_cas_gc_leader(m, false);
        return false;
    }
    metrics::set_cas_gc_leader(m, true);
    true
}

/// The report of a replica that does not lead.
pub fn empty_report() -> (r: CasSweepReport)
    ensures
        r.swept == 0,
        r.residue@.len() == 0,
        r.suppressed_residue@.len() == 0,
{
    CasSweepReport { swept: 0, residue: Vec::new(), suppressed_residue: Vec::new() }
}

/// The sweep behind a finished mark walk. `in_cold` are the marked keys that the cold listing
/// holds.
pub struct CasSweep {
    pub walk: MarkWalk,
    pub now: i64,
    pub grace_ms: i64,
    pub in_cold: Vec<String>,
    pub swept: u32,
}

/// Younger than the grace window.
pub open spec fn too_young(now: i64, at: i64, grace_ms: i64) -> bool {
    now - at < grace_ms
}

fn is_too_young(now: i64, at: i64, grace_ms: i64) -> (r: bool)
    ensures
        r == too_young(now, at, grace_ms),
{
    (now as i128) - (at as i128) < grace_ms as i128
}

/// The marked objects that are neither in the cold listing nor known to be nowhere, with the
/// root each was first reached from; `young` picks those under young or under old roots.
pub open spec fn residue_of(
    marked: Seq<(String, usize)>,
    roots: Seq<(String, i64)>,
    in_cold: Seq<Seq<char>>,
    missing: Seq<Seq<char>>,
    now: i64,
    grace_ms: i64,
    young: bool,
) -> Seq<ColdResidue>
    decreases marked.len(),
{
    if marked.len() == 0 {
        Seq::<ColdResidue>::empty()
    } else {
        let before = residue_of(marked.drop_last(), roots, in_cold, missing, now, grace_ms, young);
        let (key, idx) = marked.last();
        let (root, recorded_at) = roots[idx as int];
        if !in_cold.contains(key@) && !missing.contains(key@) && too_young(now, recorded_at, grace_ms) == young {
            before.push(ColdResidue { key, root, root_recorded_at: recorded_at })
        } else {
            before
        }
    }
}

impl CasSweep {
    pub open spec fn wf(self) -> bool {
        self.walk.wf() && self.walk.finished()
    }

    /// What a pass whose cold listing is complete reports as residue.
    pub open spec fn residue(self, young: bool) -> Seq<ColdResidue> {
        residue_of(
            self.walk.marked@,
            self.walk.roots@,
            text::views(self.in_cold@),
            text::views(self.walk.walk_missing@),
            self.now,
            self.grace_ms,
            young,
        )
    }

    /// Begin the sweep behind a finished walk.
    pub fn new(walk: MarkWalk, now: i64, cfg: GcConfig) -> (r: CasSweep)
        requires
            walk.wf(),
            walk.finished(),
        ensures
            r.wf(),
            r.walk == walk,
            r.now == now,
            r.grace_ms == cfg.grace_ms,
            r.in_cold@.len() == 0,
            r.swept == 0,
    {
        CasSweep { walk, now, grace_ms: cfg.grace_ms, in_cold: Vec::new(), swept: 0 }
    }

    /// Look at one object of the cold listing; true when it is to be deleted. A marked object
    /// is noted as present; an unmarked one goes unless it is too young.
    pub fn consider(&mut self, key: String, modified_ms: i64) -> (delete: bool)
        requires
            old(self).wf(),
        ensures
            final(self).wf(),
            delete == (!old(self).walk.marks().dom().contains(key@) && !too_young(
                old(self).now,
                modified_ms,
                old(self).grace_ms,
            )),
            *final(self) == (CasSweep { in_cold: final(self).in_cold, ..*old(self) }),
            text::views(final(self).in_cold@) == if old(self).walk.marks().dom().contains(key@) {
                text::views(old(self).in_cold@).push(key@)
            } else {
                text::views(old(self).in_cold@)
            },
    {
        if self.walk.is_marked(&key) {
            self.in_cold.push(key);
            assert(text::views(self.in_cold@) =~= text::views(old(self).in_cold@).push(key@));
            return false;
        }
        !is_too_young(self.now, modified_ms, self.grace_ms)
    }

    /// Count one object that was deleted. A failed deletion is not counted; the next pass
    /// tries it again.
    pub fn deleted(&mut self)
        requires
            old(self).wf(),
            old(self).swept < u32::MAX,
        ensures
            final(self).wf(),
            *final(self) == (CasSweep { swept: (old(self).swept + 1) as u32, ..*old(self) }),
    {
        self.swept = self.swept + 1;
    }

    fn collect_residue(&self, young: bool) -> (r: Vec<ColdResidue>)
        requires
            self.wf(),
        ensures
            r@ == sort::sorted(self.residue(young)),
    {
        let ghost cold = text::views(self.in_cold@);
        let ghost missing = text::views(self.walk.walk_missing@);
        let mut out: Vec<ColdResidue> = Vec::new();
        let mut i: usize = 0;
        while i < self.walk.marked.len()
            invariant
                self.wf(),
                cold == text::views(self.in_cold@),
                missing == text::views(self.walk.walk_missing@),
                i <= self.walk.marked@.len(),
                out@ == residue_of(
                    self.walk.marked@.take(i as int),
                    self.walk.roots@,
                    cold,
                    missing,
                    self.now,
                    self.grace_ms,
                    young,
                ),
            decreases self.walk.marked@.len() - i,
        {
            let ghost next = self.walk.marked@.take(i + 1);
            assert(next.drop_last() =~= self.walk.marked@.take(i as int));
            assert(next.last() == self.walk.marked@[i as int]);
            proof {
                mark::marks_are_the_list(self.walk.marked@);
                assert(self.walk.marks().dom().contains(self.walk.marked@[i as int].0@));
                assert(self.walk.mark_justified(self.walk.marked@[i as int].0@));
            }
            let m = &self.walk.marked[i];
            let root = &self.walk.roots[m.1];
            let held = text::contains_string(&self.in_cold, m.0.as_str());
            let nowhere = text::contains_string(&self.walk.walk_missing, m.0.as_str());
            if !held && !nowhere && is_too_young(self.now, root.1, self.grace_ms) == young {
                out.push(ColdResidue { key: m.0.clone(), root: root.0.clone(), root_recorded_at: root.1 });
            }
            i = i + 1;
        }
        assert(self.walk.marked@.take(i as int) =~= self.walk.marked@);
        sort::sort(out)
    }

    /// End the pass: the residue of a torn cold tier, and the gauges. A depot that answers that
    /// it is warm-only has no cold tier to be torn; a probe that fails masks nothing.
    pub fn finish(self, probe: TierProbe, m: &mut Metrics) -> (r: CasSweepReport)
        requires
            self.wf(),
        ensures
            r.swept == self.swept,
            probe.warm_only() ==> r.residue@.len() == 0 && r.suppressed_residue@.len() == 0,
            !probe.warm_only() ==> r.residue@ == sort::sorted(self.residue(false)) && r.suppressed_residue@
                == sort::sorted(self.residue(true)),
            *final(m) == (Metrics {
                cold_residue: r.residue@.len() as u64,
                cold_residue_suppressed: r.suppressed_residue@.len() as u64,
                tier_probe_failed: metrics::flag(probe is Failed),
                ..*old(m)
            }),
    {
        metrics::set_cas_gc_tier_probe_failed(m, false);
        match &probe {
            TierProbe::NoDepot => {},
            TierProbe::Answered(tier) => if text::str_eq(tier.as_str(), "warm-only") {
                metrics::set_cas_gc_cold_residue(m, 0, 0);
                return CasSweepReport { swept: self.swept, residue: Vec::new(), suppressed_residue: Vec::new() };
            },
            TierProbe::Failed => {
                metrics::set_cas_gc_tier_probe_failed(m, true);
            },
        }
        let residue = self.collect_residue(false);
        let suppressed_residue = self.collect_residue(true);
        metrics::set_cas_gc_cold_residue(m, residue.len() as u64, suppressed_residue.len() as u64);
        CasSweepReport { swept: self.swept, residue, suppressed_residue }
    }

    /// What a mark walk could reach is never deleted: not a tree that some chain of reads leads
    /// to from a root, nor a blob among its entries.
    pub proof fn reachable_objects_survive(self, j: int, h: Seq<char>)
        requires
            self.wf(),
            0 <= j < self.walk.roots@.len(),
            mark::reaches(self.walk.reads@, self.walk.roots@[j].0@, h),
        ensures
            self.walk.marks().dom().contains(mark::tree_key(h)),
            forall|b: Seq<char>|
                self.walk.reads@[h] is Some && #[trigger] self.walk.reads@[h]->0.contains(mark::TargetView::Blob(b))
                    ==> self.walk.marks().dom().contains(mark::blob_key(b)),
    {
        self.walk.finished_walk_marks_all_reachable(j, h);
    }

    /// Residue is exactly the marked objects that cold does not hold and that are not known to
    /// be nowhere, split by the age of their root; nothing unmarked is ever residue.
    pub proof fn residue_is_marked_minus_cold(self, i: int, young: bool)
        requires
            self.wf(),
            0 <= i < self.walk.marked@.len(),
        ensures
            ({
                let (key, idx) = self.walk.marked@[i];
                let (root, at) = self.walk.roots@[idx as int];
                self.residue(young).contains(ColdResidue { key, root, root_recorded_at: at }) <== {
                    &&& !text::views(self.in_cold@).contains(key@)
                    &&& !text::views(self.walk.walk_missing@).contains(key@)
                    &&& too_young(self.now, at, self.grace_ms) == young
                }
            }),
            forall|n: int|
                0 <= n < self.residue(young).len() ==> {
                    let item = #[trigger] self.residue(young)[n];
                    &&& self.walk.marks().dom().contains(item.key@)
                    &&& !text::views(self.in_cold@).contains(item.key@)
                    &&& !text::views(self.walk.walk_missing@).contains(item.key@)
                    &&& too_young(self.now, item.root_recorded_at, self.grace_ms) == young
                },
    {
        mark::marks_are_the_list(self.walk.marked@);
        residue_members(
            self.walk.marked@,
            self.walk.roots@,
            text::views(self.in_cold@),
            text::views(self.walk.walk_missing@),
            self.now,
            self.grace_ms,
            young,
        );
    }

    /// What a pass reports: each list ascends strictly by key, the two have no key in common, and
    /// together they hold exactly the marked objects that cold does not hold and that are not known
    /// to be nowhere. An object stands in the suppressed list exactly where the root it was first
    /// reached from is younger than the grace window.
    pub proof fn report_splits_the_residue(self)
        requires
            self.wf(),
        ensures
            keys_ascend(sort::sorted(self.residue(false))),
            keys_ascend(sort::sorted(self.residue(true))),
            forall|k: Seq<char>| !(names_key(sort::sorted(self.residue(false)), k) && #[trigger] names_key(
                sort::sorted(self.residue(true)),
                k,
            )),
            forall|k: Seq<char>|
                self.walk.marks().dom().contains(k) && !text::views(self.in_cold@).contains(k) && !text::views(
                    self.walk.walk_missing@,
                ).contains(k) <==> names_key(sort::sorted(self.residue(false)), k) || #[trigger] names_key(
                    sort::sorted(self.residue(true)),
                    k,
                ),
            forall|k: Seq<char>|
                #[trigger] names_key(sort::sorted(self.residue(true)), k) ==> too_young(
                    self.now,
                    self.walk.roots@[self.walk.marks()[k]].1,
                    self.grace_ms,
                ),
            forall|k: Seq<char>|
                #[trigger] names_key(sort::sorted(self.residue(false)), k) ==> !too_young(
                    self.now,
                    self.walk.roots@[self.walk.marks()[k]].1,
                    self.grace_ms,
                ),
    {
        let marked = self.walk.marked@;
        let cold = text::views(self.in_cold@);
        let missing = text::views(self.walk.walk_missing@);
        mark::marks_are_the_list(marked);
        self.residue_lists_its_keys(false);
        self.residue_lists_its_keys(true);
    }

    proof fn residue_lists_its_keys(self, young: bool)
        requires
            self.wf(),
        ensures
            keys_ascend(sort::sorted(self.residue(young))),
            forall|k: Seq<char>| #[trigger]
                names_key(sort::sorted(self.residue(young)), k) <==> self.walk.marks().dom().contains(k) && !text::views(
                    self.in_cold@,
                ).contains(k) && !text::views(self.walk.walk_missing@).contains(k) && too_young(
                    self.now,
                    self.walk.roots@[self.walk.marks()[k]].1,
                    self.grace_ms,
                ) == young,
    {
        let marked = self.walk.marked@;
        let cold = text::views(self.in_cold@);
        let missing = text::views(self.walk.walk_missing@);
        let s = self.residue(young);
        let t = sort::sorted(s);
        mark::marks_are_the_list(marked);
        residue_members(marked, self.walk.roots@, cold, missing, self.now, self.grace_ms, young);
        residue_keys_differ(marked, self.walk.roots@, cold, missing, self.now, self.grace_ms, young);
        sort::sorted_is_ordered_permutation(s);
        broadcast use vstd::seq_lib::group_to_multiset_ensures;

        assert forall|x: ColdResidue| t.contains(x) <==> s.contains(x) by {
            assert(t.to_multiset().count(x) == s.to_multiset().count(x));
        }
        assert(s.no_duplicates()) by {
            assert forall|i: int, j: int| 0 <= i < s.len() && 0 <= j < s.len() && i != j implies s[i] != s[j] by {
                if i < j {
                    assert(s[i].key@ != s[j].key@);
                } else {
                    assert(s[j].key@ != s[i].key@);
                }
            }
        }
        s.lemma_multiset_has_no_duplicates();
        t.lemma_multiset_has_no_duplicates_conv();
        assert forall|i: int, j: int| #![trigger t[i], t[j]] 0 <= i < j < t.len() implies text::lex_le(
            t[i].key@,
            t[j].key@,
        ) && t[i].key@ != t[j].key@ by {
            assert(t[i].ranks_before(&t[j]));
            assert(t.contains(t[i]) && t.contains(t[j]));
            assert(s.contains(t[i]) && s.contains(t[j]));
            let a = choose|a: int| 0 <= a < s.len() && s[a] == t[i];
            let b = choose|b: int| 0 <= b < s.len() && s[b] == t[j];
            assert(t[i] != t[j]);
            if a < b {
                assert(s[a].key@ != s[b].key@);
            } else {
                assert(s[b].key@ != s[a].key@);
            }
        }
        assert forall|k: Seq<char>| #[trigger] names_key(t, k) <==> self.walk.marks().dom().contains(k) && !cold.contains(
            k,
        ) && !missing.contains(k) && too_young(self.now, self.walk.roots@[self.walk.marks()[k]].1, self.grace_ms)
            == young by {
            if names_key(t, k) {
                let i = choose|i: int| 0 <= i < t.len() && (#[trigger] t[i]).key@ == k;
                assert(t.contains(t[i]));
                assert(s.contains(t[i]));
                let a = choose|a: int| 0 <= a < s.len() && s[a] == t[i];
                let m = choose|m: int|
                    0 <= m < marked.len() && (#[trigger] marked[m]).0 == s[a].key && s[a].root_recorded_at
                        == self.walk.roots@[marked[m].1 as int].1;
                assert(self.walk.marks()[marked[m].0@] == marked[m].1);
            }
            if self.walk.marks().dom().contains(k) && !cold.contains(k) && !missing.contains(k) && too_young(
                self.now,
                self.walk.roots@[self.walk.marks()[k]].1,
                self.grace_ms,
            ) == young {
                let m = choose|m: int| 0 <= m < marked.len() && (#[trigger] marked[m]).0@ == k;
                let (key, idx) = marked[m];
                let (root, at) = self.walk.roots@[idx as int];
                let item = ColdResidue { key, root, root_recorded_at: at };
                assert(s.contains(item));
                assert(t.contains(item));
                let i = choose|i: int| 0 <= i < t.len() && t[i] == item;
                assert(t[i].key@ == k);
            }
        }
    }
}

/// The keys ascend, and none occurs twice.
pub open spec fn keys_ascend(s: Seq<ColdResidue>) -> bool {
    forall|i: int, j: int|
        #![trigger s[i], s[j]]
        0 <= i < j < s.len() ==> text::lex_le(s[i].key@, s[j].key@) && s[i].key@ != s[j].key@
}

/// An item of the list has the key.
pub open spec fn names_key(s: Seq<ColdResidue>, key: Seq<char>) -> bool {
    exists|i: int| 0 <= i < s.len() && (#[trigger] s[i]).key@ == key
}

proof fn residue_keys_differ(
    marked: Seq<(String, usize)>,
    roots: Seq<(String, i64)>,
    in_cold: Seq<Seq<char>>,
    missing: Seq<Seq<char>>,
    now: i64,
    grace_ms: i64,
    young: bool,
)
    requires
        mark::distinct_keys(marked),
    ensures
        forall|i: int, j: int|
            #![trigger residue_of(marked, roots, in_cold, missing, now, grace_ms, young)[i], residue_of(
                marked,
                roots,
                in_cold,
                missing,
                now,
                grace_ms,
                young,
            )[j]]
            0 <= i < j < residue_of(marked, roots, in_cold, missing, now, grace_ms, young).len() ==> residue_of(
                marked,
                roots,
                in_cold,
                missing,
                now,
                grace_ms,
                young,
            )[i].key@ != residue_of(marked, roots, in_cold, missing, now, grace_ms, young)[j].key@,
    decreases marked.len(),
{
    if marked.len() > 0 {
        let short = marked.drop_last();
        assert forall|i: int, j: int| #![trigger short[i], short[j]] 0 <= i < j < short.len() implies short[i].0@
            != short[j].0@ by {
            assert(marked[i].0@ != marked[j].0@);
        }
        residue_keys_differ(short, roots, in_cold, missing, now, grace_ms, young);
        residue_members(short, roots, in_cold, missing, now, grace_ms, young);
        let before = residue_of(short, roots, in_cold, missing, now, grace_ms, young);
        let all = residue_of(marked, roots, in_cold, missing, now, grace_ms, young);
        assert forall|i: int, j: int| #![trigger all[i], all[j]] 0 <= i < j < all.len() implies all[i].key@
            != all[j].key@ by {
            assert(all[i] == before[i]);
            if j < before.len() {
                assert(all[j] == before[j]);
            } else {
                let m = choose|m: int| 0 <= m < short.len() && (#[trigger] short[m]).0 == before[i].key && before[i].root_recorded_at
                    == roots[short[m].1 as int].1;
                assert(marked[m].0@ != marked[marked.len() - 1].0@);
            }
        }
    }
}

proof fn residue_members(
    marked: Seq<(String, usize)>,
    roots: Seq<(String, i64)>,
    in_cold: Seq<Seq<char>>,
    missing: Seq<Seq<char>>,
    now: i64,
    grace_ms: i64,
    young: bool,
)
    ensures
        forall|i: int|
            0 <= i < marked.len() ==> {
                let (key, idx) = #[trigger] marked[i];
                let (root, at) = roots[idx as int];
                !in_cold.contains(key@) && !missing.contains(key@) && too_young(now, at, grace_ms) == young
                    ==> residue_of(marked, roots, in_cold, missing, now, grace_ms, young).contains(
                    ColdResidue { key, root, root_recorded_at: at },
                )
            },
        forall|n: int|
            0 <= n < residue_of(marked, roots, in_cold, missing, now, grace_ms, young).len() ==> {
                let item = #[trigger] residue_of(marked, roots, in_cold, missing, now, grace_ms, young)[n];
                &&& exists|i: int|
                    0 <= i < marked.len() && (#[trigger] marked[i]).0 == item.key && item.root_recorded_at
                        == roots[marked[i].1 as int].1
                &&& !in_cold.contains(item.key@)
                &&& !missing.contains(item.key@)
                &&& too_young(now, item.root_recorded_at, grace_ms) == young
            },
    decreases marked.len(),
{
    if marked.len() > 0 {
        let short = marked.drop_last();
        residue_members(short, roots, in_cold, missing, now, grace_ms, young);
        let before = residue_of(short, roots, in_cold, missing, now, grace_ms, young);
        let all = residue_of(marked, roots, in_cold, missing, now, grace_ms, young);
        assert forall|i: int| 0 <= i < marked.len() implies ({
            let (key, idx) = #[trigger] marked[i];
            let (root, at) = roots[idx as int];
            !in_cold.contains(key@) && !missing.contains(key@) && too_young(now, at, grace_ms) == young
                ==> all.contains(ColdResidue { key, root, root_recorded_at: at })
        }) by {
            let (key, idx) = marked[i];
            let (root, at) = roots[idx as int];
            let item = ColdResidue { key, root, root_recorded_at: at };
            if !in_cold.contains(key@) && !missing.contains(key@) && too_young(now, at, grace_ms) == young {
                if i < short.len() {
                    assert(short[i] == marked[i]);
                    assert(before.contains(item));
                    let n = choose|n: int| 0 <= n < before.len() && before[n] == item;
                    assert(all[n] == item);
                } else {
                    assert(all[all.len() - 1] == item);
                }
            }
        }
        assert forall|n: int| 0 <= n < all.len() implies ({
            let item = #[trigger] all[n];
            &&& exists|i: int|
                0 <= i < marked.len() && (#[trigger] marked[i]).0 == item.key && item.root_recorded_at
                    == roots[marked[i].1 as int].1
            &&& !in_cold.contains(item.key@)
            &&& !missing.contains(item.key@)
            &&& too_young(now, item.root_recorded_at, grace_ms) == young
        }) by {
            if n < before.len() {
                assert(all[n] == before[n]);
                let i = choose|i: int|
                    0 <= i < short.len() && (#[trigger] short[i]).0 == before[n].key && before[n].root_recorded_at
                        == roots[short[i].1 as int].1;
                assert(marked[i].0 == before[n].key);
            } else {
                assert(marked[marked.len() - 1].0 == all[n].key);
            }
        }
    }
}

/// Whether an alarmed object still sits in the warm tier: a tree was read through it by the
/// walk itself, a blob only where the probe of its body succeeded.
pub fn warm_holds(key: &str, blob_readable: bool) -> (r: bool)
    ensures
        r == (!text::has_prefix(key@, "blobs/"@) || blob_readable),
{
    !text::starts_with(key, "blobs/") || blob_readable
}

/// A pass goes through every run that is past its time, in the order of the listing: the keys of
/// the first are asked for when the runs are listed, and of the next when a run's index is gone.
/// Behind the last run of the logs come the runs of the artifacts, behind the last of those the
/// end, which reports how many runs have no logs any more.
pub open spec fn turns_to_the_next_run(pass: PassView, after: (PassView, RetentionActionView)) -> bool {
    if pass.run < pass.runs.len() {
        &&& after.1 == (RetentionActionView::ListKeys { artifacts: pass.artifacts, run: pass.runs[pass.run] })
        &&& after.0 == (PassView { stage: RetentionStage::AwaitKeys, ..pass })
    } else if !pass.artifacts {
        &&& after.1 == (RetentionActionView::ListRuns { artifacts: true, cutoff: pass.artifact_cutoff })
        &&& after.0.stage == RetentionStage::AwaitRuns
        &&& after.0.artifacts
        &&& after.0.pruned == pass.pruned
        &&& after.0.artifact_cutoff == pass.artifact_cutoff
    } else {
        &&& after.1 == RetentionActionView::Done(Ok(pass.pruned as u32))
        &&& after.0.stage == RetentionStage::Over
    }
}

/// Every run that a listing gave is pruned, and each run's logs are counted once when its index
/// is gone.
pub proof fn every_expired_run_is_pruned(pass: PassView, runs: Vec<String>)
    requires
        pass.wf(),
    ensures
        pass.stage == RetentionStage::AwaitRuns ==> turns_to_the_next_run(
            PassView { runs: text::views(runs@), run: 0, ..pass },
            pass.after(RetentionEvent::Listed(Ok(runs))),
        ),
        pass.stage == RetentionStage::AwaitDrop && pass.artifacts ==> turns_to_the_next_run(
            PassView { run: pass.run + 1, ..pass },
            pass.after(RetentionEvent::Performed(Ok(()))),
        ),
        pass.stage == RetentionStage::AwaitDrop && !pass.artifacts ==> turns_to_the_next_run(
            PassView { run: pass.run + 1, pruned: pass.pruned + 1, ..pass },
            pass.after(RetentionEvent::Performed(Ok(()))),
        ),
{
}

/// Every body that a run's listing gave is deleted, in the order of the listing, and then the
/// run's index is dropped.
pub proof fn every_body_of_a_run_is_deleted(pass: PassView, keys: Vec<String>)
    requires
        pass.wf(),
    ensures
        pass.stage == RetentionStage::AwaitKeys ==> {
            let after = pass.after(RetentionEvent::Listed(Ok(keys)));
            &&& after.0.keys == text::views(keys@) && after.0.key == 0
            &&& after.0.runs == pass.runs && after.0.run == pass.run && after.0.artifacts == pass.artifacts
            &&& after.0.pruned == pass.pruned && after.0.artifact_cutoff == pass.artifact_cutoff
            &&& if keys@.len() > 0 {
                after.1 == (RetentionActionView::DeleteBlob { key: keys@[0]@ }) && after.0.stage
                    == RetentionStage::AwaitDelete
            } else {
                after.1 == (RetentionActionView::DropIndex { artifacts: pass.artifacts, run: pass.runs[pass.run] })
                    && after.0.stage == RetentionStage::AwaitDrop
            }
        },
        pass.stage == RetentionStage::AwaitDelete ==> {
            let after = pass.after(RetentionEvent::Performed(Ok(())));
            &&& after.0.keys == pass.keys && after.0.key == pass.key + 1
            &&& after.0.runs == pass.runs && after.0.run == pass.run && after.0.artifacts == pass.artifacts
            &&& after.0.pruned == pass.pruned && after.0.artifact_cutoff == pass.artifact_cutoff
            &&& if pass.key + 1 < pass.keys.len() {
                after.1 == (RetentionActionView::DeleteBlob { key: pass.keys[pass.key + 1] }) && after.0.stage
                    == RetentionStage::AwaitDelete
            } else {
                after.1 == (RetentionActionView::DropIndex { artifacts: pass.artifacts, run: pass.runs[pass.run] })
                    && after.0.stage == RetentionStage::AwaitDrop
            }
        },
{
}

/// A failure ends a pass with its message; that of a deletion names the key.
pub proof fn failures_end_the_prune(pass: PassView, m: String)
    requires
        pass.wf(),
    ensures
        pass.after(RetentionEvent::Listed(Err(m))).1 == RetentionActionView::Done(Err(m@)),
        pass.stage == RetentionStage::AwaitDelete ==> pass.after(RetentionEvent::Performed(Err(m))).1
            == RetentionActionView::Done(Err("delete "@ + pass.keys[pass.key] + ": "@ + m@)),
        pass.stage != RetentionStage::AwaitDelete ==> pass.after(RetentionEvent::Performed(Err(m))).1
            == RetentionActionView::Done(Err(m@)),
{
}

/// An object is old enough from the moment that as much time as the grace window has gone by.
pub proof fn grace_ends_with_its_window(now: i64, at: i64, grace_ms: i64)
    ensures
        too_young(now, at, grace_ms) <==> now < at + grace_ms,
{
}

/// Only a depot that answers that it is warm-only is taken to be.
pub proof fn only_an_answer_unmarks_cold(probe: TierProbe)
    ensures
        probe.warm_only() <==> probe is Answered && probe->Answered_0@ == "warm-only"@,
{
}

} // verus!
