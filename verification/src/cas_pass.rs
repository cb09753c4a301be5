//! One collection pass from start to end: the mark walk, the forgetting of dangling roots, the
//! sweep of both listings, the tier probe and the report, in that order.

use crate::mark;
use crate::mark::{MarkWalk, TreeRead};
use crate::metrics;
use crate::metrics::Metrics;
use crate::retention;
use crate::retention::{CasSweep, CasSweepReport, GcConfig, TierProbe};
use crate::sort;
use crate::text;
use vstd::prelude::*;

verus! {

/// What a pass asks for next.
pub enum CasAction {
    ReadTree { hash: String },
    ForgetRoot { root: String },
    ListObjects { prefix: &'static str },
    DeleteObject { key: String },
    ProbeTier,
    Done(Result<CasSweepReport, String>),
}

/// The outcome of what was asked for.
pub enum CasEvent {
    Tree(TreeRead),
    /// The root was forgotten, or the store failed to; the next pass tries again.
    Forgot,
    /// The objects of the listing, each with the time it was last modified.
    Listed(Result<Vec<(String, i64)>, String>),
    /// Whether the deletion succeeded.
    Deleted(bool),
    Tier(TierProbe),
}

/// A pass under way.
pub enum CasPass {
    Walking { walk: MarkWalk, now: i64, cfg: GcConfig },
    Forgetting { sweep: CasSweep, done: usize },
    Listing { sweep: CasSweep, blobs: bool },
    /// `next - 1` is the object whose deletion is awaited.
    Sweeping { sweep: CasSweep, blobs: bool, objects: Vec<(String, i64)>, next: usize },
    Probing { sweep: CasSweep },
    Over,
}

/// An object of the cold listing that the sweep deletes.
pub open spec fn deletable(sweep: CasSweep, object: (String, i64)) -> bool {
    !sweep.walk.marks().dom().contains(object.0@) && !retention::too_young(sweep.now, object.1, sweep.grace_ms)
}

/// The first deletable object from position `from` on.
pub open spec fn next_deletable(sweep: CasSweep, objects: Seq<(String, i64)>, from: int) -> Option<int>
    decreases objects.len() - from,
{
    if from < 0 || from >= objects.len() {
        None
    } else if deletable(sweep, objects[from]) {
        Some(from)
    } else {
        next_deletable(sweep, objects, from + 1)
    }
}

/// The marked keys among the objects from `from` up to `to`.
pub open spec fn marked_keys(sweep: CasSweep, objects: Seq<(String, i64)>, from: int, to: int) -> Seq<Seq<char>>
    decreases to - from,
{
    if from >= to {
        Seq::<Seq<char>>::empty()
    } else {
        let before = marked_keys(sweep, objects, from, to - 1);
        if sweep.walk.marks().dom().contains(objects[to - 1].0@) {
            before.push(objects[to - 1].0@)
        } else {
            before
        }
    }
}

/// `after` is `before` with the marked keys `noted` added to what cold holds.
pub open spec fn noted(before: CasSweep, after: CasSweep, keys: Seq<Seq<char>>) -> bool {
    &&& after == (CasSweep { in_cold: after.in_cold, ..before })
    &&& text::views(after.in_cold@) == text::views(before.in_cold@) + keys
}

/// The sweep behind a finished walk: it holds all that the walk found, and nothing is swept yet.
pub open spec fn begun(walk: MarkWalk, now: i64, cfg: GcConfig, sweep: CasSweep) -> bool {
    &&& walk.advanced(sweep.walk)
    &&& sweep.now == now
    &&& sweep.grace_ms == cfg.grace_ms
    &&& sweep.swept == 0
    &&& sweep.in_cold@.len() == 0
}

impl CasPass {
    /// Behind the walk, a pass holds a finished walk.
    pub open spec fn wf(self) -> bool {
        match self {
            CasPass::Walking { walk, now, cfg } => walk.wf() && walk.pending is Some,
            CasPass::Forgetting { sweep, done } => sweep.wf() && done < sweep.walk.dangling_roots@.len(),
            CasPass::Listing { sweep, blobs } => sweep.wf(),
            CasPass::Sweeping { sweep, blobs, objects, next } => sweep.wf() && 0 < next <= objects@.len()
                && sweep.swept < u32::MAX,
            CasPass::Probing { sweep } => sweep.wf(),
            CasPass::Over => true,
        }
    }

    /// What comes behind a walk that looked at everything it had: another tree, or the end of
    /// the walk, and then the dangling roots before any listing.
    pub open spec fn walked_on(walk: MarkWalk, now: i64, cfg: GcConfig, r: (CasPass, CasAction)) -> bool {
        match mark::advance(walk.front(), walk.root_idx as int, walk.roots@, walk.marks()).0 {
            Some(h) => {
                &&& r.0 matches CasPass::Walking { walk: w, now: n, cfg: c } && walk.advanced(w) && n == now && c == cfg
                &&& r.1 matches CasAction::ReadTree { hash } && hash@ == h
            },
            None => if walk.dangling_roots@.len() > 0 {
                &&& r.0 matches CasPass::Forgetting { sweep, done } && done == 0 && begun(walk, now, cfg, sweep)
                &&& r.1 matches CasAction::ForgetRoot { root } && root@ == walk.dangling_roots@[0]@
            } else {
                &&& r.0 matches CasPass::Listing { sweep, blobs } && !blobs && begun(walk, now, cfg, sweep)
                &&& r.1 matches CasAction::ListObjects { prefix } && prefix@ == "trees/"@
            },
        }
    }

    /// What comes behind the objects before `from`: the next deletion, or, when none is left,
    /// the other listing and then the tier probe.
    pub open spec fn swept_on(
        sweep: CasSweep,
        blobs: bool,
        objects: Seq<(String, i64)>,
        from: int,
        r: (CasPass, CasAction),
    ) -> bool {
        match next_deletable(sweep, objects, from) {
            Some(k) => {
                &&& r.0 matches CasPass::Sweeping { sweep: s, blobs: b, objects: o, next } && b == blobs && o@
                    == objects && next == k + 1 && noted(sweep, s, marked_keys(sweep, objects, from, k))
                &&& r.1 matches CasAction::DeleteObject { key } && key@ == objects[k].0@
            },
            None => if blobs {
                &&& r.0 matches CasPass::Probing { sweep: s } && noted(
                    sweep,
                    s,
                    marked_keys(sweep, objects, from, objects.len() as int),
                )
                &&& r.1 is ProbeTier
            } else {
                &&& r.0 matches CasPass::Listing { sweep: s, blobs: b } && b && noted(
                    sweep,
                    s,
                    marked_keys(sweep, objects, from, objects.len() as int),
                )
                &&& r.1 matches CasAction::ListObjects { prefix } && prefix@ == "blobs/"@
            },
        }
    }

    fn walk_on(walk: MarkWalk, now: i64, cfg: GcConfig) -> (r: (CasPass, CasAction))
        requires
            walk.wf(),
            walk.pending is None,
        ensures
            r.0.wf(),
            CasPass::walked_on(walk, now, cfg, r),
    {
        let mut walk = walk;
        match walk.next_tree() {
            Some(hash) => (CasPass::Walking { walk, now, cfg }, CasAction::ReadTree { hash }),
            None => {
                let sweep = CasSweep::new(walk, now, cfg);
                if sweep.walk.dangling_roots.len() > 0 {
                    let root = sweep.walk.dangling_roots[0].clone();
                    (CasPass::Forgetting { sweep, done: 0 }, CasAction::ForgetRoot { root })
                } else {
                    (CasPass::Listing { sweep, blobs: false }, CasAction::ListObjects { prefix: "trees/" })
                }
            },
        }
    }

    fn sweep_on(start: CasSweep, blobs: bool, objects: Vec<(String, i64)>, from: usize) -> (r: (CasPass, CasAction))
        requires
            start.wf(),
            start.swept < u32::MAX,
            from <= objects@.len(),
        ensures
            r.0.wf(),
            CasPass::swept_on(start, blobs, objects@, from as int, r),
    {
        let mut sweep = start;
        let mut i: usize = from;
        assert(text::views(sweep.in_cold@) =~= text::views(start.in_cold@) + marked_keys(
            start,
            objects@,
            from as int,
            i as int,
        ));
        while i < objects.len()
            invariant
                from <= i <= objects@.len(),
                start.wf(),
                start.swept < u32::MAX,
                sweep.wf(),
                noted(start, sweep, marked_keys(start, objects@, from as int, i as int)),
                next_deletable(start, objects@, from as int) == next_deletable(start, objects@, i as int),
            decreases objects@.len() - i,
        {
            let key = objects[i].0.clone();
            let delete = sweep.consider(key.clone(), objects[i].1);
            if delete {
                return (
                    CasPass::Sweeping { sweep, blobs, objects, next: i + 1 },
                    CasAction::DeleteObject { key },
                );
            }
            assert(text::views(sweep.in_cold@) =~= text::views(start.in_cold@) + marked_keys(
                start,
                objects@,
                from as int,
                i + 1,
            ));
            i = i + 1;
        }
        if blobs {
            (CasPass::Probing { sweep }, CasAction::ProbeTier)
        } else {
            (CasPass::Listing { sweep, blobs: true }, CasAction::ListObjects { prefix: "blobs/" })
        }
    }

    /// What a pass does with an outcome, and what it asks for next.
    pub open spec fn stepped(self, ev: CasEvent, r: (CasPass, CasAction)) -> bool {
        match (self, ev) {
            (CasPass::Walking { walk, now, cfg }, CasEvent::Tree(read)) => match read {
                TreeRead::Failed(e) => {
                    &&& r.0 is Over
                    &&& r.1 matches CasAction::Done(Err(m)) && m@ == "mark walk of tree "@ + walk.pending->0@ + ": "@ + e@
                        + " — aborting pass"@
                },
                _ => exists|w: MarkWalk| w.wf() && #[trigger] walk.told(read, w) && CasPass::walked_on(w, now, cfg, r),
            },
            (CasPass::Forgetting { sweep, done }, CasEvent::Forgot) => if done + 1 < sweep.walk.dangling_roots@.len() {
                &&& r.0 == (CasPass::Forgetting { sweep, done: (done + 1) as usize })
                &&& r.1 matches CasAction::ForgetRoot { root } && root@ == sweep.walk.dangling_roots@[done + 1]@
            } else {
                &&& r.0 == (CasPass::Listing { sweep, blobs: false })
                &&& r.1 matches CasAction::ListObjects { prefix } && prefix@ == "trees/"@
            },
            (CasPass::Listing { sweep, blobs }, CasEvent::Listed(Ok(objects))) => CasPass::swept_on(
                sweep,
                blobs,
                objects@,
                0,
                r,
            ),
            (CasPass::Listing { sweep, blobs }, CasEvent::Listed(Err(e))) => {
                &&& r.0 is Over
                &&& r.1 matches CasAction::Done(Err(m)) && m == e
            },
            (CasPass::Sweeping { sweep, blobs, objects, next }, CasEvent::Deleted(ok)) => CasPass::swept_on(
                if ok {
                    CasSweep { swept: (sweep.swept + 1) as u32, ..sweep }
                } else {
                    sweep
                },
                blobs,
                objects@,
                next as int,
                r,
            ),
            (CasPass::Probing { sweep }, CasEvent::Tier(probe)) => {
                &&& r.0 is Over
                &&& r.1 matches CasAction::Done(Ok(report)) && report.swept == sweep.swept && if probe.warm_only() {
                    report.residue@.len() == 0 && report.suppressed_residue@.len() == 0
                } else {
                    report.residue@ == sort::sorted(sweep.residue(false)) && report.suppressed_residue@ == sort::sorted(
                        sweep.residue(true),
                    )
                }
            },
            _ => {
                &&& r.0 is Over
                &&& r.1 matches CasAction::Done(Err(m)) && m@ == "unexpected outcome"@
            },
        }
    }

    /// The objects a pass has swept stay countable.
    pub open spec fn countable(self) -> bool {
        match self {
            CasPass::Listing { sweep, blobs } => sweep.swept < u32::MAX,
            CasPass::Sweeping { sweep, blobs, objects, next } => sweep.swept + 1 < u32::MAX,
            _ => true,
        }
    }

    /// Take an outcome and say what comes next. The gauges change only at the end of the pass.
    pub fn step(self, ev: CasEvent, m: &mut Metrics) -> (r: (CasPass, CasAction))
        requires
            self.wf(),
            self.countable(),
        ensures
            r.0.wf(),
            self.stepped(ev, r),
            match (self, ev, r.1) {
                (CasPass::Probing { sweep }, CasEvent::Tier(probe), CasAction::Done(Ok(report))) => *final(m)
                    == (Metrics {
                    cold_residue: report.residue@.len() as u64,
                    cold_residue_suppressed: report.suppressed_residue@.len() as u64,
                    tier_probe_failed: metrics::flag(probe is Failed),
                    ..*old(m)
                }),
                _ => *final(m) == *old(m),
            },
    {
        match (self, ev) {
            (CasPass::Walking { walk, now, cfg }, CasEvent::Tree(read)) => {
                let mut walk = walk;
                match walk.on_tree(read) {
                    Ok(_) => CasPass::walk_on(walk, now, cfg),
                    Err(e) => (CasPass::Over, CasAction::Done(Err(e))),
                }
            },
            (CasPass::Forgetting { sweep, done }, CasEvent::Forgot) => {
                let n: usize = sweep.walk.dangling_roots.len();
                if done < n - 1 {
                    let root = sweep.walk.dangling_roots[done + 1].clone();
                    (CasPass::Forgetting { sweep, done: done + 1 }, CasAction::ForgetRoot { root })
                } else {
                    (CasPass::Listing { sweep, blobs: false }, CasAction::ListObjects { prefix: "trees/" })
                }
            },
            (CasPass::Listing { sweep, blobs }, CasEvent::Listed(Ok(objects))) => CasPass::sweep_on(
                sweep,
                blobs,
                objects,
                0,
            ),
            (CasPass::Listing { sweep: _, blobs: _ }, CasEvent::Listed(Err(e))) => (
                CasPass::Over,
                CasAction::Done(Err(e)),
            ),
            (CasPass::Sweeping { sweep, blobs, objects, next }, CasEvent::Deleted(ok)) => {
                let mut sweep = sweep;
                if ok {
                    sweep.deleted();
                }
                CasPass::sweep_on(sweep, blobs, objects, next)
            },
            (CasPass::Probing { sweep }, CasEvent::Tier(probe)) => {
                let report = sweep.finish(probe, m);
                (CasPass::Over, CasAction::Done(Ok(report)))
            },
            _ => (CasPass::Over, CasAction::Done(Err("unexpected outcome".to_owned()))),
        }
    }

    /// Nothing is forgotten, listed or deleted before the walk is finished, and what is deleted
    /// is neither marked nor young. So an aborted walk changes nothing, and nothing that a
    /// chain of reads leads to from a root is ever deleted.
    pub proof fn only_garbage_is_deleted(self, ev: CasEvent, r: (CasPass, CasAction))
        requires
            self.wf(),
            r.0.wf(),
            self.stepped(ev, r),
        ensures
            r.1 is ForgetRoot || r.1 is ListObjects || r.1 is DeleteObject || r.1 is ProbeTier ==> !(r.0 is Walking) && !(
            r.0 is Over),
            r.1 matches CasAction::DeleteObject { key } ==> r.0 matches CasPass::Sweeping { sweep, blobs, objects, next }
                && sweep.wf() && !sweep.walk.marks().dom().contains(key@) && !retention::too_young(
                sweep.now,
                objects@[next - 1].1,
                sweep.grace_ms,
            ) && objects@[next - 1].0@ == key@,
            self is Walking && r.0 is Over ==> r.1 matches CasAction::Done(Err(_)),
    {
        match (self, ev) {
            (CasPass::Listing { sweep, blobs }, CasEvent::Listed(Ok(objects))) => {
                next_deletable_is_deletable(sweep, objects@, 0);
            },
            (CasPass::Sweeping { sweep, blobs, objects, next }, CasEvent::Deleted(ok)) => {
                let s = if ok {
                    CasSweep { swept: (sweep.swept + 1) as u32, ..sweep }
                } else {
                    sweep
                };
                next_deletable_is_deletable(s, objects@, next as int);
            },
            _ => {},
        }
    }
}

/// Begin a pass of the leading replica from the roots the database reports reachable.
pub fn sweep_cas(roots: Vec<(String, i64)>, now: i64, cfg: GcConfig) -> (r: (CasPass, CasAction))
    ensures
        r.0.wf(),
        exists|walk: MarkWalk|
            walk.wf() && walk.begins(roots) && #[trigger] CasPass::walked_on(walk, now, cfg, r),
{
    let walk = MarkWalk::new(roots);
    CasPass::walk_on(walk, now, cfg)
}

/// The keys of the objects that no root leads to and that are no younger than the grace window, in
/// the order of the listing.
pub open spec fn garbage(walk: MarkWalk, now: i64, grace_ms: i64, objects: Seq<(String, i64)>) -> Seq<Seq<char>>
    decreases objects.len(),
{
    if objects.len() == 0 {
        Seq::empty()
    } else {
        let before = garbage(walk, now, grace_ms, objects.drop_last());
        let (key, at) = objects.last();
        if !mark::reachable(walk.reads@, walk.roots@, key@) && now - at >= grace_ms {
            before.push(key@)
        } else {
            before
        }
    }
}

/// The keys of the objects that some root leads to, in the order of the listing.
pub open spec fn live(walk: MarkWalk, objects: Seq<(String, i64)>) -> Seq<Seq<char>>
    decreases objects.len(),
{
    if objects.len() == 0 {
        Seq::empty()
    } else {
        let before = live(walk, objects.drop_last());
        let key = objects.last().0@;
        if mark::reachable(walk.reads@, walk.roots@, key) {
            before.push(key)
        } else {
            before
        }
    }
}

/// The keys that were handed out for deletion, in that order.
pub open spec fn handed_out(actions: Seq<CasAction>) -> Seq<Seq<char>>
    decreases actions.len(),
{
    if actions.len() == 0 {
        Seq::empty()
    } else {
        match actions.last() {
            CasAction::DeleteObject { key } => handed_out(actions.drop_last()).push(key@),
            _ => handed_out(actions.drop_last()),
        }
    }
}

/// How many deletions succeeded.
pub open spec fn succeeded(evs: Seq<CasEvent>) -> nat
    decreases evs.len(),
{
    if evs.len() == 0 {
        0
    } else {
        succeeded(evs.drop_last()) + (if evs.last() matches CasEvent::Deleted(true) {
            1nat
        } else {
            0
        })
    }
}

/// Each state comes of the one before it by the outcome between them, with the action that goes with
/// it.
pub open spec fn runs(states: Seq<CasPass>, evs: Seq<CasEvent>, actions: Seq<CasAction>) -> bool {
    &&& states.len() == evs.len() + 1
    &&& actions.len() == evs.len()
    &&& forall|i: int| 0 <= i < evs.len() ==> #[trigger] states[i].stepped(evs[i], (states[i + 1], actions[i]))
}

proof fn garbage_up_to(sweep: CasSweep, objects: Seq<(String, i64)>, from: int)
    requires
        sweep.wf(),
        0 <= from <= objects.len(),
    ensures
        ({
            let due = |n: int| garbage(sweep.walk, sweep.now, sweep.grace_ms, objects.take(n));
            let held = |n: int| live(sweep.walk, objects.take(n));
            match next_deletable(sweep, objects, from) {
                Some(k) => from <= k < objects.len() && due(k + 1) == due(from).push(objects[k].0@) && held(k + 1) == held(
                    from,
                ) + marked_keys(sweep, objects, from, k),
                None => due(objects.len() as int) == due(from) && held(objects.len() as int) == held(from) + marked_keys(
                    sweep,
                    objects,
                    from,
                    objects.len() as int,
                ),
            }
        }),
    decreases objects.len() - from,
{
    let held = live(sweep.walk, objects.take(from));
    if from < objects.len() {
        let next = objects.take(from + 1);
        assert(next.drop_last() =~= objects.take(from));
        assert(next.last() == objects[from]);
        sweep.walk.marks_are_what_is_reachable(objects[from].0@);
        if deletable(sweep, objects[from]) {
            assert(held + marked_keys(sweep, objects, from, from) =~= held);
        } else {
            garbage_up_to(sweep, objects, from + 1);
            let to = match next_deletable(sweep, objects, from) {
                Some(k) => k,
                None => objects.len() as int,
            };
            marked_keys_from(sweep, objects, from, to);
            assert(live(sweep.walk, next) + marked_keys(sweep, objects, from + 1, to) =~= held + marked_keys(
                sweep,
                objects,
                from,
                to,
            ));
        }
    } else {
        assert(held + marked_keys(sweep, objects, from, from) =~= held);
    }
}

proof fn marked_keys_from(sweep: CasSweep, objects: Seq<(String, i64)>, from: int, to: int)
    requires
        0 <= from < to <= objects.len(),
    ensures
        marked_keys(sweep, objects, from, to) == (if sweep.walk.marks().dom().contains(objects[from].0@) {
            seq![objects[from].0@]
        } else {
            Seq::<Seq<char>>::empty()
        }) + marked_keys(sweep, objects, from + 1, to),
    decreases to - from,
{
    reveal_with_fuel(marked_keys, 2);
    let first = if sweep.walk.marks().dom().contains(objects[from].0@) {
        seq![objects[from].0@]
    } else {
        Seq::<Seq<char>>::empty()
    };
    if to == from + 1 {
        assert(marked_keys(sweep, objects, from, to) =~= first + marked_keys(sweep, objects, from + 1, to));
    } else {
        marked_keys_from(sweep, objects, from, to - 1);
        assert(marked_keys(sweep, objects, from, to) =~= first + marked_keys(sweep, objects, from + 1, to));
    }
}

/// The sweep that a listing was begun with, as far as it got: the objects before `n` are dealt with.
spec fn swept_to(before: CasSweep, after: CasSweep, objects: Seq<(String, i64)>, n: int, actions: Seq<CasAction>, done: nat) -> bool {
    &&& after.walk == before.walk
    &&& after.now == before.now
    &&& after.grace_ms == before.grace_ms
    &&& after.swept == before.swept + done
    &&& handed_out(actions) == garbage(before.walk, before.now, before.grace_ms, objects.take(n))
    &&& text::views(after.in_cold@) == text::views(before.in_cold@) + live(before.walk, objects.take(n))
}

proof fn same_sweep_same_objects(a: CasSweep, b: CasSweep, objects: Seq<(String, i64)>, from: int, to: int)
    requires
        a.walk == b.walk,
        a.now == b.now,
        a.grace_ms == b.grace_ms,
    ensures
        next_deletable(a, objects, from) == next_deletable(b, objects, from),
        marked_keys(a, objects, from, to) == marked_keys(b, objects, from, to),
    decreases objects.len() - from, to - from,
{
    if 0 <= from < objects.len() && !deletable(a, objects[from]) {
        same_sweep_same_objects(a, b, objects, from + 1, to);
    }
    same_marks_same_keys(a, b, objects, from, to);
}

proof fn same_marks_same_keys(a: CasSweep, b: CasSweep, objects: Seq<(String, i64)>, from: int, to: int)
    requires
        a.walk == b.walk,
    ensures
        marked_keys(a, objects, from, to) == marked_keys(b, objects, from, to),
    decreases to - from,
{
    if from < to {
        same_marks_same_keys(a, b, objects, from, to - 1);
    }
}

/// One turn of the sweep deals with the objects up to the next that is deleted.
proof fn sweeping_on(
    start: CasSweep,
    at: CasSweep,
    blobs: bool,
    objects: Seq<(String, i64)>,
    from: int,
    actions: Seq<CasAction>,
    done: nat,
    r: (CasPass, CasAction),
)
    requires
        start.wf(),
        0 <= from <= objects.len(),
        swept_to(start, at, objects, from, actions, done),
        CasPass::swept_on(at, blobs, objects, from, r),
    ensures
        match r.0 {
            CasPass::Sweeping { sweep, blobs: b, objects: o, next } => b == blobs && o@ == objects && from < next
                <= objects.len() && swept_to(start, sweep, objects, next as int, actions.push(r.1), done),
            CasPass::Listing { sweep, blobs: b } => !blobs && b && swept_to(
                start,
                sweep,
                objects,
                objects.len() as int,
                actions.push(r.1),
                done,
            ) && (r.1 matches CasAction::ListObjects { prefix } && prefix@ == "blobs/"@),
            CasPass::Probing { sweep } => blobs && swept_to(
                start,
                sweep,
                objects,
                objects.len() as int,
                actions.push(r.1),
                done,
            ) && r.1 is ProbeTier,
            _ => false,
        },
{
    garbage_up_to(start, objects, from);
    let to = match next_deletable(start, objects, from) {
        Some(k) => k,
        None => objects.len() as int,
    };
    same_sweep_same_objects(start, at, objects, from, to);
    assert(actions.push(r.1).drop_last() =~= actions);
    let cold = text::views(start.in_cold@);
    let held = live(start.walk, objects.take(from));
    let more = marked_keys(start, objects, from, to);
    assert((cold + held) + more =~= cold + (held + more));
}

/// The sweep of a listing is complete: whatever was deleted before and whether it succeeded, when a
/// pass moves on from a listing it has handed out every object of it that no root leads to and that
/// is no younger than the grace window, each once, and nothing else. It has noted every object that
/// a root leads to as present, and counted every deletion that succeeded. Behind the trees come the
/// blobs, and behind the blobs the tier probe.
pub proof fn a_listing_is_swept_whole(
    states: Seq<CasPass>,
    evs: Seq<CasEvent>,
    actions: Seq<CasAction>,
    start: CasSweep,
    blobs: bool,
    objects: Vec<(String, i64)>,
)
    requires
        runs(states, evs, actions),
        evs.len() > 0,
        start.wf(),
        start.swept + evs.len() < u32::MAX,
        states[0] == (CasPass::Listing { sweep: start, blobs }),
        evs[0] == CasEvent::Listed(Ok(objects)),
        forall|i: int| 0 < i < evs.len() ==> (#[trigger] evs[i]) is Deleted && states[i] is Sweeping,
        !(states.last() is Sweeping),
    ensures
        handed_out(actions) == garbage(start.walk, start.now, start.grace_ms, objects@),
        match states.last() {
            CasPass::Listing { sweep, blobs: b } => !blobs && b && sweep.walk == start.walk && sweep.swept == start.swept
                + succeeded(evs) && text::views(sweep.in_cold@) == text::views(start.in_cold@) + live(start.walk, objects@)
                && (actions.last() matches CasAction::ListObjects { prefix } && prefix@ == "blobs/"@),
            CasPass::Probing { sweep } => blobs && sweep.walk == start.walk && sweep.swept == start.swept + succeeded(evs)
                && text::views(sweep.in_cold@) == text::views(start.in_cold@) + live(start.walk, objects@)
                && actions.last() is ProbeTier,
            _ => false,
        },
{
    sweeps_in_order(states, evs, actions, start, blobs, objects, evs.len() as int);
    assert(evs.take(evs.len() as int) =~= evs);
    assert(actions.take(evs.len() as int) =~= actions);
    assert(objects@.take(objects@.len() as int) =~= objects@);
}

proof fn sweeps_in_order(
    states: Seq<CasPass>,
    evs: Seq<CasEvent>,
    actions: Seq<CasAction>,
    start: CasSweep,
    blobs: bool,
    objects: Vec<(String, i64)>,
    n: int,
)
    requires
        runs(states, evs, actions),
        0 < n <= evs.len(),
        start.wf(),
        start.swept + evs.len() < u32::MAX,
        states[0] == (CasPass::Listing { sweep: start, blobs }),
        evs[0] == CasEvent::Listed(Ok(objects)),
        forall|i: int| 0 < i < evs.len() ==> (#[trigger] evs[i]) is Deleted && states[i] is Sweeping,
    ensures
        succeeded(evs.take(n)) <= n,
        match states[n] {
            CasPass::Sweeping { sweep, blobs: b, objects: o, next } => b == blobs && o@ == objects@ && 0 < next
                <= objects@.len() && swept_to(
                start,
                sweep,
                objects@,
                next as int,
                actions.take(n),
                succeeded(evs.take(n)),
            ),
            CasPass::Listing { sweep, blobs: b } => !blobs && b && swept_to(
                start,
                sweep,
                objects@,
                objects@.len() as int,
                actions.take(n),
                succeeded(evs.take(n)),
            ) && (actions[n - 1] matches CasAction::ListObjects { prefix } && prefix@ == "blobs/"@),
            CasPass::Probing { sweep } => blobs && swept_to(
                start,
                sweep,
                objects@,
                objects@.len() as int,
                actions.take(n),
                succeeded(evs.take(n)),
            ) && actions[n - 1] is ProbeTier,
            _ => false,
        },
    decreases n,
{
    reveal_with_fuel(succeeded, 2);
    let i = n - 1;
    assert(states[i].stepped(evs[i], (states[i + 1], actions[i])));
    assert(actions.take(n) =~= actions.take(i).push(actions[i]));
    assert(evs.take(n).drop_last() =~= evs.take(i));
    assert(evs.take(n).last() == evs[i]);
    if i == 0 {
        assert(evs.take(0) =~= Seq::<CasEvent>::empty());
        assert(objects@.take(0) =~= Seq::<(String, i64)>::empty());
        assert(actions.take(0) =~= Seq::<CasAction>::empty());
        assert(text::views(start.in_cold@) + live(start.walk, objects@.take(0)) =~= text::views(start.in_cold@));
        sweeping_on(start, start, blobs, objects@, 0, actions.take(0), 0, (states[n], actions[i]));
    } else {
        sweeps_in_order(states, evs, actions, start, blobs, objects, i);
        assert(evs[i] is Deleted && states[i] is Sweeping);
        if let CasPass::Sweeping { sweep, blobs: b, objects: o, next } = states[i] {
            let ok = evs[i]->Deleted_0;
            let at = if ok {
                CasSweep { swept: (sweep.swept + 1) as u32, ..sweep }
            } else {
                sweep
            };
            sweeping_on(
                start,
                at,
                blobs,
                objects@,
                next as int,
                actions.take(i),
                succeeded(evs.take(n)),
                (states[n], actions[i]),
            );
        }
    }
}

/// Every dangling root is forgotten, one after another, before the first listing; and a walk without
/// any goes straight to the listing of the trees.
pub proof fn dangling_roots_are_all_forgotten(sweep: CasSweep, done: usize, r: (CasPass, CasAction))
    requires
        done < sweep.walk.dangling_roots@.len(),
        (CasPass::Forgetting { sweep, done }).stepped(CasEvent::Forgot, r),
    ensures
        if done + 1 < sweep.walk.dangling_roots@.len() {
            &&& r.0 matches CasPass::Forgetting { sweep: s, done: d } && s == sweep && d == done + 1
            &&& r.1 matches CasAction::ForgetRoot { root } && root@ == sweep.walk.dangling_roots@[done + 1]@
        } else {
            &&& r.0 matches CasPass::Listing { sweep: s, blobs } && s == sweep && !blobs
            &&& r.1 matches CasAction::ListObjects { prefix } && prefix@ == "trees/"@
        },
{
    assert(sweep.walk.dangling_roots.len() <= usize::MAX);
}

/// A walk that has more to look at asks for a tree that is not marked yet; one that has not goes on
/// to its first dangling root, or else to the listing of the trees, with nothing swept yet.
pub proof fn a_finished_walk_is_followed_by_the_sweep(walk: MarkWalk, now: i64, cfg: GcConfig, r: (CasPass, CasAction))
    requires
        walk.wf(),
        walk.pending is None,
        r.0.wf(),
        CasPass::walked_on(walk, now, cfg, r),
    ensures
        match r.0 {
            CasPass::Walking { walk: w, now: n, cfg: c } => n == now && c == cfg && w.roots == walk.roots && w.reads
                == walk.reads && (r.1 matches CasAction::ReadTree { hash } && text::opt_view(w.pending) == Some(hash@)
                && !walk.marks().dom().contains("trees/"@ + hash@)),
            CasPass::Forgetting { sweep, done } => done == 0 && sweep.walk.finished() && sweep.walk.roots == walk.roots
                && sweep.walk.reads == walk.reads && sweep.now == now && sweep.grace_ms == cfg.grace_ms && sweep.swept == 0
                && sweep.in_cold@.len() == 0 && (r.1 matches CasAction::ForgetRoot { root } && root@
                == sweep.walk.dangling_roots@[0]@),
            CasPass::Listing { sweep, blobs } => !blobs && sweep.walk.finished() && sweep.walk.dangling_roots@.len() == 0
                && sweep.walk.roots == walk.roots && sweep.walk.reads == walk.reads && sweep.now == now && sweep.grace_ms
                == cfg.grace_ms && sweep.swept == 0 && sweep.in_cold@.len() == 0 && (r.1
                matches CasAction::ListObjects { prefix } && prefix@ == "trees/"@),
            _ => false,
        },
{
}

/// The walk that a pass holds.
pub open spec fn walk_of(pass: CasPass) -> Option<MarkWalk> {
    match pass {
        CasPass::Walking { walk, .. } => Some(walk),
        CasPass::Forgetting { sweep, .. } => Some(sweep.walk),
        CasPass::Listing { sweep, .. } => Some(sweep.walk),
        CasPass::Sweeping { sweep, .. } => Some(sweep.walk),
        CasPass::Probing { sweep } => Some(sweep.walk),
        CasPass::Over => None,
    }
}

/// A pass begins with nothing read, from exactly the roots it was given.
pub proof fn passes_begin_with_nothing_read(
    walk: MarkWalk,
    roots: Vec<(String, i64)>,
    now: i64,
    cfg: GcConfig,
    r: (CasPass, CasAction),
)
    requires
        walk.begins(roots),
        CasPass::walked_on(walk, now, cfg, r),
    ensures
        walk_of(r.0) matches Some(w) && w.roots == roots && w.reads@.dom() == Set::<Seq<char>>::empty(),
{
}

/// What a read answers is remembered whole, beside all that was read before: every entry of the tree
/// that was asked for, or that it is nowhere. The roots stay the same.
pub proof fn every_answer_is_remembered(
    walk: MarkWalk,
    now: i64,
    cfg: GcConfig,
    read: TreeRead,
    r: (CasPass, CasAction),
)
    requires
        walk.pending is Some,
        !(read is Failed),
        (CasPass::Walking { walk, now, cfg }).stepped(CasEvent::Tree(read), r),
    ensures
        walk_of(r.0) matches Some(w) && w.roots == walk.roots && w.reads@ == walk.reads@.insert(
            walk.pending->0@,
            match read {
                TreeRead::Entries(entries) => Some(entries@.map_values(|t: mark::TreeTarget| t@)),
                _ => None,
            },
        ),
{
    let w = choose|w: MarkWalk| w.wf() && #[trigger] walk.told(read, w) && CasPass::walked_on(w, now, cfg, r);
    assert(walk.told(read, w));
    if let TreeRead::Entries(entries) = read {
        assert(mark::target_views(entries@) =~= entries@.map_values(|t: mark::TreeTarget| t@));
    }
}

/// A pass reports how much it swept and, unless the depot says that it has no cold tier, exactly the
/// objects that a root leads to, that were not seen in a listing and that are not known to be
/// nowhere. Those first reached from a root younger than the grace window are kept apart.
pub proof fn a_pass_reports_what_cold_lacks(sweep: CasSweep, probe: TierProbe, r: (CasPass, CasAction), key: Seq<char>)
    requires
        sweep.wf(),
        (CasPass::Probing { sweep }).stepped(CasEvent::Tier(probe), r),
    ensures
        r.0 is Over,
        r.1 matches CasAction::Done(Ok(report)) && {
            let lacking = mark::reachable(sweep.walk.reads@, sweep.walk.roots@, key) && !text::views(sweep.in_cold@).contains(
                key,
            ) && !text::views(sweep.walk.walk_missing@).contains(key);
            let young = sweep.now - sweep.walk.roots@[sweep.walk.marks()[key]].1 < sweep.grace_ms;
            let warm_only = probe matches TierProbe::Answered(t) && t@ == "warm-only"@;
            &&& report.swept == sweep.swept
            &&& retention::names_key(report.residue@, key) <==> lacking && !young && !warm_only
            &&& retention::names_key(report.suppressed_residue@, key) <==> lacking && young && !warm_only
        },
{
    sweep.walk.marks_are_what_is_reachable(key);
    sweep.report_splits_the_residue();
    let old_roots = retention::names_key(sort::sorted(sweep.residue(false)), key);
    let young_roots = retention::names_key(sort::sorted(sweep.residue(true)), key);
    assert(!(old_roots && young_roots));
    if let CasAction::Done(Ok(report)) = r.1 {
        assert(!probe.warm_only() ==> retention::names_key(report.residue@, key) == old_roots);
        assert(!probe.warm_only() ==> retention::names_key(report.suppressed_residue@, key) == young_roots);
    }
}

/// A listing that fails ends the pass with its message; a tree that cannot be read does too, and the
/// message names it.
pub proof fn failures_end_the_pass(pass: CasPass, ev: CasEvent, r: (CasPass, CasAction))
    requires
        pass.stepped(ev, r),
    ensures
        match (pass, ev) {
            (CasPass::Listing { .. }, CasEvent::Listed(Err(e))) => r.0 is Over && r.1 == CasAction::Done(Err(e)),
            (CasPass::Walking { walk, .. }, CasEvent::Tree(TreeRead::Failed(e))) => r.0 is Over && (r.1
                matches CasAction::Done(Err(m)) && m@ == "mark walk of tree "@ + walk.pending->0@ + ": "@ + e@
                + " — aborting pass"@),
            _ => true,
        },
{
}

proof fn next_deletable_is_deletable(sweep: CasSweep, objects: Seq<(String, i64)>, from: int)
    ensures
        next_deletable(sweep, objects, from) matches Some(k) ==> 0 <= k < objects.len() && deletable(sweep, objects[k]),
    decreases objects.len() - from,
{
    if 0 <= from < objects.len() && !deletable(sweep, objects[from]) {
        next_deletable_is_deletable(sweep, objects, from + 1);
    }
}

} // verus!
