//! What a reader of a settled workspace finds, stated over the change set itself: what was written
//! stands where it was written, what was deleted is gone, directories are listed as the upper layer
//! has them, and everything else is what the parent snapshot held.

use crate::changeset::{self, ChangeSet, Directory, Written, WrittenKind};
use crate::left_view;
use crate::mark::TargetView;
use crate::merged::{self, Fact};
use crate::overlay::{self, DirView, EditView, EntryView, SlotView, StopView, Trees};
use crate::publish::{self, PlannedView};
use crate::settle::{self, DirMeta, FoldView, JobView, UpperFacts};
use crate::text;
use vstd::prelude::*;

verus! {

/// The way to `q` leads through `p`, or ends there.
pub open spec fn leads_through(p: Seq<Seq<char>>, q: Seq<Seq<char>>) -> bool {
    p.len() <= q.len() && q.take(p.len() as int) == p
}

/// The names of a path of the change set.
pub open spec fn names_at(path: Seq<u8>) -> Seq<Seq<char>> {
    changeset::path_names(path)->Ok_0
}

/// A change set was folded over the parent snapshot and published: `known` are the trees that were
/// read for it, `store` holds those and the trees that the plan wrote under `hashes`, of which the
/// last is the new root.
pub open spec fn published(
    known: Trees,
    store: Trees,
    root: Seq<char>,
    change: ChangeSet,
    metas: Seq<DirMeta>,
    jobs: Seq<JobView>,
    blobs: Seq<Seq<char>>,
    symlink_mode: u32,
    trees: Seq<Seq<PlannedView>>,
    hashes: Seq<Seq<char>>,
) -> bool {
    &&& known.submap_of(store)
    &&& change.directories@.len() == metas.len()
    &&& jobs.len() == blobs.len()
    &&& publish::children_first(trees)
    &&& trees.len() > 0
    &&& publish::holds_plan(store, trees, hashes)
    &&& settle::folded_change(known, root, change, metas, jobs, blobs, symlink_mode) matches Ok(f) && forall|
        path: Seq<Seq<char>>,
    | #[trigger]
        publish::planned_at(store, trees, trees.len() - 1, path) == merged::node_at(store, f.root, path)
}

/// The check passes exactly when every written path is a plain relative one at which the upper layer
/// still holds what the change set read there.
pub proof fn the_check_holds_every_path_to_the_upper_layer(written: Seq<Written>, facts: Seq<Result<UpperFacts, String>>)
    requires
        written.len() == facts.len(),
    ensures
        settle::jobs_of(written, facts) is Ok <==> forall|i: int|
            #![trigger written[i]]
            0 <= i < written.len() ==> changeset::path_names(written[i].path@) is Ok && (facts[i] matches Ok(f) && f.kind
                == Some(written[i].kind)),
        settle::jobs_of(written, facts) matches Ok(jobs) ==> jobs.len() == written.len() && forall|i: int|
            #![trigger jobs[i]]
            0 <= i < jobs.len() ==> jobs[i].names == names_at(written[i].path@) && jobs[i].kind == written[i].kind,
    decreases written.len(),
{
    if written.len() > 0 {
        let n = written.len() - 1;
        let w = written.drop_last();
        let f = facts.take(n);
        the_check_holds_every_path_to_the_upper_layer(w, f);
        assert(forall|i: int| 0 <= i < n ==> w[i] == written[i] && f[i] == facts[i]);
        if settle::jobs_of(w, f) is Ok {
            assert forall|i: int| #![trigger written[i]] 0 <= i < n implies changeset::path_names(written[i].path@) is Ok && (
            facts[i] matches Ok(x) && x.kind == Some(written[i].kind)) by {
                assert(w[i] == written[i]);
            }
        } else {
            let i = choose|i: int|
                #![trigger w[i]]
                0 <= i < n && !(changeset::path_names(w[i].path@) is Ok && (f[i] matches Ok(x) && x.kind == Some(w[i].kind)));
            assert(w[i] == written[i]);
        }
        assert(written[n] == written.last());
    }
}

proof fn one_name_down(p: Seq<Seq<char>>, q: Seq<Seq<char>>)
    requires
        p.len() > 0,
        q.len() > 0,
        p[0] == q[0],
    ensures
        leads_through(p.drop_first(), q.drop_first()) <==> leads_through(p, q),
        p.drop_first() == q.drop_first() <==> p == q,
{
    let x = p.drop_first();
    let y = q.drop_first();
    if leads_through(x, y) {
        assert(q.take(p.len() as int) =~= p) by {
            assert(forall|i: int| 0 < i < p.len() ==> y.take(x.len() as int)[i - 1] == q[i]);
        }
    }
    if leads_through(p, q) {
        assert(y.take(x.len() as int) =~= x) by {
            assert(forall|i: int| 0 < i < p.len() ==> q.take(p.len() as int)[i] == #[trigger] p[i]);
        }
    }
    if x == y {
        assert(p =~= q) by {
            assert(forall|i: int| 0 < i < p.len() ==> x[i - 1] == p[i] && y[i - 1] == q[i]);
        }
    }
}

/// What is placed at a path stays there through an edit of another: unless that replaces a directory
/// on the way by a file, or goes on below the path.
proof fn placed_entries_stay(
    known: Trees,
    root: Seq<char>,
    d: DirView,
    at: Seq<Seq<char>>,
    e: EntryView,
    names: Seq<Seq<char>>,
    edit: EditView,
)
    requires
        at.len() > 0,
        names.len() > 0,
        merged::slot_at(d, at) == Some(SlotView::Entry(e)),
        overlay::edited(known, root, d, names, edit) is Ok,
        (edit is Put && !leads_through(at, names) && !leads_through(names, at)) || (edit is Remove && !(leads_through(at, names)
            && at != names)),
    ensures
        merged::slot_at(overlay::edited(known, root, d, names, edit)->Ok_0.dir, at) == Some(SlotView::Entry(e)),
    decreases names.len(),
{
    let x = overlay::edited(known, root, d, names, edit)->Ok_0;
    if at[0] == names[0] {
        one_name_down(at, names);
        one_name_down(names, at);
    }
    if names.len() == 1 {
        if let EditView::Put(y) = edit {
            if at[0] == names[0] {
                assert(at.take(1) =~= names);
            }
            overlay::with_slot_replaces_one_name(d, names[0], SlotView::Entry(y), at[0]);
        } else {
            assert(overlay::slot(x.dir, at[0]) == overlay::slot(d, at[0]));
        }
    } else {
        let (child, reads) = overlay::entered(known, d, names[0])->Ok_0;
        let rest = names.drop_first();
        let inner = overlay::edited(known, root, child, rest, edit)->Ok_0;
        overlay::with_slot_replaces_one_name(d, names[0], SlotView::Dir(Box::new(inner.dir)), at[0]);
        if at[0] == names[0] {
            if at.len() == 1 {
                assert(names.take(1) =~= at);
            } else {
                placed_entries_stay(known, root, child, at.drop_first(), e, rest, edit);
            }
        }
    }
}

/// An entry that is put at a path stands in its slot.
proof fn put_fills_the_slot(known: Trees, root: Seq<char>, d: DirView, names: Seq<Seq<char>>, e: EntryView)
    requires
        names.len() > 0,
        overlay::edited(known, root, d, names, EditView::Put(e)) is Ok,
    ensures
        merged::slot_at(overlay::edited(known, root, d, names, EditView::Put(e))->Ok_0.dir, names) == Some(
            SlotView::Entry(e),
        ),
    decreases names.len(),
{
    if names.len() == 1 {
        overlay::with_slot_replaces_one_name(d, names[0], SlotView::Entry(e), names[0]);
    } else {
        let (child, reads) = overlay::entered(known, d, names[0])->Ok_0;
        put_fills_the_slot(known, root, child, names.drop_first(), e);
        let inner = overlay::edited(known, root, child, names.drop_first(), EditView::Put(e))->Ok_0;
        overlay::with_slot_replaces_one_name(d, names[0], SlotView::Dir(Box::new(inner.dir)), names[0]);
    }
}

/// A filled slot is what a reader finds.
proof fn filled_slots_are_shown(known: Trees, d: DirView, at: Seq<Seq<char>>, e: EntryView)
    requires
        at.len() > 0,
        merged::slot_at(d, at) == Some(SlotView::Entry(e)),
    ensures
        merged::node_at(known, d, at) == Some(merged::entry_fact(e)),
    decreases at.len(),
{
    if at.len() > 1 {
        filled_slots_are_shown(known, *(overlay::slot(d, at[0])->0->Dir_0), at.drop_first(), e);
    }
}

proof fn writes_fill_their_slot(
    known: Trees,
    root: Seq<char>,
    f: FoldView,
    jobs: Seq<JobView>,
    blobs: Seq<Seq<char>>,
    symlink_mode: u32,
    i: int,
)
    requires
        settle::folded_written(known, root, f, jobs, blobs, symlink_mode) is Ok,
        0 <= i < jobs.len(),
        settle::named_jobs(jobs),
        forall|j: int|
            #![trigger jobs[j]]
            i < j < jobs.len() ==> !leads_through(jobs[i].names, jobs[j].names) && !leads_through(
                jobs[j].names,
                jobs[i].names,
            ),
    ensures
        merged::slot_at(settle::folded_written(known, root, f, jobs, blobs, symlink_mode)->Ok_0.root, jobs[i].names)
            == Some(SlotView::Entry(settle::job_entry(jobs[i], blobs[i], symlink_mode))),
    decreases jobs.len(),
{
    let rest = jobs.drop_last();
    let g = settle::folded_written(known, root, f, rest, blobs, symlink_mode)->Ok_0;
    let last = jobs.last();
    let n = jobs.len() - 1;
    assert(jobs[n] == last);
    let e = settle::job_entry(last, blobs[n], symlink_mode);
    if i == n {
        put_fills_the_slot(known, root, g.root, last.names, e);
    } else {
        assert(rest[i] == jobs[i]);
        assert forall|j: int| 0 <= j < rest.len() implies (#[trigger] rest[j]).names.len() > 0 by {
            assert(jobs[j].names.len() > 0);
        }
        assert forall|j: int| #![trigger rest[j]] i < j < rest.len() implies !leads_through(rest[i].names, rest[j].names)
            && !leads_through(rest[j].names, rest[i].names) by {
            assert(jobs[j] == rest[j]);
        }
        writes_fill_their_slot(known, root, f, rest, blobs, symlink_mode, i);
        placed_entries_stay(
            known,
            root,
            g.root,
            jobs[i].names,
            settle::job_entry(jobs[i], blobs[i], symlink_mode),
            last.names,
            EditView::Put(e),
        );
    }
}

proof fn whiteouts_leave_what_was_written(
    known: Trees,
    root: Seq<char>,
    f: FoldView,
    deleted: Seq<Seq<u8>>,
    at: Seq<Seq<char>>,
    e: EntryView,
)
    requires
        settle::folded_deletions(known, root, f, deleted) is Ok,
        at.len() > 0,
        merged::slot_at(f.root, at) == Some(SlotView::Entry(e)),
        forall|j: int|
            #![trigger deleted[j]]
            0 <= j < deleted.len() ==> !(leads_through(at, names_at(deleted[j])) && at != names_at(deleted[j])),
    ensures
        merged::slot_at(settle::folded_deletions(known, root, f, deleted)->Ok_0.root, at) == Some(SlotView::Entry(e)),
    decreases deleted.len(),
{
    if deleted.len() > 0 {
        let rest = deleted.drop_last();
        let n = deleted.len() - 1;
        assert forall|j: int| #![trigger rest[j]] 0 <= j < rest.len() implies !(leads_through(at, names_at(rest[j])) && at
            != names_at(rest[j])) by {
            assert(deleted[j] == rest[j]);
        }
        whiteouts_leave_what_was_written(known, root, f, rest, at, e);
        let g = settle::folded_deletions(known, root, f, rest)->Ok_0;
        assert(deleted[n] == deleted.last());
        changeset::accepted_paths_stay_inside(deleted.last());
        placed_entries_stay(known, root, g.root, at, e, names_at(deleted.last()), EditView::Remove);
    }
}

/// What a step wrote stands where it wrote it, however deep: at the path of a written symlink a
/// reader of the new root finds the stored blob with the symlink mode and no mtime, at the path of a
/// written file the stored blob with the permission bits and the mtime that the upper layer holds.
/// Left out are only paths that a later write replaces, or below which something was written or
/// deleted, so that a directory stands there now.
pub proof fn written_paths_show_what_was_written(
    known: Trees,
    store: Trees,
    root: Seq<char>,
    change: ChangeSet,
    metas: Seq<DirMeta>,
    facts: Seq<Result<UpperFacts, String>>,
    jobs: Seq<JobView>,
    blobs: Seq<Seq<char>>,
    symlink_mode: u32,
    trees: Seq<Seq<PlannedView>>,
    hashes: Seq<Seq<char>>,
    i: int,
)
    requires
        published(known, store, root, change, metas, jobs, blobs, symlink_mode, trees, hashes),
        change.written@.len() == facts.len(),
        settle::jobs_of(change.written@, facts) == Ok::<Seq<JobView>, StopView>(jobs),
        0 <= i < change.written@.len(),
        forall|j: int|
            #![trigger change.written@[j]]
            i < j < change.written@.len() ==> !leads_through(
                names_at(change.written@[i].path@),
                names_at(change.written@[j].path@),
            ) && !leads_through(names_at(change.written@[j].path@), names_at(change.written@[i].path@)),
        forall|j: int|
            #![trigger change.deleted@[j]]
            0 <= j < change.deleted@.len() ==> !(leads_through(
                names_at(change.written@[i].path@),
                names_at(change.deleted@[j]@),
            ) && names_at(change.written@[i].path@) != names_at(change.deleted@[j]@)),
    ensures
        facts[i] is Ok,
        merged::stored_at(store, hashes.last(), names_at(change.written@[i].path@)) == Some(
            Fact::Leaf {
                blob: blobs[i],
                mode: match change.written@[i].kind {
                    WrittenKind::Symlink => Some(symlink_mode),
                    WrittenKind::File => Some(facts[i]->Ok_0.mode & 0o7777),
                },
                mtime_ms: match change.written@[i].kind {
                    WrittenKind::Symlink => None,
                    WrittenKind::File => facts[i]->Ok_0.mtime_ms,
                },
            },
        ),
{
    let at = names_at(change.written@[i].path@);
    let f = settle::folded_directories(known, root, change.directories@, metas)->Ok_0;
    let g = settle::folded_written(known, root, f, jobs, blobs, symlink_mode)->Ok_0;
    let d = settle::folded_change(known, root, change, metas, jobs, blobs, symlink_mode)->Ok_0.root;
    let deleted = text::byte_views(change.deleted@);
    the_check_holds_every_path_to_the_upper_layer(change.written@, facts);
    settle::checked_jobs_are_named(change.written@, facts);
    checked_jobs_carry_the_facts(change.written@, facts, i);
    assert(jobs[i].names == at);
    assert forall|j: int| #![trigger jobs[j]] i < j < jobs.len() implies !leads_through(jobs[i].names, jobs[j].names)
        && !leads_through(jobs[j].names, jobs[i].names) by {
        assert(jobs[j].names == names_at(change.written@[j].path@));
    }
    writes_fill_their_slot(known, root, f, jobs, blobs, symlink_mode, i);
    let e = settle::job_entry(jobs[i], blobs[i], symlink_mode);
    assert forall|j: int| #![trigger deleted[j]] 0 <= j < deleted.len() implies !(leads_through(at, names_at(deleted[j]))
        && at != names_at(deleted[j])) by {
        assert(deleted[j] == change.deleted@[j]@);
    }
    whiteouts_leave_what_was_written(known, root, g, deleted, at, e);
    filled_slots_are_shown(store, d, at, e);
    publish::published_root_shows_the_merged_view(store, trees, hashes, d, at);
}

proof fn checked_jobs_carry_the_facts(written: Seq<Written>, facts: Seq<Result<UpperFacts, String>>, i: int)
    requires
        written.len() == facts.len(),
        settle::jobs_of(written, facts) is Ok,
        0 <= i < written.len(),
    ensures
        settle::jobs_of(written, facts)->Ok_0.len() == written.len(),
        settle::job_of(written[i].path@, written[i].kind, settle::facts_view(facts[i])) == Ok::<JobView, StopView>(
            settle::jobs_of(written, facts)->Ok_0[i],
        ),
    decreases written.len(),
{
    let n = written.len() - 1;
    settle::checked_jobs_are_named(written, facts);
    if i < n {
        checked_jobs_carry_the_facts(written.drop_last(), facts.take(n), i);
    } else {
        settle::checked_jobs_are_named(written.drop_last(), facts.take(n));
    }
}

proof fn fresh_slots_are_empty(inherited: Seq<EntryView>, at: Seq<Seq<char>>)
    ensures
        merged::slot_at(overlay::fresh(inherited), at) is None,
{
    if at.len() > 0 {
        assert(overlay::slot(overlay::fresh(inherited), at[0]) is None);
    }
}

proof fn same_changes_same_slots(a: DirView, b: DirView, at: Seq<Seq<char>>)
    requires
        a.changed == b.changed,
    ensures
        merged::slot_at(a, at) == merged::slot_at(b, at),
{
    if at.len() > 0 {
        assert(overlay::slot(a, at[0]) == overlay::slot(b, at[0]));
    }
}

/// Where nothing changed at a path, an edit that does not lead there leaves it so.
proof fn empty_slots_stay(
    known: Trees,
    root: Seq<char>,
    d: DirView,
    at: Seq<Seq<char>>,
    names: Seq<Seq<char>>,
    edit: EditView,
)
    requires
        at.len() > 0,
        names.len() > 0,
        merged::slot_at(d, at) is None,
        overlay::edited(known, root, d, names, edit) is Ok,
        !leads_through(at, names),
    ensures
        merged::slot_at(overlay::edited(known, root, d, names, edit)->Ok_0.dir, at) is None,
    decreases names.len(),
{
    let x = overlay::edited(known, root, d, names, edit)->Ok_0;
    if at[0] == names[0] {
        one_name_down(at, names);
        if at.len() == 1 {
            assert(names.take(1) =~= at);
        }
    }
    if names.len() == 1 {
        match edit {
            EditView::Put(y) => {
                overlay::with_slot_replaces_one_name(d, names[0], SlotView::Entry(y), at[0]);
            },
            EditView::Remove => {
                assert(overlay::slot(x.dir, at[0]) == overlay::slot(d, at[0]));
            },
            EditView::Directory { path, redirect, opaque, meta } => {
                let b = overlay::base_of(known, root, d, names[0], path, redirect, opaque)->Ok_0;
                let entries = overlay::base_entries(known, b.0)->Ok_0.0;
                let child = overlay::rebased(d, names[0], entries, meta->Ok_0);
                overlay::with_slot_replaces_one_name(d, names[0], SlotView::Dir(Box::new(child)), at[0]);
                if at[0] == names[0] {
                    let rest = at.drop_first();
                    match overlay::slot(d, names[0]) {
                        Some(SlotView::Dir(c)) => {
                            same_changes_same_slots(child, *c, rest);
                        },
                        _ => {
                            fresh_slots_are_empty(entries, rest);
                            same_changes_same_slots(child, overlay::fresh(entries), rest);
                        },
                    }
                }
            },
        }
    } else {
        let (child, reads) = overlay::entered(known, d, names[0])->Ok_0;
        let rest = names.drop_first();
        let inner = overlay::edited(known, root, child, rest, edit)->Ok_0;
        overlay::with_slot_replaces_one_name(d, names[0], SlotView::Dir(Box::new(inner.dir)), at[0]);
        if at[0] == names[0] {
            match overlay::slot(d, names[0]) {
                Some(SlotView::Dir(c)) => {},
                _ => {
                    fresh_slots_are_empty(child.inherited, at.drop_first());
                },
            }
            empty_slots_stay(known, root, child, at.drop_first(), rest, edit);
        }
    }
}

/// The path was removed, and nothing stands in its place.
spec fn gone_at(d: DirView, at: Seq<Seq<char>>) -> bool
    decreases at.len(),
{
    if at.len() == 0 {
        false
    } else if at.len() == 1 {
        overlay::slot(d, at[0]) is None && d.removed.contains(at[0])
    } else {
        overlay::slot(d, at[0]) matches Some(SlotView::Dir(c)) && gone_at(*c, at.drop_first())
    }
}

proof fn removed_paths_are_gone(known: Trees, root: Seq<char>, d: DirView, at: Seq<Seq<char>>)
    requires
        at.len() > 0,
        merged::slot_at(d, at) is None,
        overlay::edited(known, root, d, at, EditView::Remove) is Ok,
    ensures
        gone_at(overlay::edited(known, root, d, at, EditView::Remove)->Ok_0.dir, at),
    decreases at.len(),
{
    let x = overlay::edited(known, root, d, at, EditView::Remove)->Ok_0;
    if at.len() == 1 {
        assert(x.dir.removed.last() == at[0]);
        assert(overlay::slot(x.dir, at[0]) == overlay::slot(d, at[0]));
    } else {
        let (child, reads) = overlay::entered(known, d, at[0])->Ok_0;
        let rest = at.drop_first();
        let inner = overlay::edited(known, root, child, rest, EditView::Remove)->Ok_0;
        overlay::with_slot_replaces_one_name(d, at[0], SlotView::Dir(Box::new(inner.dir)), at[0]);
        match overlay::slot(d, at[0]) {
            Some(SlotView::Dir(c)) => {},
            _ => {
                fresh_slots_are_empty(child.inherited, rest);
            },
        }
        removed_paths_are_gone(known, root, child, rest);
    }
}

proof fn gone_paths_stay_gone(known: Trees, root: Seq<char>, d: DirView, at: Seq<Seq<char>>, names: Seq<Seq<char>>)
    requires
        names.len() > 0,
        gone_at(d, at),
        overlay::edited(known, root, d, names, EditView::Remove) is Ok,
        !(leads_through(at, names) && at != names),
    ensures
        gone_at(overlay::edited(known, root, d, names, EditView::Remove)->Ok_0.dir, at),
    decreases names.len(),
{
    let x = overlay::edited(known, root, d, names, EditView::Remove)->Ok_0;
    if at[0] == names[0] {
        one_name_down(at, names);
        if at.len() == 1 {
            assert(names.take(1) =~= at);
        }
    }
    if names.len() == 1 {
        assert(overlay::slot(x.dir, at[0]) == overlay::slot(d, at[0]));
        if d.removed.contains(at[0]) {
            let i = choose|i: int| 0 <= i < d.removed.len() && d.removed[i] == at[0];
            assert(x.dir.removed[i] == at[0]);
        }
    } else {
        let (child, reads) = overlay::entered(known, d, names[0])->Ok_0;
        let rest = names.drop_first();
        let inner = overlay::edited(known, root, child, rest, EditView::Remove)->Ok_0;
        overlay::with_slot_replaces_one_name(d, names[0], SlotView::Dir(Box::new(inner.dir)), at[0]);
        if at[0] == names[0] && at.len() > 1 {
            gone_paths_stay_gone(known, root, child, at.drop_first(), rest);
        }
    }
}

proof fn gone_paths_show_nothing(known: Trees, d: DirView, at: Seq<Seq<char>>, below: Seq<Seq<char>>)
    requires
        gone_at(d, at),
    ensures
        merged::node_at(known, d, at + below) is None,
    decreases at.len(),
{
    let path = at + below;
    assert(path[0] == at[0]);
    if at.len() > 1 {
        assert(path.drop_first() =~= at.drop_first() + below);
        gone_paths_show_nothing(known, *(overlay::slot(d, at[0])->0->Dir_0), at.drop_first(), below);
    }
}

proof fn directories_elsewhere_leave_a_slot_empty(
    known: Trees,
    root: Seq<char>,
    dirs: Seq<Directory>,
    metas: Seq<DirMeta>,
    at: Seq<Seq<char>>,
)
    requires
        settle::folded_directories(known, root, dirs, metas) is Ok,
        at.len() > 0,
        forall|j: int| #![trigger dirs[j]] 0 <= j < dirs.len() ==> !leads_through(at, names_at(dirs[j].path@)),
    ensures
        merged::slot_at(settle::folded_directories(known, root, dirs, metas)->Ok_0.root, at) is None,
    decreases dirs.len(),
{
    if dirs.len() == 0 {
        fresh_slots_are_empty(known[root], at);
    } else {
        let rest = dirs.drop_last();
        let n = dirs.len() - 1;
        assert forall|j: int| #![trigger rest[j]] 0 <= j < rest.len() implies !leads_through(at, names_at(rest[j].path@)) by {
            assert(dirs[j] == rest[j]);
        }
        directories_elsewhere_leave_a_slot_empty(known, root, rest, metas.take(n), at);
        let f = settle::folded_directories(known, root, rest, metas.take(n))->Ok_0;
        assert(dirs[n] == dirs.last());
        changeset::accepted_paths_stay_inside(dirs.last().path@);
        empty_slots_stay(
            known,
            root,
            f.root,
            at,
            names_at(dirs.last().path@),
            settle::directory_edit(dirs.last(), metas[n]),
        );
    }
}

proof fn writes_elsewhere_leave_a_slot_empty(
    known: Trees,
    root: Seq<char>,
    f: FoldView,
    jobs: Seq<JobView>,
    blobs: Seq<Seq<char>>,
    symlink_mode: u32,
    at: Seq<Seq<char>>,
)
    requires
        settle::folded_written(known, root, f, jobs, blobs, symlink_mode) is Ok,
        settle::named_jobs(jobs),
        at.len() > 0,
        merged::slot_at(f.root, at) is None,
        forall|j: int| #![trigger jobs[j]] 0 <= j < jobs.len() ==> !leads_through(at, jobs[j].names),
    ensures
        merged::slot_at(settle::folded_written(known, root, f, jobs, blobs, symlink_mode)->Ok_0.root, at) is None,
    decreases jobs.len(),
{
    if jobs.len() > 0 {
        let rest = jobs.drop_last();
        let n = jobs.len() - 1;
        assert forall|j: int| #![trigger rest[j]] 0 <= j < rest.len() implies !leads_through(at, rest[j].names)
            && rest[j].names.len() > 0 by {
            assert(jobs[j] == rest[j]);
        }
        writes_elsewhere_leave_a_slot_empty(known, root, f, rest, blobs, symlink_mode, at);
        let g = settle::folded_written(known, root, f, rest, blobs, symlink_mode)->Ok_0;
        assert(jobs[n] == jobs.last());
        empty_slots_stay(
            known,
            root,
            g.root,
            at,
            jobs.last().names,
            EditView::Put(settle::job_entry(jobs.last(), blobs[n], symlink_mode)),
        );
    }
}

proof fn whiteouts_remove_their_path(known: Trees, root: Seq<char>, f: FoldView, deleted: Seq<Seq<u8>>, i: int)
    requires
        settle::folded_deletions(known, root, f, deleted) is Ok,
        0 <= i < deleted.len(),
        merged::slot_at(f.root, names_at(deleted[i])) is None,
        forall|j: int|
            #![trigger deleted[j]]
            0 <= j < deleted.len() ==> !(leads_through(names_at(deleted[i]), names_at(deleted[j])) && names_at(deleted[i])
                != names_at(deleted[j])),
    ensures
        gone_at(settle::folded_deletions(known, root, f, deleted)->Ok_0.root, names_at(deleted[i])),
    decreases deleted.len(),
{
    let at = names_at(deleted[i]);
    let rest = deleted.drop_last();
    let n = deleted.len() - 1;
    let g = settle::folded_deletions(known, root, f, rest)->Ok_0;
    assert(deleted[n] == deleted.last());
    assert(forall|j: int| 0 <= j < n ==> rest[j] == deleted[j]);
    changeset::accepted_paths_stay_inside(deleted.last());
    if i < n {
        assert forall|j: int| #![trigger rest[j]] 0 <= j < rest.len() implies !(leads_through(
            names_at(rest[i]),
            names_at(rest[j]),
        ) && names_at(rest[i]) != names_at(rest[j])) by {
            assert(deleted[j] == rest[j]);
        }
        whiteouts_remove_their_path(known, root, f, rest, i);
        gone_paths_stay_gone(known, root, g.root, at, names_at(deleted.last()));
    } else if exists|j: int| 0 <= j < n && names_at(#[trigger] rest[j]) == at {
        let j = choose|j: int| 0 <= j < n && names_at(#[trigger] rest[j]) == at;
        assert(rest[j] == deleted[j]);
        assert forall|k: int| #![trigger rest[k]] 0 <= k < rest.len() implies !(leads_through(
            names_at(rest[j]),
            names_at(rest[k]),
        ) && names_at(rest[j]) != names_at(rest[k])) by {
            assert(deleted[k] == rest[k]);
        }
        whiteouts_remove_their_path(known, root, f, rest, j);
        gone_paths_stay_gone(known, root, g.root, at, at);
    } else {
        assert forall|j: int| #![trigger rest[j]] 0 <= j < rest.len() implies !leads_through(at, names_at(rest[j])) by {
            assert(deleted[j] == rest[j]);
        }
        whiteouts_elsewhere_leave_a_slot_empty(known, root, f, rest, at);
        removed_paths_are_gone(known, root, g.root, at);
    }
}

proof fn whiteouts_elsewhere_leave_a_slot_empty(
    known: Trees,
    root: Seq<char>,
    f: FoldView,
    deleted: Seq<Seq<u8>>,
    at: Seq<Seq<char>>,
)
    requires
        settle::folded_deletions(known, root, f, deleted) is Ok,
        at.len() > 0,
        merged::slot_at(f.root, at) is None,
        forall|j: int| #![trigger deleted[j]] 0 <= j < deleted.len() ==> !leads_through(at, names_at(deleted[j])),
    ensures
        merged::slot_at(settle::folded_deletions(known, root, f, deleted)->Ok_0.root, at) is None,
    decreases deleted.len(),
{
    if deleted.len() > 0 {
        let rest = deleted.drop_last();
        let n = deleted.len() - 1;
        assert forall|j: int| #![trigger rest[j]] 0 <= j < rest.len() implies !leads_through(at, names_at(rest[j])) by {
            assert(deleted[j] == rest[j]);
        }
        whiteouts_elsewhere_leave_a_slot_empty(known, root, f, rest, at);
        let g = settle::folded_deletions(known, root, f, rest)->Ok_0;
        assert(deleted[n] == deleted.last());
        changeset::accepted_paths_stay_inside(deleted.last());
        empty_slots_stay(known, root, g.root, at, names_at(deleted.last()), EditView::Remove);
    }
}

/// What a step deleted is gone, with everything below it: unless something was written, made or
/// deleted at the path or further down.
pub proof fn deleted_paths_show_nothing(
    known: Trees,
    store: Trees,
    root: Seq<char>,
    change: ChangeSet,
    metas: Seq<DirMeta>,
    facts: Seq<Result<UpperFacts, String>>,
    jobs: Seq<JobView>,
    blobs: Seq<Seq<char>>,
    symlink_mode: u32,
    trees: Seq<Seq<PlannedView>>,
    hashes: Seq<Seq<char>>,
    i: int,
    below: Seq<Seq<char>>,
)
    requires
        published(known, store, root, change, metas, jobs, blobs, symlink_mode, trees, hashes),
        change.written@.len() == facts.len(),
        settle::jobs_of(change.written@, facts) == Ok::<Seq<JobView>, StopView>(jobs),
        0 <= i < change.deleted@.len(),
        forall|j: int|
            #![trigger change.directories@[j]]
            0 <= j < change.directories@.len() ==> !leads_through(
                names_at(change.deleted@[i]@),
                names_at(change.directories@[j].path@),
            ),
        forall|j: int|
            #![trigger change.written@[j]]
            0 <= j < change.written@.len() ==> !leads_through(
                names_at(change.deleted@[i]@),
                names_at(change.written@[j].path@),
            ),
        forall|j: int|
            #![trigger change.deleted@[j]]
            0 <= j < change.deleted@.len() ==> !(leads_through(
                names_at(change.deleted@[i]@),
                names_at(change.deleted@[j]@),
            ) && names_at(change.deleted@[i]@) != names_at(change.deleted@[j]@)),
    ensures
        merged::stored_at(store, hashes.last(), names_at(change.deleted@[i]@) + below) is None,
{
    let at = names_at(change.deleted@[i]@);
    let deleted = text::byte_views(change.deleted@);
    assert(forall|j: int| 0 <= j < deleted.len() ==> #[trigger] deleted[j] == change.deleted@[j]@);
    let f = settle::folded_directories(known, root, change.directories@, metas)->Ok_0;
    let g = settle::folded_written(known, root, f, jobs, blobs, symlink_mode)->Ok_0;
    let d = settle::folded_change(known, root, change, metas, jobs, blobs, symlink_mode)->Ok_0.root;
    whiteouts_are_accepted(known, root, g, deleted, i);
    changeset::accepted_paths_stay_inside(deleted[i]);
    directories_elsewhere_leave_a_slot_empty(known, root, change.directories@, metas, at);
    the_check_holds_every_path_to_the_upper_layer(change.written@, facts);
    settle::checked_jobs_are_named(change.written@, facts);
    assert forall|j: int| #![trigger jobs[j]] 0 <= j < jobs.len() implies !leads_through(at, jobs[j].names) by {
        assert(jobs[j].names == names_at(change.written@[j].path@));
    }
    writes_elsewhere_leave_a_slot_empty(known, root, f, jobs, blobs, symlink_mode, at);
    assert forall|j: int| #![trigger deleted[j]] 0 <= j < deleted.len() implies !(leads_through(
        names_at(deleted[i]),
        names_at(deleted[j]),
    ) && names_at(deleted[i]) != names_at(deleted[j])) by {
        assert(deleted[j] == change.deleted@[j]@);
    }
    whiteouts_remove_their_path(known, root, g, deleted, i);
    gone_paths_show_nothing(store, d, at, below);
    publish::published_root_shows_the_merged_view(store, trees, hashes, d, at + below);
}

proof fn whiteouts_are_accepted(known: Trees, root: Seq<char>, f: FoldView, deleted: Seq<Seq<u8>>, i: int)
    requires
        settle::folded_deletions(known, root, f, deleted) is Ok,
        0 <= i < deleted.len(),
    ensures
        changeset::path_names(deleted[i]) is Ok,
    decreases deleted.len(),
{
    if i < deleted.len() - 1 {
        whiteouts_are_accepted(known, root, f, deleted.drop_last(), i);
    }
}

/// A directory under construction stands at the path, with the mode and mtime.
spec fn dir_with_meta(d: DirView, at: Seq<Seq<char>>, m: (Option<u32>, Option<i64>)) -> bool {
    merged::slot_at(d, at) matches Some(SlotView::Dir(c)) && c.meta == Some(m)
}

proof fn edits_keep_the_meta(known: Trees, root: Seq<char>, d: DirView, names: Seq<Seq<char>>, edit: EditView)
    ensures
        overlay::edited(known, root, d, names, edit) matches Ok(x) ==> x.dir.meta == d.meta,
{
}

proof fn directories_keep_their_meta(
    known: Trees,
    root: Seq<char>,
    d: DirView,
    at: Seq<Seq<char>>,
    m: (Option<u32>, Option<i64>),
    names: Seq<Seq<char>>,
    edit: EditView,
)
    requires
        at.len() > 0,
        names.len() > 0,
        dir_with_meta(d, at, m),
        overlay::edited(known, root, d, names, edit) is Ok,
        edit is Put ==> !leads_through(names, at),
        edit is Directory ==> names != at,
    ensures
        dir_with_meta(overlay::edited(known, root, d, names, edit)->Ok_0.dir, at, m),
    decreases names.len(),
{
    let x = overlay::edited(known, root, d, names, edit)->Ok_0;
    if at[0] == names[0] {
        one_name_down(names, at);
        if names.len() == 1 {
            assert(at.take(1) =~= names);
            if at.len() == 1 {
                assert(at =~= names);
            }
        }
    }
    if names.len() == 1 {
        match edit {
            EditView::Put(y) => {
                overlay::with_slot_replaces_one_name(d, names[0], SlotView::Entry(y), at[0]);
            },
            EditView::Remove => {
                assert(overlay::slot(x.dir, at[0]) == overlay::slot(d, at[0]));
            },
            EditView::Directory { path, redirect, opaque, meta } => {
                let b = overlay::base_of(known, root, d, names[0], path, redirect, opaque)->Ok_0;
                let entries = overlay::base_entries(known, b.0)->Ok_0.0;
                let child = overlay::rebased(d, names[0], entries, meta->Ok_0);
                overlay::with_slot_replaces_one_name(d, names[0], SlotView::Dir(Box::new(child)), at[0]);
                if at[0] == names[0] {
                    let rest = at.drop_first();
                    let c = *(overlay::slot(d, at[0])->0->Dir_0);
                    same_changes_same_slots(child, c, rest);
                }
            },
        }
    } else {
        let (child, reads) = overlay::entered(known, d, names[0])->Ok_0;
        let rest = names.drop_first();
        let inner = overlay::edited(known, root, child, rest, edit)->Ok_0;
        overlay::with_slot_replaces_one_name(d, names[0], SlotView::Dir(Box::new(inner.dir)), at[0]);
        if at[0] == names[0] {
            if at.len() == 1 {
                edits_keep_the_meta(known, root, child, rest, edit);
            } else {
                directories_keep_their_meta(known, root, child, at.drop_first(), m, rest, edit);
            }
        }
    }
}

proof fn made_directories_have_their_meta(
    known: Trees,
    root: Seq<char>,
    d: DirView,
    at: Seq<Seq<char>>,
    path: Seq<u8>,
    redirect: Option<Seq<u8>>,
    opaque: bool,
    meta: (u32, Option<i64>),
)
    requires
        at.len() > 0,
        overlay::edited(known, root, d, at, EditView::Directory { path, redirect, opaque, meta: Ok(meta) }) is Ok,
    ensures
        dir_with_meta(
            overlay::edited(known, root, d, at, EditView::Directory { path, redirect, opaque, meta: Ok(meta) })->Ok_0.dir,
            at,
            (Some(meta.0 & 0o7777), meta.1),
        ),
    decreases at.len(),
{
    let edit = EditView::Directory { path, redirect, opaque, meta: Ok(meta) };
    if at.len() == 1 {
        let b = overlay::base_of(known, root, d, at[0], path, redirect, opaque)->Ok_0;
        let entries = overlay::base_entries(known, b.0)->Ok_0.0;
        let child = overlay::rebased(d, at[0], entries, meta);
        overlay::with_slot_replaces_one_name(d, at[0], SlotView::Dir(Box::new(child)), at[0]);
    } else {
        let (child, reads) = overlay::entered(known, d, at[0])->Ok_0;
        let inner = overlay::edited(known, root, child, at.drop_first(), edit)->Ok_0;
        overlay::with_slot_replaces_one_name(d, at[0], SlotView::Dir(Box::new(inner.dir)), at[0]);
        made_directories_have_their_meta(known, root, child, at.drop_first(), path, redirect, opaque, meta);
    }
}

proof fn the_pass_makes_every_directory(
    known: Trees,
    root: Seq<char>,
    dirs: Seq<Directory>,
    metas: Seq<DirMeta>,
    i: int,
)
    requires
        settle::folded_directories(known, root, dirs, metas) is Ok,
        dirs.len() == metas.len(),
        0 <= i < dirs.len(),
        forall|j: int| #![trigger dirs[j]] i < j < dirs.len() ==> names_at(dirs[j].path@) != names_at(dirs[i].path@),
    ensures
        changeset::path_names(dirs[i].path@) is Ok,
        metas[i] is Ok,
        dir_with_meta(
            settle::folded_directories(known, root, dirs, metas)->Ok_0.root,
            names_at(dirs[i].path@),
            (Some(metas[i]->Ok_0.0 & 0o7777), metas[i]->Ok_0.1),
        ),
    decreases dirs.len(),
{
    let rest = dirs.drop_last();
    let n = dirs.len() - 1;
    let last = dirs.last();
    let f = settle::folded_directories(known, root, rest, metas.take(n))->Ok_0;
    assert(dirs[n] == last);
    changeset::accepted_paths_stay_inside(last.path@);
    let edit = settle::directory_edit(last, metas[n]);
    if i == n {
        the_meta_was_read(known, root, f.root, names_at(last.path@), edit);
        made_directories_have_their_meta(
            known,
            root,
            f.root,
            names_at(last.path@),
            last.path@,
            overlay::opt_bytes(last.redirect),
            last.opaque,
            metas[n]->Ok_0,
        );
    } else {
        assert forall|j: int| #![trigger rest[j]] i < j < rest.len() implies names_at(rest[j].path@) != names_at(
            rest[i].path@,
        ) by {
            assert(dirs[j] == rest[j]);
        }
        the_pass_makes_every_directory(known, root, rest, metas.take(n), i);
        changeset::accepted_paths_stay_inside(dirs[i].path@);
        directories_keep_their_meta(
            known,
            root,
            f.root,
            names_at(dirs[i].path@),
            (Some(metas[i]->Ok_0.0 & 0o7777), metas[i]->Ok_0.1),
            names_at(last.path@),
            edit,
        );
    }
}

proof fn the_meta_was_read(known: Trees, root: Seq<char>, d: DirView, names: Seq<Seq<char>>, edit: EditView)
    requires
        overlay::edited(known, root, d, names, edit) is Ok,
        edit is Directory,
    ensures
        edit matches EditView::Directory { path, redirect, opaque, meta } && meta is Ok,
    decreases names.len(),
{
    if names.len() > 1 {
        the_meta_was_read(known, root, overlay::entered(known, d, names[0])->Ok_0.0, names.drop_first(), edit);
    }
}

proof fn writes_keep_directories(
    known: Trees,
    root: Seq<char>,
    f: FoldView,
    jobs: Seq<JobView>,
    blobs: Seq<Seq<char>>,
    symlink_mode: u32,
    at: Seq<Seq<char>>,
    m: (Option<u32>, Option<i64>),
)
    requires
        settle::folded_written(known, root, f, jobs, blobs, symlink_mode) is Ok,
        settle::named_jobs(jobs),
        at.len() > 0,
        dir_with_meta(f.root, at, m),
        forall|j: int| #![trigger jobs[j]] 0 <= j < jobs.len() ==> !leads_through(jobs[j].names, at),
    ensures
        dir_with_meta(settle::folded_written(known, root, f, jobs, blobs, symlink_mode)->Ok_0.root, at, m),
    decreases jobs.len(),
{
    if jobs.len() > 0 {
        let rest = jobs.drop_last();
        let n = jobs.len() - 1;
        assert forall|j: int| #![trigger rest[j]] 0 <= j < rest.len() implies !leads_through(rest[j].names, at)
            && rest[j].names.len() > 0 by {
            assert(jobs[j] == rest[j]);
        }
        writes_keep_directories(known, root, f, rest, blobs, symlink_mode, at, m);
        let g = settle::folded_written(known, root, f, rest, blobs, symlink_mode)->Ok_0;
        assert(jobs[n] == jobs.last());
        directories_keep_their_meta(
            known,
            root,
            g.root,
            at,
            m,
            jobs.last().names,
            EditView::Put(settle::job_entry(jobs.last(), blobs[n], symlink_mode)),
        );
    }
}

proof fn whiteouts_keep_directories(
    known: Trees,
    root: Seq<char>,
    f: FoldView,
    deleted: Seq<Seq<u8>>,
    at: Seq<Seq<char>>,
    m: (Option<u32>, Option<i64>),
)
    requires
        settle::folded_deletions(known, root, f, deleted) is Ok,
        at.len() > 0,
        dir_with_meta(f.root, at, m),
    ensures
        dir_with_meta(settle::folded_deletions(known, root, f, deleted)->Ok_0.root, at, m),
    decreases deleted.len(),
{
    if deleted.len() > 0 {
        let rest = deleted.drop_last();
        whiteouts_keep_directories(known, root, f, rest, at, m);
        let g = settle::folded_deletions(known, root, f, rest)->Ok_0;
        changeset::accepted_paths_stay_inside(deleted.last());
        directories_keep_their_meta(known, root, g.root, at, m, names_at(deleted.last()), EditView::Remove);
    }
}

proof fn directories_are_shown(known: Trees, d: DirView, at: Seq<Seq<char>>, m: (Option<u32>, Option<i64>))
    requires
        at.len() > 0,
        dir_with_meta(d, at, m),
    ensures
        merged::node_at(known, d, at) == Some(Fact::Dir { mode: m.0, mtime_ms: m.1 }),
    decreases at.len(),
{
    if at.len() > 1 {
        directories_are_shown(known, *(overlay::slot(d, at[0])->0->Dir_0), at.drop_first(), m);
    }
}

/// A directory that the upper layer holds is listed as a directory, with the permission bits and the
/// mtime that it has there. Left out are only one that the change set lists again and one that a
/// written path replaces or cuts off.
pub proof fn directories_are_listed_as_the_upper_layer_has_them(
    known: Trees,
    store: Trees,
    root: Seq<char>,
    change: ChangeSet,
    metas: Seq<DirMeta>,
    facts: Seq<Result<UpperFacts, String>>,
    jobs: Seq<JobView>,
    blobs: Seq<Seq<char>>,
    symlink_mode: u32,
    trees: Seq<Seq<PlannedView>>,
    hashes: Seq<Seq<char>>,
    i: int,
)
    requires
        published(known, store, root, change, metas, jobs, blobs, symlink_mode, trees, hashes),
        change.written@.len() == facts.len(),
        settle::jobs_of(change.written@, facts) == Ok::<Seq<JobView>, StopView>(jobs),
        0 <= i < change.directories@.len(),
        forall|j: int|
            #![trigger change.directories@[j]]
            i < j < change.directories@.len() ==> names_at(change.directories@[j].path@) != names_at(
                change.directories@[i].path@,
            ),
        forall|j: int|
            #![trigger change.written@[j]]
            0 <= j < change.written@.len() ==> !leads_through(
                names_at(change.written@[j].path@),
                names_at(change.directories@[i].path@),
            ),
    ensures
        metas[i] is Ok,
        merged::stored_at(store, hashes.last(), names_at(change.directories@[i].path@)) == Some(
            Fact::Dir { mode: Some(metas[i]->Ok_0.0 & 0o7777), mtime_ms: metas[i]->Ok_0.1 },
        ),
{
    let at = names_at(change.directories@[i].path@);
    let f = settle::folded_directories(known, root, change.directories@, metas)->Ok_0;
    let g = settle::folded_written(known, root, f, jobs, blobs, symlink_mode)->Ok_0;
    let d = settle::folded_change(known, root, change, metas, jobs, blobs, symlink_mode)->Ok_0.root;
    the_pass_makes_every_directory(known, root, change.directories@, metas, i);
    changeset::accepted_paths_stay_inside(change.directories@[i].path@);
    let m = (Some(metas[i]->Ok_0.0 & 0o7777), metas[i]->Ok_0.1);
    the_check_holds_every_path_to_the_upper_layer(change.written@, facts);
    settle::checked_jobs_are_named(change.written@, facts);
    assert forall|j: int| #![trigger jobs[j]] 0 <= j < jobs.len() implies !leads_through(jobs[j].names, at) by {
        assert(jobs[j].names == names_at(change.written@[j].path@));
    }
    writes_keep_directories(known, root, f, jobs, blobs, symlink_mode, at, m);
    whiteouts_keep_directories(known, root, g, text::byte_views(change.deleted@), at, m);
    directories_are_shown(store, d, at, m);
    publish::published_root_shows_the_merged_view(store, trees, hashes, d, at);
}

/// The change set lists a directory at the path.
pub open spec fn lists_directory(change: ChangeSet, q: Seq<Seq<char>>) -> bool {
    exists|i: int| 0 <= i < change.directories@.len() && names_at((#[trigger] change.directories@[i]).path@) == q
}

/// The change set has something to say at the path itself: a directory, a written path or a whiteout.
pub open spec fn touched(change: ChangeSet, q: Seq<Seq<char>>) -> bool {
    ||| lists_directory(change, q)
    ||| exists|i: int| 0 <= i < change.written@.len() && names_at((#[trigger] change.written@[i]).path@) == q
    ||| exists|i: int| 0 <= i < change.deleted@.len() && names_at((#[trigger] change.deleted@[i])@) == q
}

/// The directory that the change set lists at the path.
pub open spec fn directory_at(change: ChangeSet, q: Seq<Seq<char>>) -> Directory {
    change.directories@[choose|i: int|
        0 <= i < change.directories@.len() && names_at((#[trigger] change.directories@[i]).path@) == q]
}

/// Where the parent snapshot holds what a directory took over: at its recorded source where it was
/// renamed, nowhere where it is opaque, and else at its name in what the directory around it took
/// over.
pub open spec fn taken_from(change: ChangeSet, q: Seq<Seq<char>>) -> Option<Seq<Seq<char>>>
    decreases q.len(),
{
    if q.len() == 0 {
        Some(q)
    } else {
        let d = directory_at(change, q);
        match d.redirect {
            Some(from) => match changeset::path_names(from@) {
                Ok(names) => Some(names),
                Err(_) => None,
            },
            None => if d.opaque {
                None
            } else {
                match taken_from(change, q.drop_last()) {
                    Some(names) => Some(names.push(q.last())),
                    None => None,
                }
            },
        }
    }
}

proof fn walks_read_the_same(known: Trees, tree: Seq<char>, names: Seq<Seq<char>>, below: Seq<Seq<char>>)
    requires
        below.len() > 0,
    ensures
        merged::stored_at(known, tree, names + below) == (match overlay::walked(known, tree, names) {
            overlay::Walked::Found(h) => merged::stored_at(known, h, below),
            _ => None,
        }),
    decreases names.len(),
{
    let all = names + below;
    if names.len() == 0 {
        assert(all =~= below);
    } else {
        assert(all[0] == names[0]);
        assert(all.drop_first() =~= names.drop_first() + below);
        if known.dom().contains(tree) {
            match overlay::entry_named(known[tree], names[0]) {
                Some(e) => match e.target {
                    TargetView::Tree(sub) => {
                        walks_read_the_same(known, sub, names.drop_first(), below);
                    },
                    TargetView::Blob(_) => {},
                },
                None => {},
            }
        }
    }
}

spec fn read_from(known: Trees, tree: Option<Seq<char>>, path: Seq<Seq<char>>) -> Option<Fact> {
    match tree {
        Some(t) => merged::stored_at(known, t, path),
        None => None,
    }
}

spec fn read_parent(known: Trees, root: Seq<char>, names: Option<Seq<Seq<char>>>, below: Seq<Seq<char>>) -> Option<Fact> {
    match names {
        Some(n) => merged::stored_at(known, root, n + below),
        None => None,
    }
}

/// The listed changes say of a path what the change set says of it.
proof fn the_listing_is_the_change_set(
    change: ChangeSet,
    metas: Seq<DirMeta>,
    facts: Seq<Result<UpperFacts, String>>,
    jobs: Seq<JobView>,
    blobs: Seq<Seq<char>>,
    symlink_mode: u32,
    q: Seq<Seq<char>>,
)
    requires
        change.written@.len() == facts.len(),
        change.directories@.len() == metas.len(),
        settle::jobs_of(change.written@, facts) == Ok::<Seq<JobView>, StopView>(jobs),
        left_view::orderly(left_view::edits_of(change, metas, jobs, blobs, symlink_mode)),
    ensures
        left_view::changes(left_view::edits_of(change, metas, jobs, blobs, symlink_mode)).dom().contains(q) <==> touched(
            change,
            q,
        ),
        left_view::listed_dir(left_view::changes(left_view::edits_of(change, metas, jobs, blobs, symlink_mode)), q)
            <==> lists_directory(change, q),
        lists_directory(change, q) ==> (left_view::changes(
            left_view::edits_of(change, metas, jobs, blobs, symlink_mode),
        )[q] matches EditView::Directory { path, redirect, opaque, meta } && redirect == overlay::opt_bytes(
            directory_at(change, q).redirect,
        ) && opaque == directory_at(change, q).opaque),
{
    let edits = left_view::edits_of(change, metas, jobs, blobs, symlink_mode);
    let m = left_view::changes(edits);
    let dirs = change.directories@;
    let written = change.written@;
    let deleted = change.deleted@;
    let nd = dirs.len() as int;
    let nw = written.len() as int;
    left_view::changes_are_the_edits(edits);
    the_check_holds_every_path_to_the_upper_layer(written, facts);
    assert(edits.len() == nd + nw + deleted.len());
    assert forall|i: int| 0 <= i < nd implies edits[i].names == names_at((#[trigger] dirs[i]).path@) && edits[i].edit
        == settle::directory_edit(dirs[i], metas[i]) by {}
    assert forall|i: int| 0 <= i < nw implies edits[nd + i].names == names_at((#[trigger] written[i]).path@) && edits[nd
        + i].edit is Put by {
        assert(jobs[i].names == names_at(written[i].path@));
    }
    assert forall|i: int| 0 <= i < deleted.len() implies edits[nd + nw + i].names == names_at((#[trigger] deleted[i])@) && edits[nd
        + nw + i].edit is Remove by {
        assert(text::byte_views(deleted)[i] == deleted[i]@);
    }
    if m.dom().contains(q) {
        let k = choose|k: int| 0 <= k < edits.len() && (#[trigger] edits[k]).names == q;
        if k < nd {
            assert(names_at(dirs[k].path@) == q);
        } else if k < nd + nw {
            assert(names_at(written[k - nd].path@) == q);
        } else {
            assert(names_at(deleted[k - nd - nw]@) == q);
        }
    }
    if exists|i: int| 0 <= i < nw && names_at((#[trigger] written[i]).path@) == q {
        let i = choose|i: int| 0 <= i < nw && names_at((#[trigger] written[i]).path@) == q;
        assert(edits[nd + i].names == q);
    }
    if exists|i: int| 0 <= i < deleted.len() && names_at((#[trigger] deleted[i])@) == q {
        let i = choose|i: int| 0 <= i < deleted.len() && names_at((#[trigger] deleted[i])@) == q;
        assert(edits[nd + nw + i].names == q);
    }
    if lists_directory(change, q) {
        let i = choose|i: int| 0 <= i < dirs.len() && names_at((#[trigger] dirs[i]).path@) == q;
        assert(edits[i].names == q);
        assert(directory_at(change, q) == dirs[i]);
    }
}

proof fn directories_read_what_they_took_over(
    known: Trees,
    store: Trees,
    root: Seq<char>,
    change: ChangeSet,
    metas: Seq<DirMeta>,
    facts: Seq<Result<UpperFacts, String>>,
    jobs: Seq<JobView>,
    blobs: Seq<Seq<char>>,
    symlink_mode: u32,
    q: Seq<Seq<char>>,
    below: Seq<Seq<char>>,
)
    requires
        known.submap_of(store),
        settle::folded_change(known, root, change, metas, jobs, blobs, symlink_mode) is Ok,
        change.written@.len() == facts.len(),
        change.directories@.len() == metas.len(),
        settle::jobs_of(change.written@, facts) == Ok::<Seq<JobView>, StopView>(jobs),
        left_view::orderly(left_view::edits_of(change, metas, jobs, blobs, symlink_mode)),
        q.len() == 0 || lists_directory(change, q),
        below.len() > 0,
    ensures
        read_from(
            store,
            left_view::lower(
                store,
                root,
                left_view::changes(left_view::edits_of(change, metas, jobs, blobs, symlink_mode)),
                q,
            ),
            below,
        ) == read_parent(store, root, taken_from(change, q), below),
    decreases q.len(),
{
    let edits = left_view::edits_of(change, metas, jobs, blobs, symlink_mode);
    let m = left_view::changes(edits);
    if q.len() == 0 {
        assert(q + below =~= below);
    } else {
        the_listing_is_the_change_set(change, metas, facts, jobs, blobs, symlink_mode, q);
        let d = directory_at(change, q);
        match d.redirect {
            Some(from) => {
                if let Ok(names) = changeset::path_names(from@) {
                    walks_read_the_same(store, root, names, below);
                }
            },
            None => if !d.opaque {
                let above = q.drop_last();
                left_view::listed_ways(edits, q);
                if q.len() == 1 {
                    assert(above.len() == 0);
                } else {
                    the_listing_is_the_change_set(change, metas, facts, jobs, blobs, symlink_mode, above);
                }
                left_view::inherited_trees_are_known(
                    known,
                    store,
                    root,
                    change,
                    metas,
                    jobs,
                    blobs,
                    symlink_mode,
                    above,
                );
                let deeper = seq![q.last()] + below;
                directories_read_what_they_took_over(
                    known,
                    store,
                    root,
                    change,
                    metas,
                    facts,
                    jobs,
                    blobs,
                    symlink_mode,
                    above,
                    deeper,
                );
                assert(deeper[0] == q.last());
                assert(deeper.drop_first() =~= below);
                if let Some(names) = taken_from(change, above) {
                    assert(names + deeper =~= names.push(q.last()) + below);
                }
            },
        }
    }
}

/// Where the change set says nothing of a path, the reader finds what the directory around it took
/// over from the parent snapshot: below a renamed directory what the parent held below its source,
/// below an opaque one nothing, and else what the parent held at the same place. `q` is the nearest
/// directory around the path that the change set lists, or the root.
pub proof fn untouched_paths_show_what_was_taken_over(
    known: Trees,
    store: Trees,
    root: Seq<char>,
    change: ChangeSet,
    metas: Seq<DirMeta>,
    facts: Seq<Result<UpperFacts, String>>,
    jobs: Seq<JobView>,
    blobs: Seq<Seq<char>>,
    symlink_mode: u32,
    trees: Seq<Seq<PlannedView>>,
    hashes: Seq<Seq<char>>,
    q: Seq<Seq<char>>,
    below: Seq<Seq<char>>,
)
    requires
        published(known, store, root, change, metas, jobs, blobs, symlink_mode, trees, hashes),
        change.written@.len() == facts.len(),
        settle::jobs_of(change.written@, facts) == Ok::<Seq<JobView>, StopView>(jobs),
        left_view::orderly(left_view::edits_of(change, metas, jobs, blobs, symlink_mode)),
        q.len() == 0 || lists_directory(change, q),
        below.len() > 0,
        forall|k: int| 0 < k <= below.len() ==> !touched(change, q + #[trigger] below.take(k)),
    ensures
        merged::stored_at(store, hashes.last(), q + below) == (match taken_from(change, q) {
            Some(names) => merged::stored_at(store, root, names + below),
            None => None,
        }),
{
    let edits = left_view::edits_of(change, metas, jobs, blobs, symlink_mode);
    let m = left_view::changes(edits);
    let path = q + below;
    let n = q.len() as int;
    left_view::the_published_root_shows_the_described_view(
        known,
        store,
        root,
        change,
        metas,
        jobs,
        blobs,
        symlink_mode,
        trees,
        hashes,
        path,
    );
    the_listing_is_the_change_set(change, metas, facts, jobs, blobs, symlink_mode, path);
    assert(below.take(below.len() as int) =~= below);
    assert forall|k: int| n < k <= path.len() implies !m.dom().contains(#[trigger] path.take(k)) by {
        assert(path.take(k) =~= q + below.take(k - n));
        the_listing_is_the_change_set(change, metas, facts, jobs, blobs, symlink_mode, path.take(k));
    }
    assert(path.take(n) =~= q);
    assert(path.skip(n) =~= below);
    the_listing_is_the_change_set(change, metas, facts, jobs, blobs, symlink_mode, q);
    nearest_is_the_directory(m, path, n, path.len() - 1);
    directories_read_what_they_took_over(known, store, root, change, metas, facts, jobs, blobs, symlink_mode, q, below);
}

proof fn nearest_is_the_directory(m: Map<Seq<Seq<char>>, EditView>, path: Seq<Seq<char>>, n: int, k: int)
    requires
        0 <= n <= k < path.len(),
        n == 0 || m.dom().contains(path.take(n)),
        forall|j: int| n < j <= path.len() ==> !m.dom().contains(#[trigger] path.take(j)),
    ensures
        left_view::nearest(m, path, k) == n,
    decreases k,
{
    if k > n {
        nearest_is_the_directory(m, path, n, k - 1);
    }
}

/// What stopped an edit is really so: a tree that is to be read is not known yet, a path that is
/// no plain relative path is none, and what is said of a directory was said of that directory.
spec fn stopped_by(known: Trees, root: Seq<char>, edit: EditView, s: StopView) -> bool {
    match s {
        StopView::NeedTree(h) => !known.dom().contains(h),
        StopView::UnsafePath { path, problem } => changeset::path_names(path) == Err::<Seq<Seq<char>>, changeset::PathProblem>(
            problem,
        ),
        StopView::Io { path, message } => edit matches EditView::Directory { path: p, meta, .. } && p == path && meta
            == Err::<(u32, Option<i64>), Seq<char>>(message),
        StopView::GraftSource { from, to, graft } => {
            &&& edit matches EditView::Directory { path: p, redirect, .. }
            &&& p == to
            &&& redirect == Some(from)
            &&& changeset::path_names(from) is Ok
            &&& overlay::walked(known, root, changeset::path_names(from)->Ok_0) == overlay::Walked::Problem(graft)
        },
    }
}

proof fn needed_trees_are_unknown(known: Trees, tree: Seq<char>, names: Seq<Seq<char>>)
    ensures
        overlay::walked(known, tree, names) matches overlay::Walked::Need(h) ==> !known.dom().contains(h),
    decreases names.len(),
{
    if names.len() > 0 && known.dom().contains(tree) {
        if let Some(e) = overlay::entry_named(known[tree], names[0]) {
            if let TargetView::Tree(sub) = e.target {
                needed_trees_are_unknown(known, sub, names.drop_first());
            }
        }
    }
}

proof fn edits_stop_for_a_reason(known: Trees, root: Seq<char>, d: DirView, names: Seq<Seq<char>>, edit: EditView)
    ensures
        overlay::edited(known, root, d, names, edit) matches Err(s) ==> stopped_by(known, root, edit, s),
    decreases names.len(),
{
    if names.len() <= 1 {
        if let EditView::Directory { path, redirect, opaque, meta } = edit {
            if let Some(from) = redirect {
                if let Ok(way) = changeset::path_names(from) {
                    needed_trees_are_unknown(known, root, way);
                }
            }
        }
    } else if let Ok((child, reads)) = overlay::entered(known, d, names[0]) {
        edits_stop_for_a_reason(known, root, child, names.drop_first(), edit);
    }
}

/// Something that the change set lists stands in the way.
pub open spec fn in_the_way(
    known: Trees,
    root: Seq<char>,
    dirs: Seq<Directory>,
    metas: Seq<DirMeta>,
    s: StopView,
) -> bool {
    match s {
        StopView::NeedTree(h) => !known.dom().contains(h),
        StopView::UnsafePath { path, problem } => changeset::path_names(path) == Err::<Seq<Seq<char>>, changeset::PathProblem>(
            problem,
        ),
        StopView::Io { path, message } => exists|i: int|
            0 <= i < dirs.len() && (#[trigger] dirs[i]).path@ == path && metas[i] is Err && metas[i]->Err_0@ == message,
        StopView::GraftSource { from, to, graft } => exists|i: int|
            0 <= i < dirs.len() && (#[trigger] dirs[i]).path@ == to && dirs[i].redirect is Some && dirs[i].redirect->0@
                == from && changeset::path_names(from) is Ok && overlay::walked(
                known,
                root,
                changeset::path_names(from)->Ok_0,
            ) == overlay::Walked::Problem(graft),
    }
}

proof fn directories_stop_for_a_reason(known: Trees, root: Seq<char>, dirs: Seq<Directory>, metas: Seq<DirMeta>)
    requires
        dirs.len() == metas.len(),
    ensures
        settle::folded_directories(known, root, dirs, metas) matches Err(s) ==> in_the_way(known, root, dirs, metas, s),
        settle::folded_directories(known, root, dirs, metas) matches Ok(f) ==> f.deleted == 0 && f.grafted == renamed(dirs),
    decreases dirs.len(),
{
    if dirs.len() > 0 {
        let n = dirs.len() - 1;
        let before = dirs.drop_last();
        directories_stop_for_a_reason(known, root, before, metas.take(n));
        match settle::folded_directories(known, root, before, metas.take(n)) {
            Err(s) => {
                match s {
                    StopView::Io { path, message } => {
                        let i = choose|i: int|
                            0 <= i < before.len() && (#[trigger] before[i]).path@ == path && metas.take(n)[i] is Err
                                && metas.take(n)[i]->Err_0@ == message;
                        assert(dirs[i] == before[i]);
                    },
                    StopView::GraftSource { from, to, graft } => {
                        let i = choose|i: int|
                            0 <= i < before.len() && (#[trigger] before[i]).path@ == to && before[i].redirect is Some
                                && before[i].redirect->0@ == from && changeset::path_names(from) is Ok && overlay::walked(
                                known,
                                root,
                                changeset::path_names(from)->Ok_0,
                            ) == overlay::Walked::Problem(graft);
                        assert(dirs[i] == before[i]);
                    },
                    _ => {},
                }
            },
            Ok(f) => {
                let edit = settle::directory_edit(dirs.last(), metas[n]);
                assert(dirs[n] == dirs.last());
                if let Ok(names) = changeset::path_names(dirs.last().path@) {
                    edits_stop_for_a_reason(known, root, f.root, names, edit);
                    if overlay::edited(known, root, f.root, names, edit) is Ok {
                        overlay::grafts_are_counted(known, root, f.root, names, edit);
                    }
                }
            },
        }
    }
}

/// How many of the directories are renamed ones.
pub open spec fn renamed(dirs: Seq<Directory>) -> nat
    decreases dirs.len(),
{
    if dirs.len() == 0 {
        0
    } else {
        renamed(dirs.drop_last()) + if dirs.last().redirect is Some {
            1nat
        } else {
            0nat
        }
    }
}

proof fn writes_stop_for_a_reason(
    known: Trees,
    root: Seq<char>,
    f: FoldView,
    jobs: Seq<JobView>,
    blobs: Seq<Seq<char>>,
    symlink_mode: u32,
)
    ensures
        settle::folded_written(known, root, f, jobs, blobs, symlink_mode) matches Err(s) ==> (s matches StopView::NeedTree(h)
            && !known.dom().contains(h)) || s is UnsafePath && in_the_way(known, root, Seq::empty(), Seq::empty(), s),
        settle::folded_written(known, root, f, jobs, blobs, symlink_mode) matches Ok(g) ==> g.deleted == f.deleted && g.grafted
            == f.grafted,
    decreases jobs.len(),
{
    if jobs.len() > 0 {
        writes_stop_for_a_reason(known, root, f, jobs.drop_last(), blobs, symlink_mode);
        if let Ok(g) = settle::folded_written(known, root, f, jobs.drop_last(), blobs, symlink_mode) {
            let edit = EditView::Put(settle::job_entry(jobs.last(), blobs[jobs.len() - 1], symlink_mode));
            edits_stop_for_a_reason(known, root, g.root, jobs.last().names, edit);
            if overlay::edited(known, root, g.root, jobs.last().names, edit) is Ok {
                overlay::grafts_are_counted(known, root, g.root, jobs.last().names, edit);
            }
        }
    }
}

proof fn whiteouts_stop_for_a_reason(known: Trees, root: Seq<char>, f: FoldView, deleted: Seq<Seq<u8>>)
    ensures
        settle::folded_deletions(known, root, f, deleted) matches Err(s) ==> (s matches StopView::NeedTree(h)
            && !known.dom().contains(h)) || s is UnsafePath && in_the_way(known, root, Seq::empty(), Seq::empty(), s),
        settle::folded_deletions(known, root, f, deleted) matches Ok(g) ==> g.deleted == f.deleted + deleted.len()
            && g.grafted == f.grafted,
    decreases deleted.len(),
{
    if deleted.len() > 0 {
        whiteouts_stop_for_a_reason(known, root, f, deleted.drop_last());
        if let Ok(g) = settle::folded_deletions(known, root, f, deleted.drop_last()) {
            if let Ok(names) = changeset::path_names(deleted.last()) {
                edits_stop_for_a_reason(known, root, g.root, names, EditView::Remove);
                if overlay::edited(known, root, g.root, names, EditView::Remove) is Ok {
                    overlay::grafts_are_counted(known, root, g.root, names, EditView::Remove);
                }
            }
        }
    }
}

/// A change set that settles counts every deleted path and every renamed directory. One that does
/// not settle stops for a reason that holds: a tree is to be read that is not known yet, a path
/// leads nowhere, a directory could not be read, or a renamed directory's content is not where it
/// is said to be.
pub proof fn settling_stops_only_for_a_reason(
    known: Trees,
    root: Seq<char>,
    change: ChangeSet,
    metas: Seq<DirMeta>,
    jobs: Seq<JobView>,
    blobs: Seq<Seq<char>>,
    symlink_mode: u32,
)
    requires
        change.directories@.len() == metas.len(),
    ensures
        settle::folded_change(known, root, change, metas, jobs, blobs, symlink_mode) matches Err(s) ==> in_the_way(
            known,
            root,
            change.directories@,
            metas,
            s,
        ),
        settle::folded_change(known, root, change, metas, jobs, blobs, symlink_mode) matches Ok(f) ==> f.deleted
            == change.deleted@.len() && f.grafted == renamed(change.directories@),
{
    let dirs = change.directories@;
    directories_stop_for_a_reason(known, root, dirs, metas);
    if let Ok(f) = settle::folded_directories(known, root, dirs, metas) {
        writes_stop_for_a_reason(known, root, f, jobs, blobs, symlink_mode);
        if let Ok(g) = settle::folded_written(known, root, f, jobs, blobs, symlink_mode) {
            whiteouts_stop_for_a_reason(known, root, g, text::byte_views(change.deleted@));
        }
    }
}

} // verus!
