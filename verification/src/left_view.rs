//! The view that a change set leaves behind, path by path, and the law that folding the change
//! set gives exactly that view.
//!
//! The view is stated without reference to the fold: a listed path shows its own change; below a
//! listed directory, and below the root, an unlisted path shows what that directory inherits from
//! the parent snapshot; and nothing is below a file or a whiteout.

use crate::changeset::{self, ChangeSet, Directory};
use crate::mark::TargetView;
use crate::merged::{self, Fact};
use crate::overlay::{self, DirView, EditView, SlotView, StopView, Trees};
use crate::publish::{self, PlannedView};
use crate::settle::{self, DirMeta, FoldView, JobView};
use crate::text;
use vstd::prelude::*;

verus! {

/// A change at the path that `names` spell.
pub struct NamedEdit {
    pub names: Seq<Seq<char>>,
    pub edit: EditView,
}

/// The change at each path, the last of those that share one.
pub open spec fn changes(edits: Seq<NamedEdit>) -> Map<Seq<Seq<char>>, EditView>
    decreases edits.len(),
{
    if edits.len() == 0 {
        Map::empty()
    } else {
        changes(edits.drop_last()).insert(edits.last().names, edits.last().edit)
    }
}

pub open spec fn listed_dir(m: Map<Seq<Seq<char>>, EditView>, q: Seq<Seq<char>>) -> bool {
    m.dom().contains(q) && m[q] is Directory
}

/// Every directory on the way to a path is listed.
pub open spec fn way_listed(m: Map<Seq<Seq<char>>, EditView>, path: Seq<Seq<char>>) -> bool {
    forall|k: int| 0 < k < path.len() ==> listed_dir(m, #[trigger] path.take(k))
}

/// Changes as an upper layer holds them: no path has two, every directory around a path is
/// listed before it, and what is written is a file or symlink.
pub open spec fn orderly(edits: Seq<NamedEdit>) -> bool
    decreases edits.len(),
{
    edits.len() == 0 || {
        let m = changes(edits.drop_last());
        let e = edits.last();
        &&& orderly(edits.drop_last())
        &&& e.names.len() > 0
        &&& !m.dom().contains(e.names)
        &&& way_listed(m, e.names)
        &&& e.edit matches EditView::Put(x) ==> x.target is Blob
    }
}

/// The tree of the parent snapshot that a listed directory inherits: the one at its recorded
/// source where it was renamed, none where it is opaque, and else the one that the directory
/// around it inherits at its name. The root inherits the snapshot itself.
pub open spec fn lower(known: Trees, root: Seq<char>, m: Map<Seq<Seq<char>>, EditView>, q: Seq<Seq<char>>) -> Option<Seq<char>>
    decreases q.len(),
{
    if q.len() == 0 {
        Some(root)
    } else {
        match m[q] {
            EditView::Directory { path, redirect, opaque, meta } => match redirect {
                Some(from) => match overlay::graft_source_of(known, root, from, path) {
                    Ok(h) => Some(h),
                    Err(_) => None,
                },
                None => if opaque {
                    None
                } else {
                    match lower(known, root, m, q.drop_last()) {
                        Some(t) => overlay::inherited_subtree(overlay::fresh(known[t]), q.last()),
                        None => None,
                    }
                },
            },
            _ => None,
        }
    }
}

/// How many names of a path lead to the nearest listed path above it; none where that is the
/// root.
pub open spec fn nearest(m: Map<Seq<Seq<char>>, EditView>, path: Seq<Seq<char>>, k: int) -> int
    decreases k,
{
    if k <= 0 {
        0
    } else if m.dom().contains(path.take(k)) {
        k
    } else {
        nearest(m, path, k - 1)
    }
}

/// The nearest listed path above is listed.
pub proof fn nearest_is_listed(m: Map<Seq<Seq<char>>, EditView>, path: Seq<Seq<char>>, k: int)
    requires
        k <= path.len(),
    ensures
        nearest(m, path, k) <= k || nearest(m, path, k) == 0,
        0 <= nearest(m, path, k) <= path.len(),
        nearest(m, path, k) > 0 ==> m.dom().contains(path.take(nearest(m, path, k))),
    decreases k,
{
    if k > 0 && !m.dom().contains(path.take(k)) {
        nearest_is_listed(m, path, k - 1);
    }
}

/// What a change shows at its own path.
pub open spec fn change_fact(edit: EditView) -> Option<Fact> {
    match edit {
        EditView::Put(e) => Some(merged::entry_fact(e)),
        EditView::Directory { path, redirect, opaque, meta } => match meta {
            Ok(m) => Some(Fact::Dir { mode: Some(m.0 & overlay::PERMISSION_BITS), mtime_ms: m.1 }),
            Err(_) => None,
        },
        EditView::Remove => None,
    }
}

/// What stands at a path once the changes are made.
pub open spec fn left_at(known: Trees, root: Seq<char>, m: Map<Seq<Seq<char>>, EditView>, path: Seq<Seq<char>>) -> Option<Fact> {
    if m.dom().contains(path) {
        change_fact(m[path])
    } else {
        let k = nearest(m, path, path.len() - 1);
        let above = path.take(k);
        if k == 0 || m[above] is Directory {
            match lower(known, root, m, above) {
                Some(tree) => merged::stored_at(known, tree, path.skip(k)),
                None => None,
            }
        } else {
            None
        }
    }
}

/// The directory after the changes were made one after another.
pub open spec fn applied(known: Trees, root: Seq<char>, start: DirView, edits: Seq<NamedEdit>) -> Result<DirView, StopView>
    decreases edits.len(),
{
    if edits.len() == 0 {
        Ok(start)
    } else {
        match applied(known, root, start, edits.drop_last()) {
            Err(s) => Err(s),
            Ok(d) => match overlay::edited(known, root, d, edits.last().names, edits.last().edit) {
                Err(s) => Err(s),
                Ok(x) => Ok(x.dir),
            },
        }
    }
}

/// The directory under construction at a path.
spec fn dir_at(d: DirView, q: Seq<Seq<char>>) -> Option<DirView>
    decreases q.len(),
{
    if q.len() == 0 {
        Some(d)
    } else {
        match overlay::slot(d, q[0]) {
            Some(SlotView::Dir(c)) => dir_at(*c, q.drop_first()),
            _ => None,
        }
    }
}

/// `d` with another directory under construction at a path.
spec fn replace_at(d: DirView, q: Seq<Seq<char>>, c: DirView) -> DirView
    decreases q.len(),
{
    if q.len() == 0 {
        c
    } else {
        match overlay::slot(d, q[0]) {
            Some(SlotView::Dir(k)) => overlay::with_slot(
                d,
                q[0],
                SlotView::Dir(Box::new(replace_at(*k, q.drop_first(), c))),
            ),
            _ => d,
        }
    }
}

spec fn leads_to(q: Seq<Seq<char>>, p: Seq<Seq<char>>) -> bool {
    q.len() <= p.len() && p.take(q.len() as int) == q
}

/// Two directories that differ at most in the directory under construction at one name, which
/// both have and which both list with the same mode and mtime.
spec fn same_around(a: DirView, b: DirView, name: Seq<char>) -> bool {
    &&& a.inherited == b.inherited
    &&& a.meta == b.meta
    &&& a.removed == b.removed
    &&& forall|n: Seq<char>| n != name ==> #[trigger] overlay::slot(a, n) == overlay::slot(b, n)
    &&& overlay::slot(a, name) matches Some(SlotView::Dir(x)) && overlay::slot(b, name) matches Some(SlotView::Dir(y))
        && x.meta == y.meta
}

proof fn replaced_lookup(d: DirView, q: Seq<Seq<char>>, c: DirView, p: Seq<Seq<char>>)
    requires
        dir_at(d, q) matches Some(e) && e.meta == c.meta,
    ensures
        leads_to(q, p) ==> dir_at(replace_at(d, q, c), p) == dir_at(c, p.skip(q.len() as int)),
        !leads_to(q, p) && leads_to(p, q) ==> {
            &&& dir_at(d, p) is Some
            &&& dir_at(replace_at(d, q, c), p) is Some
            &&& same_around(dir_at(d, p)->0, dir_at(replace_at(d, q, c), p)->0, q[p.len() as int])
        },
        !leads_to(q, p) && !leads_to(p, q) ==> dir_at(replace_at(d, q, c), p) == dir_at(d, p),
        replace_at(d, q, c).meta == d.meta,
    decreases q.len(),
{
    let new = replace_at(d, q, c);
    if q.len() == 0 {
        assert(p.take(0) =~= q);
        assert(p.skip(0) =~= p);
    } else {
        let k = match overlay::slot(d, q[0]) {
            Some(SlotView::Dir(k)) => *k,
            _ => d,
        };
        let rest = q.drop_first();
        let inner = replace_at(k, rest, c);
        assert forall|n: Seq<char>| #[trigger]
            overlay::slot(new, n) == (if n == q[0] {
                Some(SlotView::Dir(Box::new(inner)))
            } else {
                overlay::slot(d, n)
            }) by {
            overlay::with_slot_replaces_one_name(d, q[0], SlotView::Dir(Box::new(inner)), n);
        }
        if p.len() == 0 {
            replaced_lookup(k, rest, c, rest);
            assert(q.take(0) =~= p);
            assert(leads_to(p, q));
            assert(!leads_to(q, p));
            assert(same_around(d, new, q[0]));
        } else {
            let tail = p.drop_first();
            replaced_lookup(k, rest, c, tail);
            if p[0] == q[0] {
                assert(leads_to(q, p) == leads_to(rest, tail)) by {
                    if leads_to(q, p) {
                        assert(tail.take(rest.len() as int) =~= p.take(q.len() as int).drop_first());
                    }
                    if leads_to(rest, tail) {
                        assert(p.take(q.len() as int) =~= seq![q[0]] + tail.take(rest.len() as int));
                        assert(q =~= seq![q[0]] + rest);
                    }
                }
                assert(leads_to(p, q) == leads_to(tail, rest)) by {
                    if leads_to(p, q) {
                        assert(rest.take(tail.len() as int) =~= q.take(p.len() as int).drop_first());
                    }
                    if leads_to(tail, rest) {
                        assert(q.take(p.len() as int) =~= seq![p[0]] + rest.take(tail.len() as int));
                        assert(p =~= seq![p[0]] + tail);
                    }
                }
                if leads_to(q, p) {
                    assert(p.skip(q.len() as int) =~= tail.skip(rest.len() as int));
                }
                if leads_to(p, q) && !leads_to(q, p) {
                    if p.len() == q.len() {
                        assert(q.take(p.len() as int) =~= q);
                        assert(p.take(q.len() as int) =~= p);
                    }
                    assert(q[p.len() as int] == rest[tail.len() as int]);
                }
            } else {
                assert(!leads_to(q, p)) by {
                    if leads_to(q, p) {
                        assert(p.take(q.len() as int)[0] == p[0]);
                    }
                }
                assert(!leads_to(p, q)) by {
                    if leads_to(p, q) {
                        assert(q.take(p.len() as int)[0] == q[0]);
                    }
                }
            }
        }
    }
}

/// Where the directories on the way are under construction, an edit changes the directory that
/// holds its last name and no other.
proof fn edit_replaces_the_holder(known: Trees, root: Seq<char>, d: DirView, names: Seq<Seq<char>>, edit: EditView)
    requires
        names.len() > 0,
        dir_at(d, names.drop_last()) is Some,
        overlay::edited(known, root, d, names, edit) is Ok,
    ensures
        ({
            let c = dir_at(d, names.drop_last())->0;
            let here = overlay::edited_here(known, root, c, names.last(), edit);
            here is Ok && overlay::edited(known, root, d, names, edit)->Ok_0.dir == replace_at(
                d,
                names.drop_last(),
                here->Ok_0.dir,
            )
        }),
    decreases names.len(),
{
    if names.len() > 1 {
        let rest = names.drop_first();
        assert(names.drop_last()[0] == names[0]);
        assert(names.drop_last().drop_first() =~= rest.drop_last());
        let child = overlay::entered(known, d, names[0])->Ok_0.0;
        edit_replaces_the_holder(known, root, child, rest, edit);
    } else {
        assert(names.drop_last() =~= Seq::<Seq<char>>::empty());
        assert(names.last() == names[0]);
    }
}

/// What changed at one name of a listed directory is what is listed there.
spec fn slot_as_listed(m: Map<Seq<Seq<char>>, EditView>, q: Seq<Seq<char>>, c: DirView, n: Seq<char>) -> bool {
    let path = q.push(n);
    if !m.dom().contains(path) {
        overlay::slot(c, n) is None && !c.removed.contains(n)
    } else {
        match m[path] {
            EditView::Put(e) => overlay::slot(c, n) == Some(SlotView::Entry(e)),
            EditView::Directory { path, redirect, opaque, meta } => overlay::slot(c, n) matches Some(SlotView::Dir(k))
                && meta matches Ok(x) && k.meta == Some((Some(x.0 & overlay::PERMISSION_BITS), x.1)),
            EditView::Remove => overlay::slot(c, n) is None && c.removed.contains(n),
        }
    }
}

/// A directory under construction is as its path is listed: it inherits what it should, and has
/// changed what is listed.
spec fn dir_as_listed(known: Trees, root: Seq<char>, m: Map<Seq<Seq<char>>, EditView>, q: Seq<Seq<char>>, c: DirView) -> bool {
    &&& overlay::base_entries(known, lower(known, root, m, q)) matches Ok(b) && c.inherited == b.0
    &&& forall|n: Seq<char>| #[trigger] slot_as_listed(m, q, c, n)
}

spec fn is_dir(m: Map<Seq<Seq<char>>, EditView>, q: Seq<Seq<char>>) -> bool {
    q.len() == 0 || listed_dir(m, q)
}

/// Every listed directory is under construction as it is listed.
spec fn as_listed(known: Trees, root: Seq<char>, m: Map<Seq<Seq<char>>, EditView>, d: DirView) -> bool {
    forall|q: Seq<Seq<char>>|
        is_dir(m, q) ==> (#[trigger] dir_at(d, q) matches Some(c) && dir_as_listed(known, root, m, q, c))
}

/// What is listed is reached through listed directories, and what is written is a file.
spec fn closed_listing(m: Map<Seq<Seq<char>>, EditView>) -> bool {
    forall|p: Seq<Seq<char>>| #[trigger]
        m.dom().contains(p) ==> p.len() > 0 && way_listed(m, p) && (m[p] matches EditView::Put(x) ==> x.target is Blob)
}

proof fn orderly_listings_are_closed(edits: Seq<NamedEdit>)
    requires
        orderly(edits),
    ensures
        closed_listing(changes(edits)),
    decreases edits.len(),
{
    if edits.len() > 0 {
        orderly_listings_are_closed(edits.drop_last());
        let m = changes(edits.drop_last());
        let e = edits.last();
        let next = changes(edits);
        assert forall|p: Seq<Seq<char>>| #[trigger] next.dom().contains(p) implies p.len() > 0 && way_listed(next, p) && (
        next[p] matches EditView::Put(x) ==> x.target is Blob) by {
            assert(way_listed(m, p)) by {
                if p != e.names {
                    assert(m.dom().contains(p));
                }
            }
            assert forall|k: int| 0 < k < p.len() implies listed_dir(next, #[trigger] p.take(k)) by {
                assert(listed_dir(m, p.take(k)));
            }
            if p != e.names {
                assert(m.dom().contains(p));
            }
        }
    }
}

/// The directory around a listed path is listed, or the root, and what is written is a file or
/// symlink.
pub proof fn listed_ways(edits: Seq<NamedEdit>, p: Seq<Seq<char>>)
    requires
        orderly(edits),
        changes(edits).dom().contains(p),
    ensures
        p.len() > 0,
        p.len() == 1 || listed_dir(changes(edits), p.drop_last()),
        changes(edits)[p] matches EditView::Put(x) ==> x.target is Blob,
{
    orderly_listings_are_closed(edits);
    assert(way_listed(changes(edits), p));
    if p.len() > 1 {
        assert(p.drop_last() =~= p.take(p.len() - 1));
        assert(listed_dir(changes(edits), p.take(p.len() - 1)));
    }
}

/// A new change elsewhere leaves what a listed directory inherits as it is.
proof fn lower_is_stable(
    known: Trees,
    root: Seq<char>,
    m: Map<Seq<Seq<char>>, EditView>,
    names: Seq<Seq<char>>,
    edit: EditView,
    q: Seq<Seq<char>>,
)
    requires
        closed_listing(m),
        !m.dom().contains(names),
        names.len() > 0,
        is_dir(m, q),
    ensures
        lower(known, root, m.insert(names, edit), q) == lower(known, root, m, q),
    decreases q.len(),
{
    if q.len() > 0 {
        assert(m.insert(names, edit)[q] == m[q]);
        let above = q.drop_last();
        if q.len() > 1 {
            assert(above =~= q.take(q.len() - 1));
            assert(listed_dir(m, q.take(q.len() - 1)));
        }
        lower_is_stable(known, root, m, names, edit, above);
    }
}

/// Nothing is listed below a path that is not a listed directory.
proof fn nothing_below(m: Map<Seq<Seq<char>>, EditView>, path: Seq<Seq<char>>, below: Seq<Seq<char>>)
    requires
        closed_listing(m),
        path.len() > 0,
        !listed_dir(m, path),
        below.len() > path.len(),
        below.take(path.len() as int) == path,
    ensures
        !m.dom().contains(below),
{
    if m.dom().contains(below) {
        assert(way_listed(m, below));
        assert(listed_dir(m, below.take(path.len() as int)));
    }
}

proof fn longer_path(p: Seq<Seq<char>>, q: Seq<Seq<char>>)
    requires
        leads_to(q, p),
        p != q,
    ensures
        p.len() > q.len(),
{
    if p.len() == q.len() {
        assert(p.take(q.len() as int) =~= p);
    }
}

/// A directory other than the holder of a new change and the new directory itself stays as it is
/// listed.
proof fn elsewhere_is_listed(
    known: Trees,
    root: Seq<char>,
    m: Map<Seq<Seq<char>>, EditView>,
    d: DirView,
    q: Seq<Seq<char>>,
    n: Seq<char>,
    edit: EditView,
    p: Seq<Seq<char>>,
)
    requires
        as_listed(known, root, m, d),
        closed_listing(m),
        is_dir(m, q),
        !m.dom().contains(q.push(n)),
        way_listed(m, q.push(n)),
        overlay::edited_here(known, root, dir_at(d, q)->0, n, edit) is Ok,
        is_dir(m, p),
        p != q,
    ensures
        dir_at(replace_at(d, q, overlay::edited_here(known, root, dir_at(d, q)->0, n, edit)->Ok_0.dir), p) matches Some(e)
            && dir_as_listed(known, root, m.insert(q.push(n), edit), p, e),
{
    let names = q.push(n);
    let next = m.insert(names, edit);
    assert(dir_at(d, q) is Some);
    let c = dir_at(d, q)->0;
    let here = overlay::edited_here(known, root, c, n, edit)->Ok_0.dir;
    assert(here.meta == c.meta);
    let out = replace_at(d, q, here);
    replaced_lookup(d, q, here, p);
    assert(dir_at(d, p) is Some);
    let before = dir_at(d, p)->0;
    assert(dir_as_listed(known, root, m, p, before));
    lower_is_stable(known, root, m, names, edit, p);
    if leads_to(q, p) {
        longer_path(p, q);
        let r = p.skip(q.len() as int);
        if r[0] == n {
            assert(p.take(names.len() as int) =~= names);
            if p.len() == names.len() {
                assert(p =~= names);
                assert(!is_dir(m, p));
            } else {
                nothing_below(m, names, p);
            }
        }
        here_keeps_other_slots(known, root, c, n, edit, r[0]);
        replacing_with_itself(d, q);
        assert(dir_at(d, p) == dir_at(c, r));
        assert(dir_at(here, r) == dir_at(c, r));
    }
    let e = dir_at(out, p)->0;
    assert forall|k: Seq<char>| #[trigger] slot_as_listed(next, p, e, k) by {
        assert(slot_as_listed(m, p, before, k));
        if p.push(k) == names {
            assert(p.push(k).drop_last() =~= p);
            assert(names.drop_last() =~= q);
        }
        if leads_to(p, q) && !leads_to(q, p) {
            longer_path(q, p);
            let on_way = q[p.len() as int];
            if k == on_way {
                assert(p.push(k) =~= names.take(p.len() as int + 1));
                assert(listed_dir(m, names.take(p.len() as int + 1)));
            } else {
                assert(overlay::slot(e, k) == overlay::slot(before, k));
            }
        }
    }
}

proof fn step_keeps_the_listing(
    known: Trees,
    root: Seq<char>,
    m: Map<Seq<Seq<char>>, EditView>,
    d: DirView,
    names: Seq<Seq<char>>,
    edit: EditView,
)
    requires
        as_listed(known, root, m, d),
        closed_listing(m),
        names.len() > 0,
        !m.dom().contains(names),
        way_listed(m, names),
        overlay::edited(known, root, d, names, edit) is Ok,
    ensures
        as_listed(known, root, m.insert(names, edit), overlay::edited(known, root, d, names, edit)->Ok_0.dir),
{
    let q = names.drop_last();
    let n = names.last();
    let next = m.insert(names, edit);
    assert(names =~= q.push(n));
    if q.len() > 0 {
        assert(q =~= names.take(names.len() - 1));
        assert(listed_dir(m, names.take(names.len() - 1)));
    }
    assert(is_dir(m, q));
    assert(dir_at(d, q) is Some);
    let c = dir_at(d, q)->0;
    assert(dir_as_listed(known, root, m, q, c));
    edit_replaces_the_holder(known, root, d, names, edit);
    let here = overlay::edited_here(known, root, c, n, edit)->Ok_0.dir;
    let out = overlay::edited(known, root, d, names, edit)->Ok_0.dir;
    assert forall|p: Seq<Seq<char>>| is_dir(next, p) implies (#[trigger] dir_at(out, p) matches Some(e) && dir_as_listed(
        known,
        root,
        next,
        p,
        e,
    )) by {
        if p == names {
            replaced_lookup(d, q, here, p);
            new_directory_is_listed(known, root, m, c, q, n, edit);
            assert(leads_to(q, p)) by {
                assert(p.take(q.len() as int) =~= q);
            }
            assert(p.skip(q.len() as int) =~= seq![n]);
            assert(seq![n].drop_first() =~= Seq::<Seq<char>>::empty());
            assert(dir_at(here, seq![n]) == dir_at(*(overlay::slot(here, n)->0->Dir_0), Seq::<Seq<char>>::empty()));
        } else if p == q {
            replaced_lookup(d, q, here, p);
            assert(leads_to(q, p)) by {
                assert(p.take(q.len() as int) =~= q);
            }
            assert(p.skip(q.len() as int) =~= Seq::<Seq<char>>::empty());
            lower_is_stable(known, root, m, names, edit, p);
            holder_is_listed(known, root, m, c, q, n, edit);
        } else {
            assert(is_dir(m, p));
            elsewhere_is_listed(known, root, m, d, q, n, edit, p);
        }
    }
}

proof fn replacing_with_itself(d: DirView, q: Seq<Seq<char>>)
    requires
        dir_at(d, q) is Some,
    ensures
        forall|p: Seq<Seq<char>>| #[trigger]
            dir_at(d, p) == dir_at(d, p) && leads_to(q, p) ==> dir_at(d, p) == dir_at(dir_at(d, q)->0, p.skip(q.len() as int)),
    decreases q.len(),
{
    if q.len() == 0 {
        assert forall|p: Seq<Seq<char>>| leads_to(q, p) implies #[trigger] dir_at(d, p) == dir_at(
            dir_at(d, q)->0,
            p.skip(q.len() as int),
        ) by {
            assert(p.skip(0) =~= p);
        }
    } else {
        let k = *(overlay::slot(d, q[0])->0->Dir_0);
        let rest = q.drop_first();
        replacing_with_itself(k, rest);
        assert forall|p: Seq<Seq<char>>| leads_to(q, p) implies #[trigger] dir_at(d, p) == dir_at(
            dir_at(d, q)->0,
            p.skip(q.len() as int),
        ) by {
            let tail = p.drop_first();
            assert(p.take(q.len() as int)[0] == p[0]);
            assert(tail.take(rest.len() as int) =~= p.take(q.len() as int).drop_first());
            assert(leads_to(rest, tail));
            assert(tail.skip(rest.len() as int) =~= p.skip(q.len() as int));
            assert(dir_at(k, tail) == dir_at(k, tail));
        }
    }
}

proof fn here_keeps_other_slots(known: Trees, root: Seq<char>, c: DirView, n: Seq<char>, edit: EditView, other: Seq<char>)
    requires
        overlay::edited_here(known, root, c, n, edit) is Ok,
        other != n,
    ensures
        overlay::slot(overlay::edited_here(known, root, c, n, edit)->Ok_0.dir, other) == overlay::slot(c, other),
        overlay::edited_here(known, root, c, n, edit)->Ok_0.dir.removed.contains(other) == c.removed.contains(other),
{
    match edit {
        EditView::Put(e) => {
            overlay::with_slot_replaces_one_name(c, n, SlotView::Entry(e), other);
        },
        EditView::Directory { path, redirect, opaque, meta } => {
            let b = overlay::base_of(known, root, c, n, path, redirect, opaque)->Ok_0;
            let entries = overlay::base_entries(known, b.0)->Ok_0.0;
            let child = overlay::rebased(c, n, entries, meta->Ok_0);
            overlay::with_slot_replaces_one_name(c, n, SlotView::Dir(Box::new(child)), other);
        },
        EditView::Remove => {
            let removed = c.removed.push(n);
            if c.removed.contains(other) {
                let i = choose|i: int| 0 <= i < c.removed.len() && c.removed[i] == other;
                assert(removed[i] == other);
            }
        },
    }
}

/// The directory that holds a new change is as it is listed with it.
proof fn holder_is_listed(
    known: Trees,
    root: Seq<char>,
    m: Map<Seq<Seq<char>>, EditView>,
    c: DirView,
    q: Seq<Seq<char>>,
    n: Seq<char>,
    edit: EditView,
)
    requires
        dir_as_listed(known, root, m, q, c),
        !m.dom().contains(q.push(n)),
        overlay::edited_here(known, root, c, n, edit) is Ok,
        lower(known, root, m.insert(q.push(n), edit), q) == lower(known, root, m, q),
    ensures
        dir_as_listed(
            known,
            root,
            m.insert(q.push(n), edit),
            q,
            overlay::edited_here(known, root, c, n, edit)->Ok_0.dir,
        ),
{
    let next = m.insert(q.push(n), edit);
    let here = overlay::edited_here(known, root, c, n, edit)->Ok_0.dir;
    assert(slot_as_listed(m, q, c, n));
    assert forall|k: Seq<char>| #[trigger] slot_as_listed(next, q, here, k) by {
        assert(slot_as_listed(m, q, c, k));
        if k != n {
            assert(q.push(k).last() == k);
            assert(q.push(n).last() == n);
            here_keeps_other_slots(known, root, c, n, edit, k);
        } else {
            match edit {
                EditView::Put(e) => {
                    overlay::with_slot_replaces_one_name(c, n, SlotView::Entry(e), n);
                },
                EditView::Directory { path, redirect, opaque, meta } => {
                    let b = overlay::base_of(known, root, c, n, path, redirect, opaque)->Ok_0;
                    let entries = overlay::base_entries(known, b.0)->Ok_0.0;
                    let child = overlay::rebased(c, n, entries, meta->Ok_0);
                    overlay::with_slot_replaces_one_name(c, n, SlotView::Dir(Box::new(child)), n);
                },
                EditView::Remove => {
                    assert(here.removed.last() == n);
                },
            }
        }
    }
}

/// A newly listed directory is under construction as it is listed.
proof fn new_directory_is_listed(
    known: Trees,
    root: Seq<char>,
    m: Map<Seq<Seq<char>>, EditView>,
    c: DirView,
    q: Seq<Seq<char>>,
    n: Seq<char>,
    edit: EditView,
)
    requires
        dir_as_listed(known, root, m, q, c),
        closed_listing(m),
        is_dir(m, q),
        !m.dom().contains(q.push(n)),
        overlay::edited_here(known, root, c, n, edit) is Ok,
        edit is Directory,
    ensures
        overlay::slot(overlay::edited_here(known, root, c, n, edit)->Ok_0.dir, n) matches Some(SlotView::Dir(k))
            && dir_as_listed(known, root, m.insert(q.push(n), edit), q.push(n), *k),
{
    let next = m.insert(q.push(n), edit);
    let at = q.push(n);
    assert(slot_as_listed(m, q, c, n));
    match edit {
        EditView::Directory { path, redirect, opaque, meta } => {
            let b = overlay::base_of(known, root, c, n, path, redirect, opaque)->Ok_0;
            let entries = overlay::base_entries(known, b.0)->Ok_0.0;
            let child = overlay::rebased(c, n, entries, meta->Ok_0);
            overlay::with_slot_replaces_one_name(c, n, SlotView::Dir(Box::new(child)), n);
            lower_is_stable(known, root, m, at, edit, q);
            assert(at.drop_last() =~= q);
            assert(at.last() == n);
            assert(next[at] == edit);
            assert(lower(known, root, next, at) == b.0);
            assert forall|k: Seq<char>| #[trigger] slot_as_listed(next, at, child, k) by {
                let below = at.push(k);
                assert(below.take(at.len() as int) =~= at);
                nothing_below(m, at, below);
                assert(below.len() != at.len());
                assert(overlay::slot(child, k) is None);
                assert(!child.removed.contains(k));
            }
        },
        _ => {},
    }
}

proof fn applied_as_listed(known: Trees, root: Seq<char>, edits: Seq<NamedEdit>)
    requires
        orderly(edits),
        known.dom().contains(root),
        applied(known, root, overlay::fresh(known[root]), edits) is Ok,
    ensures
        as_listed(known, root, changes(edits), applied(known, root, overlay::fresh(known[root]), edits)->Ok_0),
    decreases edits.len(),
{
    let start = overlay::fresh(known[root]);
    if edits.len() == 0 {
        let m = changes(edits);
        assert forall|q: Seq<Seq<char>>| is_dir(m, q) implies (#[trigger] dir_at(start, q) matches Some(c)
            && dir_as_listed(known, root, m, q, c)) by {
            assert forall|n: Seq<char>| #[trigger] slot_as_listed(m, q, start, n) by {
                assert(overlay::slot(start, n) is None);
                assert(!start.removed.contains(n));
            }
        }
    } else {
        let rest = edits.drop_last();
        let m = changes(rest);
        applied_as_listed(known, root, rest);
        orderly_listings_are_closed(rest);
        let d = applied(known, root, start, rest)->Ok_0;
        step_keeps_the_listing(known, root, m, d, edits.last().names, edits.last().edit);
    }
}

/// Below a path that is not a listed directory, the nearest listed path is that path where it is
/// listed, and else the one around it.
proof fn nearest_below(m: Map<Seq<Seq<char>>, EditView>, path: Seq<Seq<char>>, n: int, k: int)
    requires
        closed_listing(m),
        0 < n <= k < path.len(),
        !listed_dir(m, path.take(n)),
    ensures
        nearest(m, path, k) == (if m.dom().contains(path.take(n)) {
            n
        } else {
            nearest(m, path, n - 1)
        }),
    decreases k,
{
    if k > n {
        assert(path.take(k).take(n) =~= path.take(n));
        nothing_below(m, path.take(n), path.take(k));
        nearest_below(m, path, n, k - 1);
    }
}

proof fn shows_what_is_left(
    known: Trees,
    root: Seq<char>,
    m: Map<Seq<Seq<char>>, EditView>,
    d: DirView,
    path: Seq<Seq<char>>,
    n: int,
)
    requires
        as_listed(known, root, m, d),
        closed_listing(m),
        0 <= n < path.len(),
        is_dir(m, path.take(n)),
    ensures
        dir_at(d, path.take(n)) matches Some(c) && merged::node_at(known, c, path.skip(n)) == left_at(known, root, m, path),
    decreases path.len() - n,
{
    let q = path.take(n);
    let rest = path.skip(n);
    assert(dir_at(d, q) is Some);
    let c = dir_at(d, q)->0;
    assert(dir_as_listed(known, root, m, q, c));
    let name = path[n];
    assert(rest[0] == name);
    assert(q.push(name) =~= path.take(n + 1));
    assert(slot_as_listed(m, q, c, name));
    let here = path.take(n + 1);
    if rest.len() == 1 {
        assert(here =~= path);
    }
    if listed_dir(m, here) {
        if rest.len() > 1 {
            shows_what_is_left(known, root, m, d, path, n + 1);
            assert(path.skip(n + 1) =~= rest.drop_first());
            replacing_with_itself(d, q);
            assert(leads_to(q, here)) by {
                assert(here.take(q.len() as int) =~= q);
            }
            assert(here.skip(q.len() as int) =~= seq![name]);
            assert(dir_at(d, here) == dir_at(c, seq![name]));
            assert(seq![name].drop_first() =~= Seq::<Seq<char>>::empty());
            let k = *(overlay::slot(c, name)->0->Dir_0);
            assert(dir_at(c, seq![name]) == dir_at(k, Seq::<Seq<char>>::empty()));
        }
    } else {
        if rest.len() > 1 {
            assert(path.take(here.len() as int) =~= here);
            nothing_below(m, here, path);
            nearest_below(m, path, n + 1, path.len() - 1);
        }
        if !m.dom().contains(here) {
            nearest_is_here(m, path, n);
            let b = overlay::base_entries(known, lower(known, root, m, q))->Ok_0;
            if lower(known, root, m, q) is None {
                assert(overlay::entry_named(c.inherited, name) is None);
            }
        }
    }
}

proof fn nearest_is_here(m: Map<Seq<Seq<char>>, EditView>, path: Seq<Seq<char>>, n: int)
    requires
        0 <= n < path.len(),
        is_dir(m, path.take(n)),
    ensures
        nearest(m, path, n) == n,
{
}

/// The changes of a change set in the order in which they are folded: directories, what was
/// written, whiteouts.
pub open spec fn edits_of(
    change: ChangeSet,
    metas: Seq<DirMeta>,
    jobs: Seq<JobView>,
    blobs: Seq<Seq<char>>,
    symlink_mode: u32,
) -> Seq<NamedEdit> {
    directory_edits(change.directories@, metas) + written_edits(jobs, blobs, symlink_mode) + deletion_edits(
        text::byte_views(change.deleted@),
    )
}

pub open spec fn directory_edits(dirs: Seq<Directory>, metas: Seq<DirMeta>) -> Seq<NamedEdit> {
    Seq::new(
        dirs.len(),
        |i: int|
            NamedEdit {
                names: changeset::path_names(dirs[i].path@)->Ok_0,
                edit: settle::directory_edit(dirs[i], metas[i]),
            },
    )
}

pub open spec fn written_edits(jobs: Seq<JobView>, blobs: Seq<Seq<char>>, symlink_mode: u32) -> Seq<NamedEdit> {
    Seq::new(
        jobs.len(),
        |i: int|
            NamedEdit {
                names: jobs[i].names,
                edit: EditView::Put(settle::job_entry(jobs[i], blobs[i], symlink_mode)),
            },
    )
}

pub open spec fn deletion_edits(deleted: Seq<Seq<u8>>) -> Seq<NamedEdit> {
    Seq::new(
        deleted.len(),
        |i: int| NamedEdit { names: changeset::path_names(deleted[i])->Ok_0, edit: EditView::Remove },
    )
}

proof fn directories_are_applied(known: Trees, root: Seq<char>, dirs: Seq<Directory>, metas: Seq<DirMeta>)
    requires
        settle::folded_directories(known, root, dirs, metas) is Ok,
        dirs.len() == metas.len(),
    ensures
        known.dom().contains(root),
        applied(known, root, overlay::fresh(known[root]), directory_edits(dirs, metas)) == Ok::<DirView, StopView>(
            settle::folded_directories(known, root, dirs, metas)->Ok_0.root,
        ),
    decreases dirs.len(),
{
    if dirs.len() > 0 {
        let n = dirs.len() - 1;
        directories_are_applied(known, root, dirs.drop_last(), metas.take(n));
        assert(directory_edits(dirs, metas).drop_last() =~= directory_edits(dirs.drop_last(), metas.take(n)));
    }
}

proof fn writes_are_applied(
    known: Trees,
    root: Seq<char>,
    start: DirView,
    before: Seq<NamedEdit>,
    f: FoldView,
    jobs: Seq<JobView>,
    blobs: Seq<Seq<char>>,
    symlink_mode: u32,
)
    requires
        applied(known, root, start, before) == Ok::<DirView, StopView>(f.root),
        settle::folded_written(known, root, f, jobs, blobs, symlink_mode) is Ok,
    ensures
        applied(known, root, start, before + written_edits(jobs, blobs, symlink_mode)) == Ok::<DirView, StopView>(
            settle::folded_written(known, root, f, jobs, blobs, symlink_mode)->Ok_0.root,
        ),
    decreases jobs.len(),
{
    let all = before + written_edits(jobs, blobs, symlink_mode);
    if jobs.len() == 0 {
        assert(all =~= before);
    } else {
        writes_are_applied(known, root, start, before, f, jobs.drop_last(), blobs, symlink_mode);
        assert(all.drop_last() =~= before + written_edits(jobs.drop_last(), blobs, symlink_mode));
    }
}

proof fn deletions_are_applied(
    known: Trees,
    root: Seq<char>,
    start: DirView,
    before: Seq<NamedEdit>,
    f: FoldView,
    deleted: Seq<Seq<u8>>,
)
    requires
        applied(known, root, start, before) == Ok::<DirView, StopView>(f.root),
        settle::folded_deletions(known, root, f, deleted) is Ok,
    ensures
        applied(known, root, start, before + deletion_edits(deleted)) == Ok::<DirView, StopView>(
            settle::folded_deletions(known, root, f, deleted)->Ok_0.root,
        ),
    decreases deleted.len(),
{
    let all = before + deletion_edits(deleted);
    if deleted.len() == 0 {
        assert(all =~= before);
    } else {
        deletions_are_applied(known, root, start, before, f, deleted.drop_last());
        assert(all.drop_last() =~= before + deletion_edits(deleted.drop_last()));
    }
}

/// Folding a change set leaves exactly the view that its changes describe: at every path stands
/// what was written or listed there, nothing where a whiteout is, and else what the nearest
/// listed directory inherits from the parent snapshot.
pub proof fn the_fold_leaves_the_described_view(
    known: Trees,
    root: Seq<char>,
    change: ChangeSet,
    metas: Seq<DirMeta>,
    jobs: Seq<JobView>,
    blobs: Seq<Seq<char>>,
    symlink_mode: u32,
    path: Seq<Seq<char>>,
)
    requires
        settle::folded_change(known, root, change, metas, jobs, blobs, symlink_mode) is Ok,
        change.directories@.len() == metas.len(),
        orderly(edits_of(change, metas, jobs, blobs, symlink_mode)),
        path.len() > 0,
    ensures
        merged::node_at(
            known,
            settle::folded_change(known, root, change, metas, jobs, blobs, symlink_mode)->Ok_0.root,
            path,
        ) == left_at(known, root, changes(edits_of(change, metas, jobs, blobs, symlink_mode)), path),
{
    let edits = edits_of(change, metas, jobs, blobs, symlink_mode);
    let dirs = directory_edits(change.directories@, metas);
    let f = settle::folded_directories(known, root, change.directories@, metas)->Ok_0;
    directories_are_applied(known, root, change.directories@, metas);
    let start = overlay::fresh(known[root]);
    let g = settle::folded_written(known, root, f, jobs, blobs, symlink_mode)->Ok_0;
    writes_are_applied(known, root, start, dirs, f, jobs, blobs, symlink_mode);
    let deleted = text::byte_views(change.deleted@);
    deletions_are_applied(known, root, start, dirs + written_edits(jobs, blobs, symlink_mode), g, deleted);
    applied_as_listed(known, root, edits);
    orderly_listings_are_closed(edits);
    let d = applied(known, root, start, edits)->Ok_0;
    assert(path.take(0) =~= Seq::<Seq<char>>::empty());
    assert(path.skip(0) =~= path);
    shows_what_is_left(known, root, changes(edits), d, path, 0);
}

proof fn walks_with_more_trees(known: Trees, more: Trees, tree: Seq<char>, names: Seq<Seq<char>>)
    requires
        known.submap_of(more),
        overlay::walked(known, tree, names) !is Need,
    ensures
        overlay::walked(more, tree, names) == overlay::walked(known, tree, names),
    decreases names.len(),
{
    if names.len() > 0 {
        assert(more[tree] == known[tree]);
        match overlay::entry_named(known[tree], names[0]) {
            Some(e) => match e.target {
                TargetView::Tree(sub) => {
                    walks_with_more_trees(known, more, sub, names.drop_first());
                },
                TargetView::Blob(_) => {},
            },
            None => {},
        }
    }
}

/// An edit that the known trees suffice for comes to the same where more trees are known.
proof fn edits_with_more_trees(
    known: Trees,
    more: Trees,
    root: Seq<char>,
    d: DirView,
    names: Seq<Seq<char>>,
    edit: EditView,
)
    requires
        known.submap_of(more),
        overlay::edited(known, root, d, names, edit) is Ok,
    ensures
        overlay::edited(more, root, d, names, edit) == overlay::edited(known, root, d, names, edit),
    decreases names.len(),
{
    if names.len() <= 1 {
        match edit {
            EditView::Directory { path, redirect, opaque, meta } => {
                match redirect {
                    Some(from) => {
                        let source = changeset::path_names(from)->Ok_0;
                        walks_with_more_trees(known, more, root, source);
                    },
                    None => {},
                }
                let b = overlay::base_of(known, root, d, names[0], path, redirect, opaque)->Ok_0;
                assert(overlay::base_of(more, root, d, names[0], path, redirect, opaque)->Ok_0 == b);
                match b.0 {
                    Some(h) => {
                        assert(more[h] == known[h]);
                    },
                    None => {},
                }
            },
            _ => {},
        }
    } else {
        match overlay::slot(d, names[0]) {
            Some(SlotView::Dir(c)) => {},
            _ => match overlay::inherited_subtree(d, names[0]) {
                Some(h) => {
                    assert(more[h] == known[h]);
                },
                None => {},
            },
        }
        let child = overlay::entered(known, d, names[0])->Ok_0.0;
        edits_with_more_trees(known, more, root, child, names.drop_first(), edit);
    }
}

proof fn applies_with_more_trees(known: Trees, more: Trees, root: Seq<char>, start: DirView, edits: Seq<NamedEdit>)
    requires
        known.submap_of(more),
        applied(known, root, start, edits) is Ok,
    ensures
        applied(more, root, start, edits) == applied(known, root, start, edits),
    decreases edits.len(),
{
    if edits.len() > 0 {
        applies_with_more_trees(known, more, root, start, edits.drop_last());
        let d = applied(known, root, start, edits.drop_last())->Ok_0;
        edits_with_more_trees(known, more, root, d, edits.last().names, edits.last().edit);
    }
}

/// Publishing a folded change set gives a root at which a reader finds, at every path, the view
/// that the changes describe. `known` are the trees that were read for the fold; `store` holds
/// those, and the trees that the plan wrote under `hashes`.
pub proof fn the_published_root_shows_the_described_view(
    known: Trees,
    store: Trees,
    root: Seq<char>,
    change: ChangeSet,
    metas: Seq<DirMeta>,
    jobs: Seq<JobView>,
    blobs: Seq<Seq<char>>,
    symlink_mode: u32,
    trees: Seq<Seq<PlannedView>>,
    hashes: Seq<Seq<char>>,
    path: Seq<Seq<char>>,
)
    requires
        known.submap_of(store),
        settle::folded_change(known, root, change, metas, jobs, blobs, symlink_mode) is Ok,
        change.directories@.len() == metas.len(),
        orderly(edits_of(change, metas, jobs, blobs, symlink_mode)),
        publish::children_first(trees),
        trees.len() > 0,
        publish::holds_plan(store, trees, hashes),
        publish::planned_at(store, trees, trees.len() - 1, path) == merged::node_at(
            store,
            settle::folded_change(known, root, change, metas, jobs, blobs, symlink_mode)->Ok_0.root,
            path,
        ),
        path.len() > 0,
    ensures
        merged::stored_at(store, hashes.last(), path) == left_at(
            store,
            root,
            changes(edits_of(change, metas, jobs, blobs, symlink_mode)),
            path,
        ),
{
    let edits = edits_of(change, metas, jobs, blobs, symlink_mode);
    let v = settle::folded_change(known, root, change, metas, jobs, blobs, symlink_mode)->Ok_0;
    let dirs = directory_edits(change.directories@, metas);
    let f = settle::folded_directories(known, root, change.directories@, metas)->Ok_0;
    directories_are_applied(known, root, change.directories@, metas);
    let start = overlay::fresh(known[root]);
    let g = settle::folded_written(known, root, f, jobs, blobs, symlink_mode)->Ok_0;
    writes_are_applied(known, root, start, dirs, f, jobs, blobs, symlink_mode);
    let deleted = text::byte_views(change.deleted@);
    deletions_are_applied(known, root, start, dirs + written_edits(jobs, blobs, symlink_mode), g, deleted);
    applies_with_more_trees(known, store, root, start, edits);
    assert(store[root] == known[root]);
    applied_as_listed(store, root, edits);
    orderly_listings_are_closed(edits);
    assert(path.take(0) =~= Seq::<Seq<char>>::empty());
    assert(path.skip(0) =~= path);
    shows_what_is_left(store, root, changes(edits), v.root, path, 0);
    publish::published_root_shows_the_merged_view(store, trees, hashes, v.root, path);
}

/// The tree that a listed directory inherits was read for the fold.
pub proof fn inherited_trees_are_known(
    known: Trees,
    store: Trees,
    root: Seq<char>,
    change: ChangeSet,
    metas: Seq<DirMeta>,
    jobs: Seq<JobView>,
    blobs: Seq<Seq<char>>,
    symlink_mode: u32,
    q: Seq<Seq<char>>,
)
    requires
        known.submap_of(store),
        settle::folded_change(known, root, change, metas, jobs, blobs, symlink_mode) is Ok,
        change.directories@.len() == metas.len(),
        orderly(edits_of(change, metas, jobs, blobs, symlink_mode)),
        q.len() == 0 || listed_dir(changes(edits_of(change, metas, jobs, blobs, symlink_mode)), q),
    ensures
        lower(store, root, changes(edits_of(change, metas, jobs, blobs, symlink_mode)), q) matches Some(t)
            ==> store.dom().contains(t),
{
    let edits = edits_of(change, metas, jobs, blobs, symlink_mode);
    let dirs = directory_edits(change.directories@, metas);
    let f = settle::folded_directories(known, root, change.directories@, metas)->Ok_0;
    directories_are_applied(known, root, change.directories@, metas);
    let start = overlay::fresh(known[root]);
    let g = settle::folded_written(known, root, f, jobs, blobs, symlink_mode)->Ok_0;
    writes_are_applied(known, root, start, dirs, f, jobs, blobs, symlink_mode);
    let deleted = text::byte_views(change.deleted@);
    deletions_are_applied(known, root, start, dirs + written_edits(jobs, blobs, symlink_mode), g, deleted);
    applies_with_more_trees(known, store, root, start, edits);
    assert(store[root] == known[root]);
    applied_as_listed(store, root, edits);
    let d = applied(store, root, start, edits)->Ok_0;
    assert(dir_at(d, q) is Some);
    assert(dir_as_listed(store, root, changes(edits), q, dir_at(d, q)->0));
}

/// What is listed at a path is the change that was made there.
pub proof fn changes_are_the_edits(edits: Seq<NamedEdit>)
    requires
        orderly(edits),
    ensures
        forall|i: int|
            #![trigger edits[i]]
            0 <= i < edits.len() ==> changes(edits).dom().contains(edits[i].names) && changes(edits)[edits[i].names]
                == edits[i].edit,
        forall|q: Seq<Seq<char>>| #[trigger]
            changes(edits).dom().contains(q) ==> exists|i: int| 0 <= i < edits.len() && (#[trigger] edits[i]).names == q,
    decreases edits.len(),
{
    if edits.len() > 0 {
        let rest = edits.drop_last();
        let n = edits.len() - 1;
        changes_are_the_edits(rest);
        assert(edits[n] == edits.last());
        assert forall|i: int| #![trigger edits[i]] 0 <= i < edits.len() implies changes(edits).dom().contains(edits[i].names)
            && changes(edits)[edits[i].names] == edits[i].edit by {
            if i < n {
                assert(rest[i] == edits[i]);
            }
        }
        assert forall|q: Seq<Seq<char>>| #[trigger] changes(edits).dom().contains(q) implies exists|i: int|
            0 <= i < edits.len() && (#[trigger] edits[i]).names == q by {
            if q == edits.last().names {
                assert(edits[n].names == q);
            } else {
                assert(changes(rest).dom().contains(q));
                let i = choose|i: int| 0 <= i < rest.len() && (#[trigger] rest[i]).names == q;
                assert(edits[i].names == q);
            }
        }
    }
}

} // verus!
