//! What a reader finds at a path: in a stored tree, and in a directory under construction; and
//! how each edit of such a directory changes that.

use crate::mark::TargetView;
use crate::overlay::{self, DirView, EditView, EntryView, SlotView, Trees};
use vstd::prelude::*;

verus! {

/// What stands at a path: a file or symlink, or a directory.
pub enum Fact {
    Leaf { blob: Seq<char>, mode: Option<u32>, mtime_ms: Option<i64> },
    Dir { mode: Option<u32>, mtime_ms: Option<i64> },
}

pub open spec fn entry_fact(e: EntryView) -> Fact {
    match e.target {
        TargetView::Blob(blob) => Fact::Leaf { blob, mode: e.mode, mtime_ms: e.mtime_ms },
        TargetView::Tree(_) => Fact::Dir { mode: e.mode, mtime_ms: e.mtime_ms },
    }
}

/// What an entry contributes at a path that starts with its name.
pub open spec fn below_entry(known: Trees, e: EntryView, path: Seq<Seq<char>>) -> Option<Fact>
    decreases path.len(), 0int,
{
    if path.len() <= 1 {
        Some(entry_fact(e))
    } else {
        match e.target {
            TargetView::Tree(sub) => stored_at(known, sub, path.drop_first()),
            TargetView::Blob(_) => None,
        }
    }
}

/// What stands at a path in a stored tree.
pub open spec fn stored_at(known: Trees, tree: Seq<char>, path: Seq<Seq<char>>) -> Option<Fact>
    decreases path.len(), 1int,
{
    if path.len() == 0 || !known.dom().contains(tree) {
        None
    } else {
        match overlay::entry_named(known[tree], path[0]) {
            Some(e) => below_entry(known, e, path),
            None => None,
        }
    }
}

/// The inherited entry that is still there.
pub open spec fn kept(d: DirView, name: Seq<char>) -> Option<EntryView> {
    if d.removed.contains(name) {
        None
    } else {
        overlay::entry_named(d.inherited, name)
    }
}

/// The mode and mtime a rebuilt directory is listed with: the upper layer's, or else those the
/// parent snapshot lists.
pub open spec fn dir_meta(d: DirView, name: Seq<char>, child: DirView) -> (Option<u32>, Option<i64>) {
    match child.meta {
        Some(m) => m,
        None => match kept(d, name) {
            Some(e) => (e.mode, e.mtime_ms),
            None => (None, None),
        },
    }
}

/// What stands at a path of a directory under construction.
pub open spec fn node_at(known: Trees, d: DirView, path: Seq<Seq<char>>) -> Option<Fact>
    decreases path.len(),
{
    if path.len() == 0 {
        None
    } else {
        match overlay::slot(d, path[0]) {
            Some(SlotView::Entry(e)) => below_entry(known, e, path),
            Some(SlotView::Dir(c)) => if path.len() == 1 {
                let m = dir_meta(d, path[0], *c);
                Some(Fact::Dir { mode: m.0, mtime_ms: m.1 })
            } else {
                node_at(known, *c, path.drop_first())
            },
            None => match kept(d, path[0]) {
                Some(e) => below_entry(known, e, path),
                None => None,
            },
        }
    }
}

/// A directory that inherits a tree and changes nothing shows that tree.
pub proof fn fresh_shows_the_tree(known: Trees, tree: Seq<char>, path: Seq<Seq<char>>)
    requires
        known.dom().contains(tree),
        path.len() > 0,
    ensures
        node_at(known, overlay::fresh(known[tree]), path) == stored_at(known, tree, path),
{
}

/// A directory with nothing inherited and nothing changed is empty.
pub proof fn fresh_and_bare_is_empty(known: Trees, path: Seq<Seq<char>>)
    ensures
        node_at(known, overlay::fresh(Seq::empty()), path) is None,
{
}

/// What changed at a path, found through directories under construction only.
pub open spec fn slot_at(d: DirView, names: Seq<Seq<char>>) -> Option<SlotView>
    decreases names.len(),
{
    if names.len() == 0 {
        None
    } else if names.len() == 1 {
        overlay::slot(d, names[0])
    } else {
        match overlay::slot(d, names[0]) {
            Some(SlotView::Dir(c)) => slot_at(*c, names.drop_first()),
            _ => None,
        }
    }
}

/// The way to a path leads through directories: none of the names on it was replaced by a file
/// or removed.
pub open spec fn passable(d: DirView, names: Seq<Seq<char>>) -> bool
    decreases names.len(),
{
    if names.len() <= 1 {
        true
    } else {
        match overlay::slot(d, names[0]) {
            Some(SlotView::Dir(c)) => passable(*c, names.drop_first()),
            Some(SlotView::Entry(_)) => false,
            None => !d.removed.contains(names[0]),
        }
    }
}

/// The two paths part: neither leads through the other.
pub open spec fn part(a: Seq<Seq<char>>, b: Seq<Seq<char>>) -> bool
    decreases a.len(),
{
    a.len() > 0 && b.len() > 0 && (a[0] != b[0] || part(a.drop_first(), b.drop_first()))
}

/// A written path shows what was written.
pub proof fn put_shows_the_entry(known: Trees, root: Seq<char>, d: DirView, names: Seq<Seq<char>>, e: EntryView)
    requires
        names.len() > 0,
    ensures
        overlay::edited(known, root, d, names, EditView::Put(e)) matches Ok(x) ==> node_at(known, x.dir, names) == Some(
            entry_fact(e),
        ),
    decreases names.len(),
{
    if let Ok(x) = overlay::edited(known, root, d, names, EditView::Put(e)) {
        if names.len() == 1 {
            overlay::with_slot_replaces_one_name(d, names[0], SlotView::Entry(e), names[0]);
        } else {
            let (child, reads) = overlay::entered(known, d, names[0])->Ok_0;
            put_shows_the_entry(known, root, child, names.drop_first(), e);
            let inner = overlay::edited(known, root, child, names.drop_first(), EditView::Put(e))->Ok_0;
            overlay::with_slot_replaces_one_name(d, names[0], SlotView::Dir(Box::new(inner.dir)), names[0]);
        }
    }
}

/// A whiteout hides the path and everything below it, unless something was written there.
pub proof fn removal_hides_the_path(
    known: Trees,
    root: Seq<char>,
    d: DirView,
    names: Seq<Seq<char>>,
    below: Seq<Seq<char>>,
)
    requires
        names.len() > 0,
        slot_at(d, names) is None,
    ensures
        overlay::edited(known, root, d, names, EditView::Remove) matches Ok(x) ==> node_at(known, x.dir, names + below)
            is None,
    decreases names.len(),
{
    if let Ok(x) = overlay::edited(known, root, d, names, EditView::Remove) {
        let path = names + below;
        assert(path[0] == names[0]);
        if names.len() == 1 {
            assert(x.dir.removed.last() == names[0]);
            assert(x.dir.removed.contains(names[0]));
            assert(overlay::slot(x.dir, names[0]) is None);
        } else {
            let (child, reads) = overlay::entered(known, d, names[0])->Ok_0;
            let rest = names.drop_first();
            assert(path.drop_first() =~= rest + below);
            let inner = overlay::edited(known, root, child, rest, EditView::Remove)->Ok_0;
            overlay::with_slot_replaces_one_name(d, names[0], SlotView::Dir(Box::new(inner.dir)), names[0]);
            if overlay::slot(d, names[0]) is Some && overlay::slot(d, names[0])->0 is Dir {
            } else {
                fresh_has_no_slots(child, rest);
            }
            removal_hides_the_path(known, root, child, rest, below);
        }
    }
}

proof fn fresh_has_no_slots(d: DirView, names: Seq<Seq<char>>)
    requires
        d == overlay::fresh(d.inherited),
    ensures
        slot_at(d, names) is None,
        passable(d, names),
{
    if names.len() > 0 {
        assert(overlay::slot(d, names[0]) is None);
        assert(!d.removed.contains(names[0]));
    }
}

/// The directory under construction that holds the last name, as an edit of `names` finds it.
pub open spec fn holder(known: Trees, d: DirView, names: Seq<Seq<char>>) -> DirView
    decreases names.len(),
{
    if names.len() <= 1 {
        d
    } else {
        match overlay::entered(known, d, names[0]) {
            Ok((child, _)) => holder(known, child, names.drop_first()),
            Err(_) => d,
        }
    }
}

/// A directory the upper layer holds, where none was under construction, shows exactly its base:
/// nothing where it is opaque, the parent snapshot's subtree at the recorded source where it was
/// renamed, and else what the directory around it inherits at that name. Its own mode and mtime
/// are the upper layer's.
pub proof fn directory_shows_its_base(
    known: Trees,
    root: Seq<char>,
    d: DirView,
    names: Seq<Seq<char>>,
    path: Seq<u8>,
    redirect: Option<Seq<u8>>,
    opaque: bool,
    meta: (u32, Option<i64>),
    below: Seq<Seq<char>>,
)
    requires
        names.len() > 0,
        !(slot_at(d, names) matches Some(SlotView::Dir(_))),
    ensures
        overlay::edited(known, root, d, names, EditView::Directory { path, redirect, opaque, meta: Ok(meta) }) matches Ok(x)
            ==> {
            &&& node_at(known, x.dir, names) == Some(
                Fact::Dir { mode: Some(meta.0 & overlay::PERMISSION_BITS), mtime_ms: meta.1 },
            )
            &&& overlay::base_of(known, root, holder(known, d, names), names.last(), path, redirect, opaque) matches Ok(b)
                && (below.len() > 0 ==> node_at(known, x.dir, names + below) == (match b.0 {
                Some(tree) => stored_at(known, tree, below),
                None => None,
            }))
        },
    decreases names.len(),
{
    let edit = EditView::Directory { path, redirect, opaque, meta: Ok(meta) };
    if let Ok(x) = overlay::edited(known, root, d, names, edit) {
        let full = names + below;
        assert(full[0] == names[0]);
        if names.len() == 1 {
            assert(names.last() == names[0]);
            let b = overlay::base_of(known, root, d, names[0], path, redirect, opaque)->Ok_0;
            let entries = overlay::base_entries(known, b.0)->Ok_0.0;
            let child = overlay::rebased(d, names[0], entries, meta);
            overlay::with_slot_replaces_one_name(d, names[0], SlotView::Dir(Box::new(child)), names[0]);
            if below.len() > 0 {
                assert(full.drop_first() =~= below);
                same_but_meta(known, child, overlay::fresh(entries), below);
            }
        } else {
            let (child, reads) = overlay::entered(known, d, names[0])->Ok_0;
            let rest = names.drop_first();
            assert(full.drop_first() =~= rest + below);
            assert(rest.last() == names.last());
            let inner = overlay::edited(known, root, child, rest, edit)->Ok_0;
            overlay::with_slot_replaces_one_name(d, names[0], SlotView::Dir(Box::new(inner.dir)), names[0]);
            if !(overlay::slot(d, names[0]) matches Some(SlotView::Dir(_))) {
                fresh_has_no_slots(child, rest);
            }
            directory_shows_its_base(known, root, child, rest, path, redirect, opaque, meta, below);
        }
    }
}

proof fn same_but_meta(known: Trees, a: DirView, b: DirView, path: Seq<Seq<char>>)
    requires
        a.inherited == b.inherited,
        a.changed == b.changed,
        a.removed == b.removed,
    ensures
        node_at(known, a, path) == node_at(known, b, path),
{
}

/// An edit changes nothing at a path that parts from its own.
pub proof fn edits_stay_on_their_path(
    known: Trees,
    root: Seq<char>,
    d: DirView,
    names: Seq<Seq<char>>,
    edit: EditView,
    other: Seq<Seq<char>>,
)
    requires
        passable(d, names),
        part(names, other),
    ensures
        overlay::edited(known, root, d, names, edit) matches Ok(x) ==> node_at(known, x.dir, other) == node_at(
            known,
            d,
            other,
        ),
    decreases names.len(),
{
    if let Ok(x) = overlay::edited(known, root, d, names, edit) {
        if names.len() == 1 {
            assert(!part(names.drop_first(), other.drop_first()));
            here_leaves_other_names(known, root, d, names[0], edit, other);
        } else {
            let (child, reads) = overlay::entered(known, d, names[0])->Ok_0;
            let rest = names.drop_first();
            let inner = overlay::edited(known, root, child, rest, edit)->Ok_0;
            overlay::with_slot_replaces_one_name(d, names[0], SlotView::Dir(Box::new(inner.dir)), other[0]);
            if other[0] == names[0] {
                let tail = other.drop_first();
                assert(part(rest, tail));
                match overlay::slot(d, names[0]) {
                    Some(SlotView::Dir(c)) => {},
                    _ => {
                        fresh_has_no_slots(child, rest);
                        entering_shows_the_same(known, d, names[0], other);
                    },
                }
                edits_stay_on_their_path(known, root, child, rest, edit, tail);
            }
        }
    }
}

proof fn entering_shows_the_same(known: Trees, d: DirView, name: Seq<char>, other: Seq<Seq<char>>)
    requires
        other.len() > 1,
        other[0] == name,
        overlay::slot(d, name) is None,
        !d.removed.contains(name),
        overlay::entered(known, d, name) is Ok,
    ensures
        node_at(known, overlay::entered(known, d, name)->Ok_0.0, other.drop_first()) == node_at(known, d, other),
{
    match overlay::inherited_subtree(d, name) {
        Some(h) => {
            fresh_shows_the_tree(known, h, other.drop_first());
        },
        None => {
            fresh_and_bare_is_empty(known, other.drop_first());
        },
    }
}

proof fn here_leaves_other_names(
    known: Trees,
    root: Seq<char>,
    d: DirView,
    name: Seq<char>,
    edit: EditView,
    other: Seq<Seq<char>>,
)
    requires
        other.len() > 0,
        other[0] != name,
    ensures
        overlay::edited_here(known, root, d, name, edit) matches Ok(x) ==> node_at(known, x.dir, other) == node_at(
            known,
            d,
            other,
        ),
{
    if let Ok(x) = overlay::edited_here(known, root, d, name, edit) {
        match edit {
            EditView::Remove => {
                assert(x.dir.removed.contains(other[0]) == d.removed.contains(other[0])) by {
                    if d.removed.contains(other[0]) {
                        let i = choose|i: int| 0 <= i < d.removed.len() && d.removed[i] == other[0];
                        assert(x.dir.removed[i] == other[0]);
                    }
                }
                assert(overlay::slot(x.dir, other[0]) == overlay::slot(d, other[0]));
            },
            _ => {
                match edit {
                    EditView::Put(e) => {
                        overlay::with_slot_replaces_one_name(d, name, SlotView::Entry(e), other[0]);
                    },
                    EditView::Directory { path, redirect, opaque, meta } => {
                        let b = overlay::base_of(known, root, d, name, path, redirect, opaque)->Ok_0;
                        let entries = overlay::base_entries(known, b.0)->Ok_0.0;
                        overlay::with_slot_replaces_one_name(
                            d,
                            name,
                            SlotView::Dir(Box::new(overlay::rebased(d, name, entries, meta->Ok_0))),
                            other[0],
                        );
                    },
                    EditView::Remove => {},
                }
            },
        }
    }
}

/// An edit leaves a directory above its path as it is listed: the directories on the way that it
/// rebuilds on demand keep the mode and mtime the parent snapshot lists.
pub proof fn edits_keep_directories_above(
    known: Trees,
    root: Seq<char>,
    d: DirView,
    names: Seq<Seq<char>>,
    edit: EditView,
    n: int,
)
    requires
        passable(d, names),
        0 < n < names.len(),
        node_at(known, d, names.take(n)) matches Some(Fact::Dir { .. }),
    ensures
        overlay::edited(known, root, d, names, edit) matches Ok(x) ==> node_at(known, x.dir, names.take(n)) == node_at(
            known,
            d,
            names.take(n),
        ),
    decreases names.len(),
{
    if let Ok(x) = overlay::edited(known, root, d, names, edit) {
        let above = names.take(n);
        let (child, reads) = overlay::entered(known, d, names[0])->Ok_0;
        let rest = names.drop_first();
        let inner = overlay::edited(known, root, child, rest, edit)->Ok_0;
        overlay::with_slot_replaces_one_name(d, names[0], SlotView::Dir(Box::new(inner.dir)), names[0]);
        assert(above[0] == names[0]);
        if n == 1 {
            meta_survives(known, root, child, rest, edit);
        } else {
            assert(above.drop_first() =~= rest.take(n - 1));
            match overlay::slot(d, names[0]) {
                Some(SlotView::Dir(c)) => {},
                _ => {
                    fresh_has_no_slots(child, rest);
                    entering_shows_the_same(known, d, names[0], above);
                },
            }
            edits_keep_directories_above(known, root, child, rest, edit, n - 1);
        }
    }
}

proof fn meta_survives(known: Trees, root: Seq<char>, d: DirView, names: Seq<Seq<char>>, edit: EditView)
    ensures
        overlay::edited(known, root, d, names, edit) matches Ok(x) ==> x.dir.meta == d.meta,
{
}

} // verus!
