//! The trees a fold writes, children first, and the inventory an archival flush offers: every
//! blob the written trees name, and every tree the new root reaches, deepest first.

use crate::mark::{TargetView, TreeTarget};
use crate::merged::{self, Fact};
use crate::overlay::{self, DirNode, DirView, EntryView, Slot, SlotView, TreeEntry, Trees};
use crate::settle::Fold;
use crate::text;
use vstd::prelude::*;

verus! {

/// What an entry of a tree to be written points at: a blob, a tree of the parent snapshot taken
/// by address, or an earlier one of the trees to be written.
#[derive(Debug)]
pub enum PlannedTarget {
    Blob(String),
    Inherited(String),
    Rebuilt(usize),
}

#[derive(Debug)]
pub struct PlannedEntry {
    pub name: String,
    pub target: PlannedTarget,
    pub mode: Option<u32>,
    pub mtime_ms: Option<i64>,
}

/// A tree to be written.
#[derive(Debug)]
pub struct PlannedTree {
    pub entries: Vec<PlannedEntry>,
}

/// The mathematical model of a [`PlannedTarget`].
pub enum PlannedTargetView {
    Blob(Seq<char>),
    Inherited(Seq<char>),
    Rebuilt(int),
}

/// The mathematical model of a [`PlannedEntry`].
pub struct PlannedView {
    pub name: Seq<char>,
    pub target: PlannedTargetView,
    pub mode: Option<u32>,
    pub mtime_ms: Option<i64>,
}

impl View for PlannedEntry {
    type V = PlannedView;

    open spec fn view(&self) -> PlannedView {
        PlannedView {
            name: self.name@,
            target: match self.target {
                PlannedTarget::Blob(h) => PlannedTargetView::Blob(h@),
                PlannedTarget::Inherited(h) => PlannedTargetView::Inherited(h@),
                PlannedTarget::Rebuilt(i) => PlannedTargetView::Rebuilt(i as int),
            },
            mode: self.mode,
            mtime_ms: self.mtime_ms,
        }
    }
}

pub open spec fn planned_views(v: Seq<PlannedEntry>) -> Seq<PlannedView> {
    v.map_values(|e: PlannedEntry| e@)
}

pub open spec fn plan_views(v: Seq<PlannedTree>) -> Seq<Seq<PlannedView>> {
    v.map_values(|t: PlannedTree| planned_views(t.entries@))
}

/// The entry with a name.
pub open spec fn planned_named(entries: Seq<PlannedView>, name: Seq<char>) -> Option<PlannedView> {
    if exists|i: int| 0 <= i < entries.len() && (#[trigger] entries[i]).name == name {
        Some(entries[choose|i: int| 0 <= i < entries.len() && (#[trigger] entries[i]).name == name])
    } else {
        None
    }
}

/// The entries stand in the order of their names, each name once.
pub open spec fn in_name_order(entries: Seq<PlannedView>) -> bool {
    forall|i: int, j: int|
        #![trigger entries[i], entries[j]]
        0 <= i < j < entries.len() ==> text::lex_le(entries[i].name, entries[j].name) && entries[i].name != entries[j].name
}

proof fn found_by_index(entries: Seq<PlannedView>, i: int)
    requires
        in_name_order(entries),
        0 <= i < entries.len(),
    ensures
        planned_named(entries, entries[i].name) == Some(entries[i]),
{
    let k = choose|k: int| 0 <= k < entries.len() && (#[trigger] entries[k]).name == entries[i].name;
    if k < i {
        assert(entries[k].name != entries[i].name);
    } else if i < k {
        assert(entries[i].name != entries[k].name);
    }
}

/// What a planned entry of a snapshot entry is.
pub open spec fn taken_over(e: EntryView) -> PlannedView {
    PlannedView {
        name: e.name,
        target: match e.target {
            TargetView::Blob(h) => PlannedTargetView::Blob(h),
            TargetView::Tree(h) => PlannedTargetView::Inherited(h),
        },
        mode: e.mode,
        mtime_ms: e.mtime_ms,
    }
}

/// Puts an entry in its place, for the one with its name if there is one.
fn place(entries: &mut Vec<PlannedEntry>, e: PlannedEntry)
    requires
        in_name_order(planned_views(old(entries)@)),
    ensures
        in_name_order(planned_views(final(entries)@)),
        forall|name: Seq<char>|
            #[trigger] planned_named(planned_views(final(entries)@), name) == (if name == e@.name {
                Some(e@)
            } else {
                planned_named(planned_views(old(entries)@), name)
            }),
{
    let ghost before = planned_views(entries@);
    let ghost ev = e@;
    let mut i: usize = 0;
    while i < entries.len() && !text::str_le(e.name.as_str(), entries[i].name.as_str())
        invariant
            i <= entries@.len(),
            before == planned_views(entries@),
            ev == e@,
            forall|j: int| 0 <= j < i ==> !text::lex_le(ev.name, (#[trigger] before[j]).name),
        decreases entries@.len() - i,
    {
        i = i + 1;
    }
    let ghost k = i as int;
    if i < entries.len() && entries[i].name == e.name {
        entries.set(i, e);
        let ghost after = planned_views(entries@);
        proof {
            assert(after =~= before.update(k, ev));
            assert forall|a: int, b: int| #![trigger after[a], after[b]] 0 <= a < b < after.len() implies text::lex_le(
                after[a].name,
                after[b].name,
            ) && after[a].name != after[b].name by {
                assert(after[a].name == before[a].name && after[b].name == before[b].name);
                assert(text::lex_le(before[a].name, before[b].name));
            }
            assert forall|name: Seq<char>| #[trigger] planned_named(after, name) == (if name == ev.name {
                Some(ev)
            } else {
                planned_named(before, name)
            }) by {
                same_lookup(before, after, name, k, |j: int| j, |j: int| j);
            }
        }
    } else {
        entries.insert(i, e);
        let ghost after = planned_views(entries@);
        proof {
            assert(after =~= before.insert(k, ev));
            assert forall|j: int| 0 <= j < k implies text::lex_le((#[trigger] before[j]).name, ev.name) && before[j].name
                != ev.name by {
                text::lex_le_total(before[j].name, ev.name);
                text::lex_le_reflexive(ev.name);
            }
            assert forall|j: int| k <= j < before.len() implies text::lex_le(ev.name, (#[trigger] before[j]).name)
                && before[j].name != ev.name by {
                assert(text::lex_le(ev.name, before[k].name) && before[k].name != ev.name);
                if j > k {
                    assert(text::lex_le(before[k].name, before[j].name));
                    text::lex_le_transitive(ev.name, before[k].name, before[j].name);
                    if before[j].name == ev.name {
                        text::lex_le_antisymmetric(before[k].name, ev.name);
                    }
                }
            }
            assert forall|a: int, b: int| #![trigger after[a], after[b]] 0 <= a < b < after.len() implies text::lex_le(
                after[a].name,
                after[b].name,
            ) && after[a].name != after[b].name by {
                let ba = if a < k {
                    a
                } else {
                    a - 1
                };
                let bb = if b < k {
                    b
                } else {
                    b - 1
                };
                if a != k {
                    assert(after[a] == before[ba]);
                }
                if b != k {
                    assert(after[b] == before[bb]);
                }
                if a != k && b != k {
                    assert(text::lex_le(before[ba].name, before[bb].name));
                }
            }
            assert forall|name: Seq<char>| #[trigger] planned_named(after, name) == (if name == ev.name {
                Some(ev)
            } else {
                planned_named(before, name)
            }) by {
                same_lookup(
                    before,
                    after,
                    name,
                    k,
                    |j: int|
                        if j < k {
                            j
                        } else {
                            j + 1
                        },
                    |j: int|
                        if j < k {
                            j
                        } else {
                            j - 1
                        },
                );
            }
        }
    }
}

proof fn same_lookup(
    before: Seq<PlannedView>,
    after: Seq<PlannedView>,
    name: Seq<char>,
    k: int,
    forth: spec_fn(int) -> int,
    back: spec_fn(int) -> int,
)
    requires
        in_name_order(before),
        in_name_order(after),
        0 <= k < after.len(),
        forall|j: int|
            0 <= j < before.len() && (#[trigger] before[j]).name != after[k].name ==> 0 <= forth(j) < after.len()
                && after[forth(j)] == before[j],
        forall|j: int|
            0 <= j < after.len() && j != k ==> 0 <= back(j) < before.len() && before[back(j)] == #[trigger] after[j],
    ensures
        planned_named(after, name) == (if name == after[k].name {
            Some(after[k])
        } else {
            planned_named(before, name)
        }),
{
    if name == after[k].name {
        found_by_index(after, k);
    } else if exists|j: int| 0 <= j < before.len() && (#[trigger] before[j]).name == name {
        let j = choose|j: int| 0 <= j < before.len() && (#[trigger] before[j]).name == name;
        found_by_index(before, j);
        found_by_index(after, forth(j));
    } else if exists|i: int| 0 <= i < after.len() && (#[trigger] after[i]).name == name {
        let i = choose|i: int| 0 <= i < after.len() && (#[trigger] after[i]).name == name;
        assert(before[back(i)].name == name);
    }
}

/// What a reader finds at a path of tree `idx` of the plan, once it is written.
pub open spec fn planned_at(known: Trees, trees: Seq<Seq<PlannedView>>, idx: int, path: Seq<Seq<char>>) -> Option<Fact>
    decreases path.len(),
{
    if path.len() == 0 || !(0 <= idx < trees.len()) {
        None
    } else {
        match planned_named(trees[idx], path[0]) {
            None => None,
            Some(e) => match e.target {
                PlannedTargetView::Blob(blob) => if path.len() == 1 {
                    Some(Fact::Leaf { blob, mode: e.mode, mtime_ms: e.mtime_ms })
                } else {
                    None
                },
                PlannedTargetView::Inherited(h) => if path.len() == 1 {
                    Some(Fact::Dir { mode: e.mode, mtime_ms: e.mtime_ms })
                } else {
                    merged::stored_at(known, h, path.drop_first())
                },
                PlannedTargetView::Rebuilt(j) => if path.len() == 1 {
                    Some(Fact::Dir { mode: e.mode, mtime_ms: e.mtime_ms })
                } else {
                    planned_at(known, trees, j, path.drop_first())
                },
            },
        }
    }
}

/// Every tree of a plan lists its entries in name order and points only at earlier trees.
pub open spec fn children_first(trees: Seq<Seq<PlannedView>>) -> bool {
    forall|i: int| 0 <= i < trees.len() ==> in_name_order(#[trigger] trees[i]) && points_before(trees[i], i)
}

pub open spec fn points_before(entries: Seq<PlannedView>, i: int) -> bool {
    forall|k: int| 0 <= k < entries.len() ==> ((#[trigger] entries[k]).target matches PlannedTargetView::Rebuilt(j) ==> 0 <= j < i)
}

proof fn longer_plans_read_the_same(
    known: Trees,
    trees: Seq<Seq<PlannedView>>,
    more: Seq<Seq<PlannedView>>,
    idx: int,
    path: Seq<Seq<char>>,
)
    requires
        children_first(trees),
        trees.len() <= more.len(),
        more.take(trees.len() as int) == trees,
        0 <= idx < trees.len(),
    ensures
        planned_at(known, more, idx, path) == planned_at(known, trees, idx, path),
    decreases path.len(),
{
    assert(more.take(trees.len() as int)[idx] == more[idx]);
    if path.len() > 1 {
        if let Some(e) = planned_named(trees[idx], path[0]) {
            let k = choose|k: int| 0 <= k < trees[idx].len() && (#[trigger] trees[idx][k]).name == path[0];
            assert(points_before(trees[idx], idx));
            assert(trees[idx][k] == e);
            if let PlannedTargetView::Rebuilt(j) = e.target {
                longer_plans_read_the_same(known, trees, more, j, path.drop_first());
            }
        }
    }
}

/// How many directories are under construction: the directory and those in its slots.
pub open spec fn dir_count(d: DirView) -> nat
    decreases d,
{
    1 + dirs_among(d.changed)
}

pub open spec fn dirs_among(changed: Seq<(Seq<char>, SlotView)>) -> nat
    decreases changed,
{
    if changed.len() == 0 {
        0
    } else {
        dirs_among(changed.drop_last()) + (match changed.last().1 {
            SlotView::Dir(c) => dir_count(*c),
            SlotView::Entry(_) => 0,
        })
    }
}

/// `d` with only its slots from `i` on.
pub open spec fn slots_from(d: DirView, i: int) -> DirView {
    DirView { changed: d.changed.skip(i), ..d }
}

proof fn slot_behind(d: DirView, i: int, name: Seq<char>)
    requires
        0 <= i < d.changed.len(),
    ensures
        overlay::slot(slots_from(d, i), name) == (if d.changed[i].0 == name {
            Some(d.changed[i].1)
        } else {
            overlay::slot(slots_from(d, i + 1), name)
        }),
{
    let now = d.changed.skip(i);
    let rest = d.changed.skip(i + 1);
    assert(now[0] == d.changed[i]);
    assert(forall|j: int| 0 <= j < rest.len() ==> #[trigger] rest[j] == now[j + 1]);
    assert(forall|j: int| 1 <= j < now.len() ==> #[trigger] now[j] == rest[j - 1]);
    overlay::slot_index_is_first(now, name);
    overlay::slot_index_is_first(rest, name);
}

/// The listing `entries`, read beside the trees already planned.
pub open spec fn listing_at(
    known: Trees,
    trees: Seq<Seq<PlannedView>>,
    entries: Seq<PlannedView>,
    path: Seq<Seq<char>>,
) -> Option<Fact> {
    planned_at(known, trees.push(entries), trees.len() as int, path)
}

/// Placing the entry of one slot makes the listing show that slot too.
proof fn slot_is_shown(
    known: Trees,
    d: DirView,
    i: int,
    trees: Seq<Seq<PlannedView>>,
    more: Seq<Seq<PlannedView>>,
    before: Seq<PlannedView>,
    after: Seq<PlannedView>,
    p: PlannedView,
    path: Seq<Seq<char>>,
)
    requires
        0 <= i < d.changed.len(),
        path.len() > 0,
        children_first(trees),
        children_first(more),
        trees.len() <= more.len(),
        more.take(trees.len() as int) == trees,
        points_before(before, trees.len() as int),
        p.name == d.changed[i].0,
        planned_named(after, path[0]) == (if path[0] == p.name {
            Some(p)
        } else {
            planned_named(before, path[0])
        }),
        listing_at(known, trees, before, path) == merged::node_at(known, slots_from(d, i + 1), path),
        match d.changed[i].1 {
            SlotView::Entry(e) => p.target == taken_over(e).target && p.mode == e.mode && p.mtime_ms == e.mtime_ms,
            SlotView::Dir(c) => {
                &&& p.target == PlannedTargetView::Rebuilt(more.len() - 1)
                &&& more.len() > 0
                &&& (p.mode, p.mtime_ms) == merged::dir_meta(d, p.name, *c)
                &&& planned_at(known, more, more.len() - 1, path.drop_first()) == merged::node_at(
                    known,
                    *c,
                    path.drop_first(),
                )
            },
        },
    ensures
        listing_at(known, more, after, path) == merged::node_at(known, slots_from(d, i), path),
{
    slot_behind(d, i, path[0]);
    let full = more.push(after);
    let old_full = trees.push(before);
    assert(full[more.len() as int] == after);
    assert(old_full[trees.len() as int] == before);
    assert(full.take(more.len() as int) =~= more);
    if path[0] == p.name {
        if path.len() > 1 && d.changed[i].1 is Dir {
            longer_plans_read_the_same(known, more, full, more.len() - 1, path.drop_first());
        }
    } else {
        if path.len() > 1 {
            if let Some(e) = planned_named(before, path[0]) {
                let k = choose|k: int| 0 <= k < before.len() && (#[trigger] before[k]).name == path[0];
                assert(before[k] == e);
                if let PlannedTargetView::Rebuilt(j) = e.target {
                    assert(old_full.take(trees.len() as int) =~= trees);
                    assert(full.take(trees.len() as int) =~= more.take(trees.len() as int));
                    longer_plans_read_the_same(known, trees, old_full, j, path.drop_first());
                    longer_plans_read_the_same(known, trees, full, j, path.drop_first());
                }
            }
        }
    }
}

/// The inherited entries that were not removed, in name order.
fn kept_entries(node: &DirNode) -> (r: Vec<PlannedEntry>)
    ensures
        in_name_order(planned_views(r@)),
        points_before(planned_views(r@), 0),
        forall|name: Seq<char>|
            #[trigger] planned_named(planned_views(r@), name) == (match merged::kept(overlay::node_view(*node), name) {
                Some(e) => Some(taken_over(e)),
                None => None,
            }),
{
    let ghost d = overlay::node_view(*node);
    let ghost all = d.inherited;
    let mut r: Vec<PlannedEntry> = Vec::new();
    let mut i: usize = node.inherited.len();
    proof {
        assert(all.skip(i as int) =~= Seq::<EntryView>::empty());
    }
    while i > 0
        invariant
            i <= node.inherited@.len(),
            d == overlay::node_view(*node),
            all == d.inherited,
            in_name_order(planned_views(r@)),
            points_before(planned_views(r@), 0),
            forall|name: Seq<char>|
                #[trigger] planned_named(planned_views(r@), name) == (if d.removed.contains(name) {
                    None
                } else {
                    match overlay::entry_named(all.skip(i as int), name) {
                        Some(e) => Some(taken_over(e)),
                        None => None,
                    }
                }),
        decreases i,
    {
        i = i - 1;
        let ghost before = planned_views(r@);
        let e = &node.inherited[i];
        let ghost ev = e@;
        let gone = text::contains_string(&node.removed, e.name.as_str());
        proof {
            assert forall|name: Seq<char>|
                #[trigger] overlay::entry_named(all.skip(i as int), name) == (if ev.name == name {
                    Some(ev)
                } else {
                    overlay::entry_named(all.skip(i + 1), name)
                }) by {
                assert(all.skip(i as int) =~= seq![ev] + all.skip(i + 1));
                first_then_rest(ev, all.skip(i + 1), name);
            }
        }
        if !gone {
            let p = PlannedEntry {
                name: e.name.clone(),
                target: match &e.target {
                    TreeTarget::Blob(h) => PlannedTarget::Blob(h.clone()),
                    TreeTarget::Tree(h) => PlannedTarget::Inherited(h.clone()),
                },
                mode: e.mode,
                mtime_ms: e.mtime_ms,
            };
            let ghost pv = p@;
            assert(pv == taken_over(ev));
            place(&mut r, p);
            proof {
                let after = planned_views(r@);
                assert forall|k: int| 0 <= k < after.len() implies !((#[trigger] after[k]).target is Rebuilt) by {
                    found_by_index(after, k);
                    let n = after[k].name;
                    assert(planned_named(after, n) == Some(after[k]));
                    if n != pv.name {
                        let m = choose|m: int| 0 <= m < before.len() && (#[trigger] before[m]).name == n;
                        assert(planned_named(before, n) == Some(after[k]));
                        assert(before[m] == after[k]);
                    }
                }
            }
        }
    }
    proof {
        assert(all.skip(0) =~= all);
    }
    r
}

proof fn first_then_rest(e: EntryView, rest: Seq<EntryView>, name: Seq<char>)
    ensures
        overlay::entry_named(seq![e] + rest, name) == (if e.name == name {
            Some(e)
        } else {
            overlay::entry_named(rest, name)
        }),
    decreases rest.len(),
{
    let all = seq![e] + rest;
    if rest.len() == 0 {
        assert(all =~= seq![e]);
        assert(all.drop_last() =~= Seq::<EntryView>::empty());
        reveal_with_fuel(overlay::entry_named, 2);
    } else {
        assert(all.drop_last() =~= seq![e] + rest.drop_last());
        first_then_rest(e, rest.drop_last(), name);
    }
}

/// The mode and mtime a rebuilt directory is listed with.
fn listed_meta(node: &DirNode, name: &String, child: &DirNode) -> (r: (Option<u32>, Option<i64>))
    ensures
        r == merged::dir_meta(overlay::node_view(*node), name@, overlay::node_view(*child)),
{
    match child.meta {
        Some(m) => m,
        None => if text::contains_string(&node.removed, name.as_str()) {
            (None, None)
        } else {
            match overlay::find_entry(&node.inherited, name) {
                Some(i) => (node.inherited[i].mode, node.inherited[i].mtime_ms),
                None => (None, None),
            }
        },
    }
}

/// Plans the trees of a directory under construction behind those already planned, each after the
/// ones it points at, and returns the index of its own.
#[verifier::rlimit(60)]
pub fn plan_dir(node: &DirNode, out: &mut Vec<PlannedTree>) -> (idx: usize)
    requires
        children_first(plan_views(old(out)@)),
    ensures
        children_first(plan_views(final(out)@)),
        final(out)@.len() == old(out)@.len() + dir_count(overlay::node_view(*node)),
        idx == final(out)@.len() - 1,
        plan_views(final(out)@).take(old(out)@.len() as int) == plan_views(old(out)@),
        forall|known: Trees, path: Seq<Seq<char>>|
            #[trigger] planned_at(known, plan_views(final(out)@), idx as int, path) == merged::node_at(
                known,
                overlay::node_view(*node),
                path,
            ),
    decreases *node,
{
    let ghost d = overlay::node_view(*node);
    let ghost start = plan_views(out@);
    let mut entries = kept_entries(node);
    let mut i: usize = node.changed.len();
    proof {
        let es = planned_views(entries@);
        assert forall|known: Trees, path: Seq<Seq<char>>|
            path.len() > 0 implies #[trigger] listing_at(known, start, es, path) == merged::node_at(
            known,
            slots_from(d, i as int),
            path,
        ) by {
            assert(slots_from(d, i as int).changed =~= Seq::<(Seq<char>, SlotView)>::empty());
            assert(start.push(es)[start.len() as int] == es);
            assert(overlay::slot(slots_from(d, i as int), path[0]) is None);
            assert(planned_named(es, path[0]) == (match merged::kept(d, path[0]) {
                Some(e) => Some(taken_over(e)),
                None => None,
            }));
        }
        assert(d.changed.take(i as int) =~= d.changed);
        assert(start.take(start.len() as int) =~= start);
    }
    while i > 0
        invariant
            i <= node.changed@.len(),
            d == overlay::node_view(*node),
            children_first(plan_views(out@)),
            start.len() <= out@.len(),
            plan_views(out@).take(start.len() as int) == start,
            out@.len() == start.len() + dirs_among(d.changed) - dirs_among(d.changed.take(i as int)),
            in_name_order(planned_views(entries@)),
            points_before(planned_views(entries@), out@.len() as int),
            forall|known: Trees, path: Seq<Seq<char>>|
                path.len() > 0 ==> #[trigger] listing_at(known, plan_views(out@), planned_views(entries@), path)
                    == merged::node_at(known, slots_from(d, i as int), path),
        decreases i,
    {
        i = i - 1;
        let ghost trees = plan_views(out@);
        let ghost before = planned_views(entries@);
        let (name, slot) = &node.changed[i];
        let ghost sv = d.changed[i as int].1;
        assert(d.changed.take(i + 1).drop_last() =~= d.changed.take(i as int));
        let p = match slot {
            Slot::Entry(e) => PlannedEntry {
                name: name.clone(),
                target: match &e.target {
                    TreeTarget::Blob(h) => PlannedTarget::Blob(h.clone()),
                    TreeTarget::Tree(h) => PlannedTarget::Inherited(h.clone()),
                },
                mode: e.mode,
                mtime_ms: e.mtime_ms,
            },
            Slot::Dir(c) => {
                let meta = listed_meta(node, name, c);
                assert(decreases_to!(*node => node.changed));
                assert(decreases_to!(node.changed => node.changed@));
                assert(decreases_to!(node.changed@ => node.changed@[i as int]));
                assert(decreases_to!(node.changed@[i as int] => node.changed@[i as int].1));
                assert(decreases_to!(node.changed@[i as int].1 => node.changed@[i as int].1->Dir_0));
                let child = plan_dir(c, out);
                PlannedEntry {
                    name: name.clone(),
                    target: PlannedTarget::Rebuilt(child),
                    mode: meta.0,
                    mtime_ms: meta.1,
                }
            },
        };
        let ghost pv = p@;
        let ghost more = plan_views(out@);
        place(&mut entries, p);
        proof {
            let after = planned_views(entries@);
            assert(more.take(trees.len() as int) =~= trees);
            assert(more.take(start.len() as int) =~= trees.take(start.len() as int));
            assert forall|k: int| 0 <= k < after.len() implies ((#[trigger] after[k]).target matches PlannedTargetView::Rebuilt(
                j,
            ) ==> 0 <= j < more.len()) by {
                found_by_index(after, k);
                let n = after[k].name;
                assert(planned_named(after, n) == Some(after[k]));
                if n != pv.name {
                    let m = choose|m: int| 0 <= m < before.len() && (#[trigger] before[m]).name == n;
                    assert(planned_named(before, n) == Some(after[k]));
                    assert(before[m] == after[k]);
                }
            }
            assert forall|known: Trees, path: Seq<Seq<char>>|
                path.len() > 0 implies #[trigger] listing_at(known, more, after, path) == merged::node_at(
                known,
                slots_from(d, i as int),
                path,
            ) by {
                assert(listing_at(known, trees, before, path) == merged::node_at(known, slots_from(d, i + 1), path));
                assert(planned_named(after, path[0]) == (if path[0] == pv.name {
                    Some(pv)
                } else {
                    planned_named(before, path[0])
                }));
                slot_is_shown(known, d, i as int, trees, more, before, after, pv, path);
            }
        }
    }
    let ghost trees = plan_views(out@);
    let ghost es = planned_views(entries@);
    out.push(PlannedTree { entries });
    proof {
        assert(plan_views(out@) =~= trees.push(es));
        assert(slots_from(d, 0) =~= d);
        assert(d.changed.take(0) =~= Seq::<(Seq<char>, SlotView)>::empty());
        assert(plan_views(out@).take(start.len() as int) =~= trees.take(start.len() as int));
        assert forall|known: Trees, path: Seq<Seq<char>>|
            #[trigger] planned_at(known, plan_views(out@), trees.len() as int, path) == merged::node_at(known, d, path) by {
            if path.len() > 0 {
                assert(listing_at(known, trees, es, path) == merged::node_at(known, slots_from(d, 0), path));
            }
        }
    }
    out.len() - 1
}

/// The trees a fold writes, the root last.
pub fn plan(fold: &Fold) -> (r: Vec<PlannedTree>)
    ensures
        children_first(plan_views(r@)),
        r@.len() == dir_count(overlay::node_view(fold.root)),
        r@.len() > 0,
        forall|known: Trees, path: Seq<Seq<char>>|
            #[trigger] planned_at(known, plan_views(r@), r@.len() - 1, path) == merged::node_at(
                known,
                overlay::node_view(fold.root),
                path,
            ),
{
    let mut out: Vec<PlannedTree> = Vec::new();
    let _idx = plan_dir(&fold.root, &mut out);
    out
}

/// The entry as it is stored, with the addresses the earlier trees got.
pub open spec fn addressed(e: PlannedView, hashes: Seq<Seq<char>>) -> EntryView {
    EntryView {
        name: e.name,
        target: match e.target {
            PlannedTargetView::Blob(h) => TargetView::Blob(h),
            PlannedTargetView::Inherited(h) => TargetView::Tree(h),
            PlannedTargetView::Rebuilt(j) => TargetView::Tree(hashes[j]),
        },
        mode: e.mode,
        mtime_ms: e.mtime_ms,
    }
}

pub open spec fn all_addressed(entries: Seq<PlannedView>, hashes: Seq<Seq<char>>) -> Seq<EntryView> {
    entries.map_values(|e: PlannedView| addressed(e, hashes))
}

/// The entries of a planned tree, once the trees it points at have their addresses.
pub fn resolve(tree: &PlannedTree, hashes: &Vec<String>) -> (r: Vec<TreeEntry>)
    requires
        points_before(planned_views(tree.entries@), hashes@.len() as int),
    ensures
        overlay::entry_views(r@) == all_addressed(planned_views(tree.entries@), text::views(hashes@)),
{
    let ghost es = planned_views(tree.entries@);
    let ghost want = all_addressed(es, text::views(hashes@));
    let mut out: Vec<TreeEntry> = Vec::new();
    let mut i: usize = 0;
    while i < tree.entries.len()
        invariant
            i <= tree.entries@.len(),
            es == planned_views(tree.entries@),
            want == all_addressed(es, text::views(hashes@)),
            points_before(es, hashes@.len() as int),
            overlay::entry_views(out@) == want.take(i as int),
        decreases tree.entries@.len() - i,
    {
        let ghost before = overlay::entry_views(out@);
        let e = &tree.entries[i];
        assert(es[i as int] == e@);
        let entry = TreeEntry {
            name: e.name.clone(),
            target: match &e.target {
                PlannedTarget::Blob(h) => TreeTarget::Blob(h.clone()),
                PlannedTarget::Inherited(h) => TreeTarget::Tree(h.clone()),
                PlannedTarget::Rebuilt(j) => TreeTarget::Tree(hashes[*j].clone()),
            },
            mode: e.mode,
            mtime_ms: e.mtime_ms,
        };
        let ghost ev = entry@;
        assert(ev == want[i as int]);
        out.push(entry);
        assert(overlay::entry_views(out@) =~= before.push(ev));
        assert(want.take(i + 1) =~= want.take(i as int).push(ev));
        i = i + 1;
    }
    assert(want.take(i as int) =~= want);
    out
}

/// The store holds the planned trees at the addresses they got.
pub open spec fn holds_plan(store: Trees, trees: Seq<Seq<PlannedView>>, hashes: Seq<Seq<char>>) -> bool {
    hashes.len() == trees.len() && forall|i: int|
        0 <= i < trees.len() ==> store.dom().contains(#[trigger] hashes[i]) && store[hashes[i]] == all_addressed(
            trees[i],
            hashes,
        )
}

/// Once the planned trees are stored, each reads as it was planned.
pub proof fn stored_plans_read_as_planned(
    store: Trees,
    trees: Seq<Seq<PlannedView>>,
    hashes: Seq<Seq<char>>,
    idx: int,
    path: Seq<Seq<char>>,
)
    requires
        children_first(trees),
        holds_plan(store, trees, hashes),
        0 <= idx < trees.len(),
    ensures
        merged::stored_at(store, hashes[idx], path) == planned_at(store, trees, idx, path),
    decreases path.len(),
{
    if path.len() > 0 {
        let es = trees[idx];
        let stored = all_addressed(es, hashes);
        assert(in_name_order(es) && points_before(es, idx));
        overlay::entry_named_is_listed(stored, path[0]);
        assert(overlay::distinct_names(stored)) by {
            assert forall|i: int, j: int| #![trigger stored[i], stored[j]] 0 <= i < j < stored.len() implies stored[i].name
                != stored[j].name by {
                assert(es[i].name != es[j].name);
            }
        }
        match planned_named(es, path[0]) {
            None => {
                assert forall|i: int| 0 <= i < stored.len() implies (#[trigger] stored[i]).name != path[0] by {
                    assert(es[i].name != path[0]);
                }
            },
            Some(e) => {
                let k = choose|k: int| 0 <= k < es.len() && (#[trigger] es[k]).name == path[0];
                assert(es[k] == e);
                assert(stored[k] == addressed(e, hashes));
                assert(overlay::entry_named(stored, path[0]) == Some(stored[k]));
                if path.len() > 1 {
                    if let PlannedTargetView::Rebuilt(j) = e.target {
                        stored_plans_read_as_planned(store, trees, hashes, j, path.drop_first());
                    }
                }
            },
        }
    }
}

/// What a fold publishes is the merged view: a reader of the new root finds at every path what
/// the directories under construction show there.
pub proof fn published_root_shows_the_merged_view(
    store: Trees,
    trees: Seq<Seq<PlannedView>>,
    hashes: Seq<Seq<char>>,
    d: DirView,
    path: Seq<Seq<char>>,
)
    requires
        children_first(trees),
        trees.len() > 0,
        holds_plan(store, trees, hashes),
        planned_at(store, trees, trees.len() - 1, path) == merged::node_at(store, d, path),
    ensures
        merged::stored_at(store, hashes.last(), path) == merged::node_at(store, d, path),
{
    stored_plans_read_as_planned(store, trees, hashes, trees.len() - 1, path);
}

/// The blobs the planned trees name.
pub open spec fn names_blob(trees: Seq<Seq<PlannedView>>, blob: Seq<char>) -> bool {
    exists|i: int, k: int|
        0 <= i < trees.len() && 0 <= k < trees[i].len() && #[trigger] trees[i][k].target == PlannedTargetView::Blob(blob)
}

/// The trees of the parent snapshot the planned trees name.
pub open spec fn names_inherited(trees: Seq<Seq<PlannedView>>, hash: Seq<char>) -> bool {
    exists|i: int, k: int|
        0 <= i < trees.len() && 0 <= k < trees[i].len() && #[trigger] trees[i][k].target == PlannedTargetView::Inherited(
            hash,
        )
}

/// No two are the same.
pub open spec fn no_repeats(s: Seq<Seq<char>>) -> bool {
    forall|i: int, j: int| #![trigger s[i], s[j]] 0 <= i < j < s.len() ==> s[i] != s[j]
}

fn add_once(out: &mut Vec<String>, s: &String)
    requires
        no_repeats(text::views(old(out)@)),
    ensures
        no_repeats(text::views(final(out)@)),
        text::views(final(out)@) == (if text::views(old(out)@).contains(s@) {
            text::views(old(out)@)
        } else {
            text::views(old(out)@).push(s@)
        }),
        forall|x: Seq<char>|
            #[trigger] text::views(final(out)@).contains(x) <==> text::views(old(out)@).contains(x) || x == s@,
{
    let ghost before = text::views(out@);
    if !text::contains_string(out, s.as_str()) {
        out.push(s.clone());
        proof {
            let after = text::views(out@);
            assert(after =~= before.push(s@));
            assert forall|i: int, j: int| #![trigger after[i], after[j]] 0 <= i < j < after.len() implies after[i]
                != after[j] by {
                assert(before[i] == after[i]);
                assert(before.contains(before[i]));
                if j < before.len() {
                    assert(before[j] == after[j]);
                }
            }
            assert forall|x: Seq<char>| #[trigger] after.contains(x) <==> before.contains(x) || x == s@ by {
                if before.contains(x) {
                    let i = choose|i: int| 0 <= i < before.len() && before[i] == x;
                    assert(after[i] == x);
                }
                assert(after[before.len() as int] == s@);
            }
        }
    }
}

/// Every blob the flush must offer: those just stored, and every one the planned trees name,
/// whether just stored or taken over.
pub fn flush_blobs(trees: &Vec<PlannedTree>, stored: &Vec<String>) -> (r: Vec<String>)
    ensures
        no_repeats(text::views(r@)),
        forall|blob: Seq<char>|
            #[trigger] text::views(r@).contains(blob) <==> text::views(stored@).contains(blob) || names_blob(
                plan_views(trees@),
                blob,
            ),
{
    let ghost ts = plan_views(trees@);
    let ghost ss = text::views(stored@);
    let mut out: Vec<String> = Vec::new();
    let mut i: usize = 0;
    while i < stored.len()
        invariant
            i <= stored@.len(),
            ss == text::views(stored@),
            no_repeats(text::views(out@)),
            forall|b: Seq<char>| #[trigger] text::views(out@).contains(b) <==> ss.take(i as int).contains(b),
        decreases stored@.len() - i,
    {
        add_once(&mut out, &stored[i]);
        proof {
            let now = ss.take(i + 1);
            let was = ss.take(i as int);
            assert(now =~= was.push(ss[i as int]));
            assert forall|b: Seq<char>| #[trigger] now.contains(b) <==> was.contains(b) || b == ss[i as int] by {
                if was.contains(b) {
                    let k = choose|k: int| 0 <= k < was.len() && was[k] == b;
                    assert(now[k] == b);
                }
                assert(now[i as int] == ss[i as int]);
            }
        }
        i = i + 1;
    }
    assert(ss.take(i as int) =~= ss);
    let mut t: usize = 0;
    while t < trees.len()
        invariant
            t <= trees@.len(),
            ts == plan_views(trees@),
            no_repeats(text::views(out@)),
            forall|b: Seq<char>|
                #[trigger] text::views(out@).contains(b) <==> ss.contains(b) || names_blob(ts.take(t as int), b),
        decreases trees@.len() - t,
    {
        let entries = &trees[t].entries;
        let ghost es = planned_views(entries@);
        assert(ts[t as int] == es);
        let ghost before = text::views(out@);
        let mut k: usize = 0;
        while k < entries.len()
            invariant
                k <= entries@.len(),
                es == planned_views(entries@),
                no_repeats(text::views(out@)),
                forall|b: Seq<char>|
                    #[trigger] text::views(out@).contains(b) <==> before.contains(b) || exists|m: int|
                        0 <= m < k && (#[trigger] es[m]).target == PlannedTargetView::Blob(b),
            decreases entries@.len() - k,
        {
            assert(es[k as int] == entries@[k as int]@);
            match &entries[k].target {
                PlannedTarget::Blob(b) => {
                    add_once(&mut out, b);
                },
                _ => {},
            }
            k = k + 1;
        }
        proof {
            let now = ts.take(t + 1);
            let was = ts.take(t as int);
            assert forall|b: Seq<char>| #[trigger] text::views(out@).contains(b) <==> ss.contains(b) || names_blob(now, b) by {
                assert(text::views(out@).contains(b) <==> before.contains(b) || exists|m: int|
                    0 <= m < es.len() && (#[trigger] es[m]).target == PlannedTargetView::Blob(b));
                if names_blob(was, b) {
                    let (x, y) = choose|x: int, y: int|
                        0 <= x < was.len() && 0 <= y < was[x].len() && #[trigger] was[x][y].target
                            == PlannedTargetView::Blob(b);
                    assert(now[x][y].target == PlannedTargetView::Blob(b));
                }
                if exists|m: int| 0 <= m < es.len() && (#[trigger] es[m]).target == PlannedTargetView::Blob(b) {
                    let m = choose|m: int| 0 <= m < es.len() && (#[trigger] es[m]).target == PlannedTargetView::Blob(b);
                    assert(now[t as int][m].target == PlannedTargetView::Blob(b));
                }
                if names_blob(now, b) {
                    let (x, y) = choose|x: int, y: int|
                        0 <= x < now.len() && 0 <= y < now[x].len() && #[trigger] now[x][y].target
                            == PlannedTargetView::Blob(b);
                    if x < t {
                        assert(was[x][y].target == PlannedTargetView::Blob(b));
                    } else {
                        assert(es[y].target == PlannedTargetView::Blob(b));
                    }
                }
            }
        }
        t = t + 1;
    }
    assert(ts.take(t as int) =~= ts);
    out
}

/// The trees of the parent snapshot that were taken by address, each once: those whose content
/// identity has to be walked for.
pub fn inherited_trees(trees: &Vec<PlannedTree>) -> (r: Vec<String>)
    ensures
        no_repeats(text::views(r@)),
        forall|h: Seq<char>| #[trigger] text::views(r@).contains(h) <==> names_inherited(plan_views(trees@), h),
{
    let ghost ts = plan_views(trees@);
    let mut out: Vec<String> = Vec::new();
    let mut t: usize = 0;
    while t < trees.len()
        invariant
            t <= trees@.len(),
            ts == plan_views(trees@),
            no_repeats(text::views(out@)),
            forall|b: Seq<char>| #[trigger] text::views(out@).contains(b) <==> names_inherited(ts.take(t as int), b),
        decreases trees@.len() - t,
    {
        let entries = &trees[t].entries;
        let ghost es = planned_views(entries@);
        assert(ts[t as int] == es);
        let ghost before = text::views(out@);
        let mut k: usize = 0;
        while k < entries.len()
            invariant
                k <= entries@.len(),
                es == planned_views(entries@),
                no_repeats(text::views(out@)),
                forall|b: Seq<char>|
                    #[trigger] text::views(out@).contains(b) <==> before.contains(b) || exists|m: int|
                        0 <= m < k && (#[trigger] es[m]).target == PlannedTargetView::Inherited(b),
            decreases entries@.len() - k,
        {
            assert(es[k as int] == entries@[k as int]@);
            match &entries[k].target {
                PlannedTarget::Inherited(b) => {
                    add_once(&mut out, b);
                },
                _ => {},
            }
            k = k + 1;
        }
        proof {
            let now = ts.take(t + 1);
            let was = ts.take(t as int);
            assert forall|b: Seq<char>| #[trigger] text::views(out@).contains(b) <==> names_inherited(now, b) by {
                assert(text::views(out@).contains(b) <==> before.contains(b) || exists|m: int|
                    0 <= m < es.len() && (#[trigger] es[m]).target == PlannedTargetView::Inherited(b));
                if names_inherited(was, b) {
                    let (x, y) = choose|x: int, y: int|
                        0 <= x < was.len() && 0 <= y < was[x].len() && #[trigger] was[x][y].target
                            == PlannedTargetView::Inherited(b);
                    assert(now[x][y].target == PlannedTargetView::Inherited(b));
                }
                if exists|m: int| 0 <= m < es.len() && (#[trigger] es[m]).target == PlannedTargetView::Inherited(b) {
                    let m = choose|m: int| 0 <= m < es.len() && (#[trigger] es[m]).target == PlannedTargetView::Inherited(b);
                    assert(now[t as int][m].target == PlannedTargetView::Inherited(b));
                }
                if names_inherited(now, b) {
                    let (x, y) = choose|x: int, y: int|
                        0 <= x < now.len() && 0 <= y < now[x].len() && #[trigger] now[x][y].target
                            == PlannedTargetView::Inherited(b);
                    if x < t {
                        assert(was[x][y].target == PlannedTargetView::Inherited(b));
                    } else {
                        assert(es[y].target == PlannedTargetView::Inherited(b));
                    }
                }
            }
        }
        t = t + 1;
    }
    assert(ts.take(t as int) =~= ts);
    out
}

} // verus!
