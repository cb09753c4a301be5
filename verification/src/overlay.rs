//! The directories an attempt touched, laid over the parent snapshot's trees.
//!
//! A [`DirNode`] is one directory under construction: the entries it inherits from a tree of the
//! parent snapshot, the slots that changed, and the names that were removed. Reads of the
//! snapshot are answered from [`KnownTrees`]; an edit that needs a tree which is not known yet
//! stops and names it.

use crate::changeset::{self, PathProblem};
use crate::mark::{TargetView, TreeTarget};
use crate::text;
use vstd::prelude::*;

verus! {

/// One entry of a tree.
#[derive(Debug)]
pub struct TreeEntry {
    pub name: String,
    pub target: TreeTarget,
    pub mode: Option<u32>,
    pub mtime_ms: Option<i64>,
}

/// The mathematical model of a [`TreeEntry`].
pub struct EntryView {
    pub name: Seq<char>,
    pub target: TargetView,
    pub mode: Option<u32>,
    pub mtime_ms: Option<i64>,
}

impl View for TreeEntry {
    type V = EntryView;

    open spec fn view(&self) -> EntryView {
        EntryView { name: self.name@, target: self.target@, mode: self.mode, mtime_ms: self.mtime_ms }
    }
}

impl TreeEntry {
    /// A copy of the entry.
    pub fn copy(&self) -> (r: TreeEntry)
        ensures
            r@ == self@,
    {
        TreeEntry {
            name: self.name.clone(),
            target: match &self.target {
                TreeTarget::Tree(h) => TreeTarget::Tree(h.clone()),
                TreeTarget::Blob(h) => TreeTarget::Blob(h.clone()),
            },
            mode: self.mode,
            mtime_ms: self.mtime_ms,
        }
    }
}

pub open spec fn entry_views(v: Seq<TreeEntry>) -> Seq<EntryView> {
    v.map_values(|e: TreeEntry| e@)
}

/// A copy of the entries.
pub fn copy_entries(v: &Vec<TreeEntry>) -> (r: Vec<TreeEntry>)
    ensures
        entry_views(r@) == entry_views(v@),
{
    let mut out: Vec<TreeEntry> = Vec::new();
    let mut i: usize = 0;
    while i < v.len()
        invariant
            i <= v@.len(),
            entry_views(out@) == entry_views(v@).take(i as int),
        decreases v@.len() - i,
    {
        let ghost before = out@;
        let e = v[i].copy();
        out.push(e);
        assert(entry_views(out@) =~= entry_views(before).push(e@));
        assert(entry_views(v@).take(i + 1) =~= entry_views(v@).take(i as int).push(e@));
        i = i + 1;
    }
    assert(entry_views(v@).take(i as int) =~= entry_views(v@));
    out
}

/// The first entry with the name.
pub open spec fn entry_named(entries: Seq<EntryView>, name: Seq<char>) -> Option<EntryView>
    decreases entries.len(),
{
    if entries.len() == 0 {
        None
    } else {
        match entry_named(entries.drop_last(), name) {
            Some(e) => Some(e),
            None => if entries.last().name == name {
                Some(entries.last())
            } else {
                None
            },
        }
    }
}

/// No two entries share a name.
pub open spec fn distinct_names(entries: Seq<EntryView>) -> bool {
    forall|i: int, j: int|
        #![trigger entries[i], entries[j]]
        0 <= i < j < entries.len() ==> entries[i].name != entries[j].name
}

/// The entry found by a name is one of the entries, has that name, and is the one entry with it
/// where names are distinct; and every entry's name finds one.
pub proof fn entry_named_is_listed(entries: Seq<EntryView>, name: Seq<char>)
    ensures
        entry_named(entries, name) matches Some(e) ==> e.name == name && entries.contains(e),
        entry_named(entries, name) is None <==> forall|i: int| 0 <= i < entries.len() ==> (#[trigger] entries[i]).name != name,
        distinct_names(entries) ==> forall|i: int|
            0 <= i < entries.len() && (#[trigger] entries[i]).name == name ==> entry_named(entries, name) == Some(entries[i]),
    decreases entries.len(),
{
    if entries.len() > 0 {
        let rest = entries.drop_last();
        entry_named_is_listed(rest, name);
        assert(entries.last() == entries[entries.len() - 1]);
        if let Some(e) = entry_named(rest, name) {
            let i = choose|i: int| 0 <= i < rest.len() && rest[i] == e;
            assert(entries[i] == e);
        } else {
            assert forall|i: int| 0 <= i < rest.len() implies (#[trigger] entries[i]).name != name by {
                assert(rest[i] == entries[i]);
            }
        }
        if distinct_names(entries) {
            assert(distinct_names(rest)) by {
                assert forall|i: int, j: int| #![trigger rest[i], rest[j]] 0 <= i < j < rest.len() implies rest[i].name
                    != rest[j].name by {
                    assert(entries[i].name != entries[j].name);
                }
            }
            assert forall|i: int| 0 <= i < entries.len() && (#[trigger] entries[i]).name == name implies entry_named(
                entries,
                name,
            ) == Some(entries[i]) by {
                if i < rest.len() {
                    assert(rest[i] == entries[i]);
                } else if let Some(e) = entry_named(rest, name) {
                    let k = choose|k: int| 0 <= k < rest.len() && rest[k] == e;
                    assert(entries[k].name != entries[i].name);
                }
            }
        }
    }
}

/// The index of the first entry with the name.
pub fn find_entry(entries: &Vec<TreeEntry>, name: &String) -> (r: Option<usize>)
    ensures
        match r {
            Some(i) => i < entries@.len() && entry_named(entry_views(entries@), name@) == Some(entries@[i as int]@)
                && entries@[i as int].name@ == name@ && entry_named(entry_views(entries@).take(i as int), name@) is None,
            None => entry_named(entry_views(entries@), name@) is None,
        },
{
    let ghost all = entry_views(entries@);
    let mut i: usize = 0;
    while i < entries.len()
        invariant
            i <= entries@.len(),
            all == entry_views(entries@),
            entry_named(all.take(i as int), name@) is None,
        decreases entries@.len() - i,
    {
        let ghost next = all.take(i + 1);
        assert(next.drop_last() =~= all.take(i as int));
        assert(next.last() == entries@[i as int]@);
        if entries[i].name == *name {
            proof {
                first_match_stays(all, name@, i + 1);
            }
            return Some(i);
        }
        i = i + 1;
    }
    assert(all.take(i as int) =~= all);
    None
}

proof fn first_match_stays(entries: Seq<EntryView>, name: Seq<char>, i: int)
    requires
        0 <= i <= entries.len(),
        entry_named(entries.take(i), name) is Some,
    ensures
        entry_named(entries, name) == entry_named(entries.take(i), name),
    decreases entries.len(),
{
    if i == entries.len() {
        assert(entries.take(i) =~= entries);
    } else {
        assert(entries.drop_last().take(i) =~= entries.take(i));
        first_match_stays(entries.drop_last(), name, i);
    }
}

/// The trees of a store, by address.
pub type Trees = Map<Seq<char>, Seq<EntryView>>;

pub open spec fn trees_of(trees: Seq<(String, Vec<TreeEntry>)>) -> Trees
    decreases trees.len(),
{
    if trees.len() == 0 {
        Map::<Seq<char>, Seq<EntryView>>::empty()
    } else {
        trees_of(trees.drop_last()).insert(trees.last().0@, entry_views(trees.last().1@))
    }
}

/// There are no more known trees than were noted.
pub proof fn trees_are_counted(trees: Seq<(String, Vec<TreeEntry>)>)
    ensures
        trees_of(trees).dom().finite(),
        trees_of(trees).dom().len() <= trees.len(),
    decreases trees.len(),
{
    if trees.len() > 0 {
        let rest = trees_of(trees.drop_last());
        trees_are_counted(trees.drop_last());
        assert(trees_of(trees).dom() =~= rest.dom().insert(trees.last().0@));
    }
}

/// The trees that were read, by address.
#[derive(Debug)]
pub struct KnownTrees {
    pub trees: Vec<(String, Vec<TreeEntry>)>,
}

impl View for KnownTrees {
    type V = Trees;

    open spec fn view(&self) -> Trees {
        trees_of(self.trees@)
    }
}

/// `entries` with `e` in place of the entry that has its name, or behind the others.
pub open spec fn entry_placed(entries: Seq<EntryView>, e: EntryView) -> Seq<EntryView>
    decreases entries.len(),
{
    if entries.len() == 0 {
        seq![e]
    } else if entry_named(entries.drop_last(), e.name) is None && entries.last().name == e.name {
        entries.drop_last().push(e)
    } else if entry_named(entries.drop_last(), e.name) is None {
        entries.push(e)
    } else {
        entry_placed(entries.drop_last(), e).push(entries.last())
    }
}

/// The entries with one per name: the last that has it, where the first stood.
pub open spec fn by_name(entries: Seq<EntryView>) -> Seq<EntryView>
    decreases entries.len(),
{
    if entries.len() == 0 {
        entries
    } else {
        entry_placed(by_name(entries.drop_last()), entries.last())
    }
}

/// Placing an entry makes it the one found by its name and leaves every other name as it was.
pub proof fn placing_replaces_one_name(entries: Seq<EntryView>, e: EntryView, name: Seq<char>)
    ensures
        entry_named(entry_placed(entries, e), name) == (if name == e.name {
            Some(e)
        } else {
            entry_named(entries, name)
        }),
    decreases entries.len(),
{
    reveal_with_fuel(entry_named, 2);
    if entries.len() == 0 {
        assert(seq![e].drop_last() =~= Seq::<EntryView>::empty());
        assert(seq![e].last() == e);
    } else if entry_named(entries.drop_last(), e.name) is None {
        if entries.last().name == e.name {
            assert(entries.drop_last().push(e).drop_last() =~= entries.drop_last());
        } else {
            assert(entries.push(e).drop_last() =~= entries);
        }
    } else {
        placing_replaces_one_name(entries.drop_last(), e, name);
        assert(entry_placed(entries.drop_last(), e).push(entries.last()).drop_last() =~= entry_placed(
            entries.drop_last(),
            e,
        ));
    }
}

/// Placing an entry keeps names distinct.
pub proof fn placing_keeps_names_distinct(entries: Seq<EntryView>, e: EntryView)
    requires
        distinct_names(entries),
    ensures
        distinct_names(entry_placed(entries, e)),
    decreases entries.len(),
{
    if entries.len() > 0 {
        let rest = entries.drop_last();
        assert forall|i: int, j: int| #![trigger rest[i], rest[j]] 0 <= i < j < rest.len() implies rest[i].name
            != rest[j].name by {
            assert(entries[i].name != entries[j].name);
        }
        entry_named_is_listed(rest, e.name);
        let out = entry_placed(entries, e);
        if entry_named(rest, e.name) is None {
            assert forall|i: int, j: int| #![trigger out[i], out[j]] 0 <= i < j < out.len() implies out[i].name
                != out[j].name by {
                if entries.last().name == e.name {
                    assert(rest[i] == out[i]);
                } else {
                    assert(entries[i] == out[i]);
                    if i < rest.len() {
                        assert(rest[i] == entries[i]);
                    }
                    if j < entries.len() {
                        assert(entries[j] == out[j]);
                    }
                }
            }
        } else {
            placing_keeps_names_distinct(rest, e);
            let inner = entry_placed(rest, e);
            assert forall|i: int, j: int| #![trigger out[i], out[j]] 0 <= i < j < out.len() implies out[i].name
                != out[j].name by {
                assert(out[i] == inner[i]);
                if j == inner.len() {
                    let n = inner[i].name;
                    placing_replaces_one_name(rest, e, n);
                    entry_named_is_listed(inner, n);
                    entry_named_is_listed(rest, n);
                    if n == entries.last().name {
                        let k = choose|k: int| 0 <= k < rest.len() && (#[trigger] rest[k]).name == n;
                        assert(entries[k].name != entries[entries.len() - 1].name);
                    }
                } else {
                    assert(out[j] == inner[j]);
                }
            }
        }
    }
}

/// Reading a tree's entries by name yields one entry per name.
pub proof fn by_name_is_distinct(entries: Seq<EntryView>)
    ensures
        distinct_names(by_name(entries)),
    decreases entries.len(),
{
    if entries.len() > 0 {
        by_name_is_distinct(entries.drop_last());
        placing_keeps_names_distinct(by_name(entries.drop_last()), entries.last());
    }
}

proof fn placed_at(entries: Seq<EntryView>, e: EntryView, i: int)
    requires
        0 <= i < entries.len(),
        entries[i].name == e.name,
        entry_named(entries.take(i), e.name) is None,
    ensures
        entry_placed(entries, e) == entries.update(i, e),
    decreases entries.len(),
{
    let rest = entries.drop_last();
    if i == entries.len() - 1 {
        assert(entries.take(i) =~= rest);
        assert(rest.push(e) =~= entries.update(i, e));
    } else {
        assert(rest.take(i) =~= entries.take(i));
        assert(rest[i] == entries[i]);
        entry_named_is_listed(rest, e.name);
        placed_at(rest, e, i);
        assert(rest.update(i, e).push(entries.last()) =~= entries.update(i, e));
    }
}

proof fn placed_behind(entries: Seq<EntryView>, e: EntryView)
    requires
        entry_named(entries, e.name) is None,
    ensures
        entry_placed(entries, e) == entries.push(e),
{
    if entries.len() == 0 {
        assert(seq![e] =~= entries.push(e));
    }
}

impl KnownTrees {
    /// Every known tree lists a name once.
    pub open spec fn wf(self) -> bool {
        forall|h: Seq<char>| #[trigger] self@.dom().contains(h) ==> distinct_names(self@[h])
    }

    pub fn new() -> (r: KnownTrees)
        ensures
            r@ == Map::<Seq<char>, Seq<EntryView>>::empty(),
            r.wf(),
    {
        KnownTrees { trees: Vec::new() }
    }

    /// The entries of a tree that was read.
    pub fn get(&self, hash: &String) -> (r: Option<&Vec<TreeEntry>>)
        ensures
            match r {
                Some(v) => self@.dom().contains(hash@) && self@[hash@] == entry_views(v@),
                None => !self@.dom().contains(hash@),
            },
    {
        let mut i: usize = self.trees.len();
        assert(self.trees@.take(i as int) =~= self.trees@);
        while i > 0
            invariant
                i <= self.trees@.len(),
                self@.dom().contains(hash@) == trees_of(self.trees@.take(i as int)).dom().contains(hash@),
                self@.dom().contains(hash@) ==> self@[hash@] == trees_of(self.trees@.take(i as int))[hash@],
            decreases i,
        {
            let ghost seen = self.trees@.take(i as int);
            i = i - 1;
            assert(seen.drop_last() =~= self.trees@.take(i as int));
            assert(seen.last() == self.trees@[i as int]);
            if self.trees[i].0 == *hash {
                return Some(&self.trees[i].1);
            }
        }
        None
    }

    /// Notes the entries of a tree, one per name, the last of those that share it.
    pub fn learn(&mut self, hash: String, entries: Vec<TreeEntry>)
        requires
            old(self).wf(),
        ensures
            final(self).wf(),
            final(self)@ == old(self)@.insert(hash@, by_name(entry_views(entries@))),
    {
        let ghost all = entry_views(entries@);
        let mut out: Vec<TreeEntry> = Vec::new();
        let mut i: usize = 0;
        assert(entry_views(out@) =~= by_name(all.take(0)));
        while i < entries.len()
            invariant
                i <= entries@.len(),
                all == entry_views(entries@),
                entry_views(out@) == by_name(all.take(i as int)),
            decreases entries@.len() - i,
        {
            let ghost before = entry_views(out@);
            let e = entries[i].copy();
            proof {
                let next = all.take(i + 1);
                assert(next.drop_last() =~= all.take(i as int));
                assert(next.last() == e@);
            }
            match find_entry(&out, &e.name) {
                Some(k) => {
                    let ghost ev = e@;
                    proof {
                        placed_at(before, ev, k as int);
                    }
                    out.set(k, e);
                    assert(entry_views(out@) =~= before.update(k as int, ev));
                },
                None => {
                    let ghost ev = e@;
                    proof {
                        placed_behind(before, ev);
                    }
                    out.push(e);
                    assert(entry_views(out@) =~= before.push(ev));
                },
            }
            i = i + 1;
        }
        proof {
            assert(all.take(i as int) =~= all);
            by_name_is_distinct(all);
        }
        let ghost before = self.trees@;
        let ghost ev = entry_views(out@);
        let ghost hv = hash@;
        self.trees.push((hash, out));
        proof {
            assert(self.trees@.drop_last() =~= before);
            assert(trees_of(self.trees@) == trees_of(before).insert(hv, ev));
            assert forall|h: Seq<char>| #[trigger] self@.dom().contains(h) implies distinct_names(self@[h]) by {
                if h != hv {
                    assert(old(self)@.dom().contains(h));
                }
            }
        }
    }
}

/// What changed at a name.
#[derive(Debug)]
pub enum Slot {
    Entry(TreeEntry),
    Dir(Box<DirNode>),
}

/// A directory under construction. A directory the upper layer holds has that layer's mode and
/// mtime in `meta`.
#[derive(Debug)]
pub struct DirNode {
    pub inherited: Vec<TreeEntry>,
    pub meta: Option<(Option<u32>, Option<i64>)>,
    pub changed: Vec<(String, Slot)>,
    pub removed: Vec<String>,
}

/// The mathematical model of a [`Slot`].
pub enum SlotView {
    Entry(EntryView),
    Dir(Box<DirView>),
}

/// The mathematical model of a [`DirNode`].
#[verifier::ext_equal]
pub struct DirView {
    pub inherited: Seq<EntryView>,
    pub meta: Option<(Option<u32>, Option<i64>)>,
    pub changed: Seq<(Seq<char>, SlotView)>,
    pub removed: Seq<Seq<char>>,
}

pub open spec fn node_view(n: DirNode) -> DirView
    decreases n,
{
    DirView {
        inherited: entry_views(n.inherited@),
        meta: n.meta,
        changed: Seq::new(
            n.changed@.len(),
            |i: int|
                if 0 <= i < n.changed@.len() {
                    (n.changed@[i].0@, slot_view(n.changed@[i].1))
                } else {
                    arbitrary()
                },
        ),
        removed: text::views(n.removed@),
    }
}

pub open spec fn slot_view(s: Slot) -> SlotView
    decreases s,
{
    match s {
        Slot::Entry(e) => SlotView::Entry(e@),
        Slot::Dir(d) => SlotView::Dir(Box::new(node_view(*d))),
    }
}

/// The index of the first slot with the name.
pub open spec fn slot_index(changed: Seq<(Seq<char>, SlotView)>, name: Seq<char>) -> Option<int>
    decreases changed.len(),
{
    if changed.len() == 0 {
        None
    } else {
        match slot_index(changed.drop_last(), name) {
            Some(i) => Some(i),
            None => if changed.last().0 == name {
                Some(changed.len() - 1)
            } else {
                None
            },
        }
    }
}

/// What changed at a name.
pub open spec fn slot(d: DirView, name: Seq<char>) -> Option<SlotView> {
    match slot_index(d.changed, name) {
        Some(i) => Some(d.changed[i].1),
        None => None,
    }
}

/// `d` with the slot at `name`.
pub open spec fn with_slot(d: DirView, name: Seq<char>, s: SlotView) -> DirView {
    DirView {
        changed: match slot_index(d.changed, name) {
            Some(i) => d.changed.update(i, (name, s)),
            None => d.changed.push((name, s)),
        },
        ..d
    }
}

pub proof fn slot_index_is_first(changed: Seq<(Seq<char>, SlotView)>, name: Seq<char>)
    ensures
        slot_index(changed, name) matches Some(i) ==> 0 <= i < changed.len() && changed[i].0 == name && forall|j: int|
            0 <= j < i ==> (#[trigger] changed[j]).0 != name,
        slot_index(changed, name) is None ==> forall|j: int| 0 <= j < changed.len() ==> (#[trigger] changed[j]).0 != name,
    decreases changed.len(),
{
    if changed.len() > 0 {
        let rest = changed.drop_last();
        slot_index_is_first(rest, name);
        assert(forall|j: int| 0 <= j < rest.len() ==> (#[trigger] changed[j]) == rest[j]);
    }
}

proof fn slot_index_from_first(changed: Seq<(Seq<char>, SlotView)>, name: Seq<char>, i: int)
    requires
        0 <= i < changed.len(),
        changed[i].0 == name,
        forall|j: int| 0 <= j < i ==> (#[trigger] changed[j]).0 != name,
    ensures
        slot_index(changed, name) == Some(i),
{
    slot_index_is_first(changed, name);
}

proof fn slot_index_from_none(changed: Seq<(Seq<char>, SlotView)>, name: Seq<char>)
    requires
        forall|j: int| 0 <= j < changed.len() ==> (#[trigger] changed[j]).0 != name,
    ensures
        slot_index(changed, name) is None,
{
    slot_index_is_first(changed, name);
}

/// Setting a slot changes what is found at its name and at no other.
pub proof fn with_slot_replaces_one_name(d: DirView, name: Seq<char>, s: SlotView, other: Seq<char>)
    ensures
        slot(with_slot(d, name, s), other) == (if other == name {
            Some(s)
        } else {
            slot(d, other)
        }),
{
    let out = with_slot(d, name, s).changed;
    slot_index_is_first(d.changed, name);
    slot_index_is_first(d.changed, other);
    match slot_index(d.changed, name) {
        Some(i) => {
            assert(forall|j: int| 0 <= j < out.len() && j != i ==> (#[trigger] out[j]) == d.changed[j]);
            if other == name {
                slot_index_from_first(out, name, i);
            } else {
                match slot_index(d.changed, other) {
                    Some(k) => {
                        slot_index_from_first(out, other, k);
                    },
                    None => {
                        slot_index_from_none(out, other);
                    },
                }
            }
        },
        None => {
            assert(forall|j: int| 0 <= j < d.changed.len() ==> (#[trigger] out[j]) == d.changed[j]);
            if other == name {
                slot_index_from_first(out, name, d.changed.len() as int);
            } else {
                match slot_index(d.changed, other) {
                    Some(k) => {
                        slot_index_from_first(out, other, k);
                    },
                    None => {
                        slot_index_from_none(out, other);
                    },
                }
            }
        },
    }
}

fn find_slot(node: &DirNode, name: &String) -> (r: Option<usize>)
    ensures
        match r {
            Some(i) => i < node.changed@.len() && slot_index(node_view(*node).changed, name@) == Some(i as int)
                && node.changed@[i as int].0@ == name@,
            None => slot_index(node_view(*node).changed, name@) is None,
        },
{
    let ghost all = node_view(*node).changed;
    let mut i: usize = 0;
    while i < node.changed.len()
        invariant
            i <= node.changed@.len(),
            all == node_view(*node).changed,
            forall|j: int| 0 <= j < i ==> (#[trigger] all[j]).0 != name@,
        decreases node.changed@.len() - i,
    {
        if node.changed[i].0 == *name {
            proof {
                slot_index_from_first(all, name@, i as int);
            }
            return Some(i);
        }
        i = i + 1;
    }
    proof {
        slot_index_from_none(all, name@);
    }
    None
}

/// A new directory with the inherited entries.
pub open spec fn fresh(inherited: Seq<EntryView>) -> DirView {
    DirView { inherited, meta: None, changed: Seq::empty(), removed: Seq::empty() }
}

/// A directory with the inherited entries and nothing changed.
pub fn fresh_node(inherited: Vec<TreeEntry>) -> (r: DirNode)
    ensures
        node_view(r) == fresh(entry_views(inherited@)),
{
    let r = DirNode { inherited, meta: None, changed: Vec::new(), removed: Vec::new() };
    assert(node_view(r).removed =~= Seq::<Seq<char>>::empty());
    assert(node_view(r).changed =~= Seq::<(Seq<char>, SlotView)>::empty());
    r
}

/// The tree an entry with the name points at, among the inherited ones.
pub open spec fn inherited_subtree(d: DirView, name: Seq<char>) -> Option<Seq<char>> {
    match entry_named(d.inherited, name) {
        Some(e) => match e.target {
            TargetView::Tree(h) => Some(h),
            TargetView::Blob(_) => None,
        },
        None => None,
    }
}

fn subtree_named(entries: &Vec<TreeEntry>, name: &String) -> (r: Option<String>)
    ensures
        text::opt_view(r) == (match entry_named(entry_views(entries@), name@) {
            Some(e) => match e.target {
                TargetView::Tree(h) => Some(h),
                TargetView::Blob(_) => None,
            },
            None => None,
        }),
{
    match find_entry(entries, name) {
        Some(i) => match &entries[i].target {
            TreeTarget::Tree(h) => Some(h.clone()),
            TreeTarget::Blob(_) => None,
        },
        None => None,
    }
}

/// Why a graft's source is no subtree of the parent snapshot.
#[derive(Debug, Clone, Copy, PartialEq, Eq, Structural)]
pub enum GraftProblem {
    Missing,
    NotADirectory,
}

impl GraftProblem {
    /// What is wrong with the source.
    pub fn describe(self) -> (r: &'static str)
        ensures
            r@ == (match self {
                GraftProblem::Missing => "the parent snapshot holds nothing there"@,
                GraftProblem::NotADirectory => "the parent snapshot holds a file or a symlink there, not a directory"@,
            }),
    {
        match self {
            GraftProblem::Missing => "the parent snapshot holds nothing there",
            GraftProblem::NotADirectory => "the parent snapshot holds a file or a symlink there, not a directory",
        }
    }
}

/// Why a fold stopped. `NeedTree` asks for a tree that is not known yet; the others are final.
#[derive(Debug)]
pub enum Stop {
    NeedTree(String),
    Io { path: Vec<u8>, message: String },
    UnsafePath { path: Vec<u8>, problem: PathProblem },
    GraftSource { from: Vec<u8>, to: Vec<u8>, graft: GraftProblem },
}

/// The mathematical model of a [`Stop`].
pub enum StopView {
    NeedTree(Seq<char>),
    Io { path: Seq<u8>, message: Seq<char> },
    UnsafePath { path: Seq<u8>, problem: PathProblem },
    GraftSource { from: Seq<u8>, to: Seq<u8>, graft: GraftProblem },
}

impl View for Stop {
    type V = StopView;

    open spec fn view(&self) -> StopView {
        match self {
            Stop::NeedTree(h) => StopView::NeedTree(h@),
            Stop::Io { path, message } => StopView::Io { path: path@, message: message@ },
            Stop::UnsafePath { path, problem } => StopView::UnsafePath { path: path@, problem: *problem },
            Stop::GraftSource { from, to, graft } => StopView::GraftSource { from: from@, to: to@, graft: *graft },
        }
    }
}

/// What following names through the parent snapshot's trees gives.
pub enum Walked {
    Found(Seq<char>),
    Need(Seq<char>),
    Problem(GraftProblem),
}

/// The tree that `names` lead to from `tree`.
pub open spec fn walked(known: Trees, tree: Seq<char>, names: Seq<Seq<char>>) -> Walked
    decreases names.len(),
{
    if names.len() == 0 {
        Walked::Found(tree)
    } else if !known.dom().contains(tree) {
        Walked::Need(tree)
    } else {
        match entry_named(known[tree], names[0]) {
            Some(e) => match e.target {
                TargetView::Tree(sub) => walked(known, sub, names.drop_first()),
                TargetView::Blob(_) => Walked::Problem(GraftProblem::NotADirectory),
            },
            None => Walked::Problem(GraftProblem::Missing),
        }
    }
}

/// The tree of the parent snapshot that a renamed directory's content stands in.
pub open spec fn graft_source_of(known: Trees, root: Seq<char>, from: Seq<u8>, to: Seq<u8>) -> Result<Seq<char>, StopView> {
    match changeset::path_names(from) {
        Err(problem) => Err(StopView::UnsafePath { path: from, problem }),
        Ok(names) => match walked(known, root, names) {
            Walked::Found(h) => Ok(h),
            Walked::Need(h) => Err(StopView::NeedTree(h)),
            Walked::Problem(graft) => Err(StopView::GraftSource { from, to, graft }),
        },
    }
}

pub open spec fn stop_result(r: Result<String, Stop>) -> Result<Seq<char>, StopView> {
    match r {
        Ok(h) => Ok(h@),
        Err(s) => Err(s@),
    }
}

/// Resolves a renamed directory's content in the parent snapshot's own coordinates.
pub fn graft_source(known: &KnownTrees, root: &String, from: &Vec<u8>, to: &Vec<u8>) -> (r: Result<String, Stop>)
    ensures
        stop_result(r) == graft_source_of(known@, root@, from@, to@),
{
    let names = match changeset::components(from) {
        Err(problem) => {
            return Err(Stop::UnsafePath { path: changeset::copy_bytes(from), problem });
        },
        Ok(names) => names,
    };
    let ghost all = text::views(names@);
    let mut tree: String = root.clone();
    let mut i: usize = 0;
    assert(all.skip(0) =~= all);
    while i < names.len()
        invariant
            i <= names@.len(),
            all == text::views(names@),
            changeset::path_names(from@) == Ok::<Seq<Seq<char>>, PathProblem>(all),
            walked(known@, root@, all) == walked(known@, tree@, all.skip(i as int)),
        decreases names@.len() - i,
    {
        let ghost rest = all.skip(i as int);
        assert(rest[0] == names@[i as int]@);
        assert(rest.drop_first() =~= all.skip(i + 1));
        let entries = match known.get(&tree) {
            Some(entries) => entries,
            None => {
                return Err(Stop::NeedTree(tree));
            },
        };
        match find_entry(entries, &names[i]) {
            Some(k) => match &entries[k].target {
                TreeTarget::Tree(sub) => {
                    tree = sub.clone();
                },
                TreeTarget::Blob(_) => {
                    return Err(
                        Stop::GraftSource {
                            from: changeset::copy_bytes(from),
                            to: changeset::copy_bytes(to),
                            graft: GraftProblem::NotADirectory,
                        },
                    );
                },
            },
            None => {
                return Err(
                    Stop::GraftSource {
                        from: changeset::copy_bytes(from),
                        to: changeset::copy_bytes(to),
                        graft: GraftProblem::Missing,
                    },
                );
            },
        }
        i = i + 1;
    }
    Ok(tree)
}

/// One change to a directory.
#[derive(Debug)]
pub enum Edit<'a> {
    /// A directory the upper layer holds: where it is, what it inherits, and its mode and mtime
    /// there, or why they could not be read.
    Directory {
        path: &'a Vec<u8>,
        redirect: &'a Option<Vec<u8>>,
        opaque: bool,
        meta: &'a Result<(u32, Option<i64>), String>,
    },
    Put(TreeEntry),
    Remove,
}

/// The mathematical model of an [`Edit`].
pub enum EditView {
    Directory {
        path: Seq<u8>,
        redirect: Option<Seq<u8>>,
        opaque: bool,
        meta: Result<(u32, Option<i64>), Seq<char>>,
    },
    Put(EntryView),
    Remove,
}

pub open spec fn opt_bytes(b: Option<Vec<u8>>) -> Option<Seq<u8>> {
    match b {
        Some(v) => Some(v@),
        None => None,
    }
}

pub open spec fn meta_view(m: Result<(u32, Option<i64>), String>) -> Result<(u32, Option<i64>), Seq<char>> {
    match m {
        Ok(v) => Ok(v),
        Err(e) => Err(e@),
    }
}

impl<'a> View for Edit<'a> {
    type V = EditView;

    open spec fn view(&self) -> EditView {
        match self {
            Edit::Directory { path, redirect, opaque, meta } => EditView::Directory {
                path: path@,
                redirect: opt_bytes(**redirect),
                opaque: *opaque,
                meta: meta_view(**meta),
            },
            Edit::Put(e) => EditView::Put(e@),
            Edit::Remove => EditView::Remove,
        }
    }
}

/// The permission bits of a mode.
pub const PERMISSION_BITS: u32 = 0o7777;

/// What an edit comes to: the directory, how many trees were read for it, and how many grafts
/// were resolved.
pub struct Edited {
    pub dir: DirView,
    pub reads: nat,
    pub grafts: nat,
}

/// Where a touched directory's inherited entries come from, and the reads and grafts that took.
pub open spec fn base_of(
    known: Trees,
    root: Seq<char>,
    d: DirView,
    name: Seq<char>,
    path: Seq<u8>,
    redirect: Option<Seq<u8>>,
    opaque: bool,
) -> Result<(Option<Seq<char>>, nat, nat), StopView> {
    match redirect {
        Some(from) => match graft_source_of(known, root, from, path) {
            Ok(h) => Ok((Some(h), changeset::path_names(from)->Ok_0.len(), 1)),
            Err(s) => Err(s),
        },
        None => if opaque {
            Ok((None, 0, 0))
        } else {
            Ok((inherited_subtree(d, name), 0, 0))
        },
    }
}

/// The entries of a base tree, where it is known.
pub open spec fn base_entries(known: Trees, base: Option<Seq<char>>) -> Result<(Seq<EntryView>, nat), StopView> {
    match base {
        None => Ok((Seq::empty(), 0)),
        Some(h) => if known.dom().contains(h) {
            Ok((known[h], 1))
        } else {
            Err(StopView::NeedTree(h))
        },
    }
}

/// The directory at `name` with other inherited entries and its own mode and mtime, what changed
/// in it kept.
pub open spec fn rebased(d: DirView, name: Seq<char>, inherited: Seq<EntryView>, meta: (u32, Option<i64>)) -> DirView {
    let m = Some((Some(meta.0 & PERMISSION_BITS), meta.1));
    match slot(d, name) {
        Some(SlotView::Dir(c)) => DirView { inherited, meta: m, ..*c },
        _ => DirView { meta: m, ..fresh(inherited) },
    }
}

/// The edit of the entry `name` of the directory itself.
pub open spec fn edited_here(known: Trees, root: Seq<char>, d: DirView, name: Seq<char>, edit: EditView) -> Result<
    Edited,
    StopView,
> {
    match edit {
        EditView::Directory { path, redirect, opaque, meta } => match base_of(
            known,
            root,
            d,
            name,
            path,
            redirect,
            opaque,
        ) {
            Err(s) => Err(s),
            Ok((base, walked_reads, grafts)) => match base_entries(known, base) {
                Err(s) => Err(s),
                Ok((entries, reads)) => match meta {
                    Err(message) => Err(StopView::Io { path, message }),
                    Ok(m) => Ok(
                        Edited {
                            dir: with_slot(d, name, SlotView::Dir(Box::new(rebased(d, name, entries, m)))),
                            reads: walked_reads + reads,
                            grafts,
                        },
                    ),
                },
            },
        },
        EditView::Put(e) => Ok(Edited { dir: with_slot(d, name, SlotView::Entry(e)), reads: 0, grafts: 0 }),
        EditView::Remove => Ok(Edited { dir: DirView { removed: d.removed.push(name), ..d }, reads: 0, grafts: 0 }),
    }
}

/// The directory an edit goes through at `name`: the one under construction there, or else one
/// that inherits what the parent snapshot holds at that name.
pub open spec fn entered(known: Trees, d: DirView, name: Seq<char>) -> Result<(DirView, nat), StopView> {
    match slot(d, name) {
        Some(SlotView::Dir(c)) => Ok((*c, 0)),
        _ => match base_entries(known, inherited_subtree(d, name)) {
            Ok((entries, reads)) => Ok((fresh(entries), reads)),
            Err(s) => Err(s),
        },
    }
}

/// The edit of the entry that `names` lead to, building the directories on the way on demand.
pub open spec fn edited(known: Trees, root: Seq<char>, d: DirView, names: Seq<Seq<char>>, edit: EditView) -> Result<
    Edited,
    StopView,
>
    decreases names.len(),
{
    if names.len() <= 1 {
        edited_here(known, root, d, names[0], edit)
    } else {
        match entered(known, d, names[0]) {
            Err(s) => Err(s),
            Ok((child, reads)) => match edited(known, root, child, names.drop_first(), edit) {
                Err(s) => Err(s),
                Ok(inner) => Ok(
                    Edited {
                        dir: with_slot(d, names[0], SlotView::Dir(Box::new(inner.dir))),
                        reads: reads + inner.reads,
                        grafts: inner.grafts,
                    },
                ),
            },
        }
    }
}

/// A count as far as a counter holds it.
pub open spec fn capped(n: nat) -> u64 {
    if n <= u64::MAX {
        n as u64
    } else {
        u64::MAX
    }
}

/// A directory after an edit, with the reads and grafts it took.
#[derive(Debug)]
pub struct EditedNode {
    pub node: DirNode,
    pub reads: u64,
    pub grafts: u64,
}

pub open spec fn edit_result(r: Result<EditedNode, Stop>, e: Result<Edited, StopView>) -> bool {
    match r {
        Ok(n) => e matches Ok(x) && node_view(n.node) == x.dir && n.reads == capped(x.reads) && n.grafts == capped(x.grafts),
        Err(s) => e matches Err(x) && s@ == x,
    }
}

/// `node` with the slot at `name`.
fn set_slot(node: DirNode, name: &String, at: Option<usize>, s: Slot) -> (r: DirNode)
    requires
        at matches Some(i) ==> slot_index(node_view(node).changed, name@) == Some(i as int) && i < node.changed@.len(),
        at is None ==> slot_index(node_view(node).changed, name@) is None,
    ensures
        node_view(r) == with_slot(node_view(node), name@, slot_view(s)),
{
    let ghost before = node_view(node);
    let ghost sv = slot_view(s);
    let mut out = node;
    match at {
        Some(i) => {
            out.changed.set(i, (name.clone(), s));
            assert(node_view(out).changed =~= before.changed.update(i as int, (name@, sv)));
        },
        None => {
            out.changed.push((name.clone(), s));
            assert(node_view(out).changed =~= before.changed.push((name@, sv)));
        },
    }
    out
}

/// Takes the directory under construction at slot `i` out of `node`, leaving an empty one.
fn take_dir(node: DirNode, i: usize) -> (r: (DirNode, Option<DirNode>))
    requires
        i < node.changed@.len(),
    ensures
        r.0.changed@.len() == node.changed@.len(),
        node_view(r.0).inherited == node_view(node).inherited,
        node_view(r.0).meta == node_view(node).meta,
        node_view(r.0).removed == node_view(node).removed,
        forall|j: int|
            0 <= j < node.changed@.len() ==> (#[trigger] node_view(r.0).changed[j]).0 == node_view(node).changed[j].0 && (j
                != i ==> node_view(r.0).changed[j] == node_view(node).changed[j]),
        node_view(node).changed[i as int].1 == (match r.1 {
            Some(c) => SlotView::Dir(Box::new(node_view(c))),
            None => node_view(r.0).changed[i as int].1,
        }),
        r.1 is None <==> node_view(node).changed[i as int].1 is Entry,
{
    let ghost before = node_view(node);
    let mut out = node;
    let (name, s) = out.changed.remove(i);
    match s {
        Slot::Entry(e) => {
            out.changed.insert(i, (name, Slot::Entry(e)));
            assert(node_view(out).changed =~= before.changed);
            (out, None)
        },
        Slot::Dir(c) => {
            let ghost cv = node_view(*c);
            out.changed.insert(i, (name, Slot::Dir(Box::new(fresh_node(Vec::new())))));
            assert(forall|j: int|
                0 <= j < before.changed.len() && j != i ==> (#[trigger] node_view(out).changed[j]) == before.changed[j]);
            (out, Some(*c))
        },
    }
}

/// Putting a slot back where another directory was taken out gives the same as setting it at once.
proof fn retaken(before: DirView, hollow: DirView, name: Seq<char>, i: int, s: SlotView)
    requires
        slot_index(before.changed, name) == Some(i),
        hollow.inherited == before.inherited,
        hollow.meta == before.meta,
        hollow.removed == before.removed,
        hollow.changed.len() == before.changed.len(),
        forall|j: int|
            0 <= j < before.changed.len() ==> (#[trigger] hollow.changed[j]).0 == before.changed[j].0 && (j != i
                ==> hollow.changed[j] == before.changed[j]),
    ensures
        slot_index(hollow.changed, name) == Some(i),
        with_slot(hollow, name, s) == with_slot(before, name, s),
{
    slot_index_is_first(before.changed, name);
    assert(hollow.changed[i].0 == name);
    assert forall|j: int| 0 <= j < i implies (#[trigger] hollow.changed[j]).0 != name by {
        assert(before.changed[j].0 != name);
    }
    slot_index_from_first(hollow.changed, name, i);
    assert(hollow.changed.update(i, (name, s)) =~= before.changed.update(i, (name, s)));
}

fn known_entries(known: &KnownTrees, base: &Option<String>) -> (r: Result<(Vec<TreeEntry>, u64), Stop>)
    ensures
        match r {
            Ok((v, n)) => base_entries(known@, text::opt_view(*base)) matches Ok((e, k)) && entry_views(v@) == e && n == k,
            Err(s) => base_entries(known@, text::opt_view(*base)) matches Err(x) && s@ == x,
        },
{
    match base {
        None => {
            let v: Vec<TreeEntry> = Vec::new();
            assert(entry_views(v@) =~= Seq::<EntryView>::empty());
            Ok((v, 0))
        },
        Some(h) => match known.get(h) {
            Some(v) => Ok((copy_entries(v), 1)),
            None => Err(Stop::NeedTree(h.clone())),
        },
    }
}

fn capped_len(n: usize) -> (r: u64)
    ensures
        r == capped(n as nat),
{
    n as u64
}

fn edit_here(known: &KnownTrees, root: &String, node: DirNode, name: &String, edit: Edit) -> (r: Result<EditedNode, Stop>)
    ensures
        edit_result(r, edited_here(known@, root@, node_view(node), name@, edit@)),
{
    let at = find_slot(&node, name);
    match edit {
        Edit::Put(e) => {
            let out = set_slot(node, name, at, Slot::Entry(e));
            Ok(EditedNode { node: out, reads: 0, grafts: 0 })
        },
        Edit::Remove => {
            let ghost before = node_view(node);
            let mut out = node;
            out.removed.push(name.clone());
            assert(node_view(out).removed =~= before.removed.push(name@));
            assert(node_view(out).changed =~= before.changed);
            Ok(EditedNode { node: out, reads: 0, grafts: 0 })
        },
        Edit::Directory { path, redirect, opaque, meta } => {
            let mut walked_reads: u64 = 0;
            let mut grafts: u64 = 0;
            let base: Option<String> = match redirect {
                Some(from) => {
                    let source = match graft_source(known, root, from, path) {
                        Err(s) => {
                            return Err(s);
                        },
                        Ok(h) => h,
                    };
                    match changeset::components(from) {
                        Ok(names) => {
                            walked_reads = capped_len(names.len());
                        },
                        Err(_) => {},
                    }
                    grafts = 1;
                    Some(source)
                },
                None => if opaque {
                    None
                } else {
                    subtree_named(&node.inherited, name)
                },
            };
            let (entries, reads) = match known_entries(known, &base) {
                Err(s) => {
                    return Err(s);
                },
                Ok(x) => x,
            };
            let (mode, mtime_ms) = match meta {
                Err(message) => {
                    return Err(Stop::Io { path: changeset::copy_bytes(path), message: message.clone() });
                },
                Ok(m) => (m.0, m.1),
            };
            let m: Option<(Option<u32>, Option<i64>)> = Some((Some(mode & PERMISSION_BITS), mtime_ms));
            let ghost before = node_view(node);
            let ghost ev = entry_views(entries@);
            let out = match at {
                Some(i) => {
                    let (hollow, taken) = take_dir(node, i);
                    let child = match taken {
                        Some(c) => {
                            let ghost cv = node_view(c);
                            let child = DirNode { inherited: entries, meta: m, changed: c.changed, removed: c.removed };
                            assert(node_view(child).changed =~= cv.changed);
                            child
                        },
                        None => {
                            let fresh_one = fresh_node(entries);
                            let child = DirNode {
                                inherited: fresh_one.inherited,
                                meta: m,
                                changed: fresh_one.changed,
                                removed: fresh_one.removed,
                            };
                            assert(node_view(child).changed =~= node_view(fresh_one).changed);
                            child
                        },
                    };
                    let ghost s = SlotView::Dir(Box::new(node_view(child)));
                    proof {
                        retaken(before, node_view(hollow), name@, i as int, s);
                        assert(node_view(child) == rebased(before, name@, ev, (mode, mtime_ms)));
                    }
                    set_slot(hollow, name, Some(i), Slot::Dir(Box::new(child)))
                },
                None => {
                    let fresh_one = fresh_node(entries);
                    let child = DirNode {
                        inherited: fresh_one.inherited,
                        meta: m,
                        changed: fresh_one.changed,
                        removed: fresh_one.removed,
                    };
                    assert(node_view(child).changed =~= node_view(fresh_one).changed);
                    assert(node_view(child) == rebased(before, name@, ev, (mode, mtime_ms)));
                    set_slot(node, name, None, Slot::Dir(Box::new(child)))
                },
            };
            Ok(EditedNode { node: out, reads: walked_reads.saturating_add(reads), grafts })
        },
    }
}

/// Edits the entry that the names from `from` on lead to.
pub fn edit_at(known: &KnownTrees, root: &String, node: DirNode, names: &Vec<String>, from: usize, edit: Edit) -> (r: Result<
    EditedNode,
    Stop,
>)
    requires
        from < names@.len(),
    ensures
        edit_result(r, edited(known@, root@, node_view(node), text::views(names@).skip(from as int), edit@)),
    decreases names@.len() - from,
{
    let ghost rest = text::views(names@).skip(from as int);
    let name = &names[from];
    assert(rest[0] == name@);
    if names.len() - from == 1 {
        return edit_here(known, root, node, name, edit);
    }
    assert(rest.drop_first() =~= text::views(names@).skip(from + 1));
    let ghost before = node_view(node);
    match find_slot(&node, name) {
        Some(i) => {
            let (hollow, taken) = take_dir(node, i);
            let (child, reads) = match taken {
                Some(c) => (c, 0u64),
                None => {
                    let base = subtree_named(&hollow.inherited, name);
                    match known_entries(known, &base) {
                        Err(s) => {
                            return Err(s);
                        },
                        Ok((entries, reads)) => (fresh_node(entries), reads),
                    }
                },
            };
            match edit_at(known, root, child, names, from + 1, edit) {
                Err(s) => Err(s),
                Ok(inner) => {
                    proof {
                        retaken(before, node_view(hollow), name@, i as int, SlotView::Dir(Box::new(node_view(inner.node))));
                    }
                    let out = set_slot(hollow, name, Some(i), Slot::Dir(Box::new(inner.node)));
                    Ok(EditedNode { node: out, reads: reads.saturating_add(inner.reads), grafts: inner.grafts })
                },
            }
        },
        None => {
            let base = subtree_named(&node.inherited, name);
            match known_entries(known, &base) {
                Err(s) => Err(s),
                Ok((entries, reads)) => {
                    let child = fresh_node(entries);
                    match edit_at(known, root, child, names, from + 1, edit) {
                        Err(s) => Err(s),
                        Ok(inner) => {
                            let out = set_slot(node, name, None, Slot::Dir(Box::new(inner.node)));
                            Ok(EditedNode { node: out, reads: reads.saturating_add(inner.reads), grafts: inner.grafts })
                        },
                    }
                },
            }
        },
    }
}

/// A renamed directory's content is looked for from the snapshot's root, name by name: each name
/// leads on from the directory that the ones before it led to.
pub proof fn renamed_content_is_found_by_its_names(
    known: Trees,
    tree: Seq<char>,
    first: Seq<Seq<char>>,
    more: Seq<Seq<char>>,
    name: Seq<char>,
)
    ensures
        walked(known, tree, Seq::empty()) == Walked::Found(tree),
        walked(known, tree, first + more) == match walked(known, tree, first) {
            Walked::Found(h) => walked(known, h, more),
            other => other,
        },
        !known.dom().contains(tree) ==> walked(known, tree, seq![name]) == Walked::Need(tree),
        known.dom().contains(tree) ==> walked(known, tree, seq![name]) == match entry_named(known[tree], name) {
            None => Walked::Problem(GraftProblem::Missing),
            Some(e) => match e.target {
                TargetView::Tree(h) => Walked::Found(h),
                TargetView::Blob(_) => Walked::Problem(GraftProblem::NotADirectory),
            },
        },
    decreases first.len(),
{
    reveal_with_fuel(walked, 2);
    assert(seq![name].drop_first() =~= Seq::<Seq<char>>::empty());
    if first.len() == 0 {
        assert(first + more =~= more);
    } else {
        assert((first + more)[0] == first[0]);
        assert((first + more).drop_first() =~= first.drop_first() + more);
        if known.dom().contains(tree) {
            if let Some(e) = entry_named(known[tree], first[0]) {
                if let TargetView::Tree(sub) = e.target {
                    renamed_content_is_found_by_its_names(known, sub, first.drop_first(), more, name);
                }
            }
        }
    }
}

/// An edit counts one graft exactly where it renames a directory; a written or a deleted entry
/// counts none.
pub proof fn grafts_are_counted(known: Trees, root: Seq<char>, d: DirView, names: Seq<Seq<char>>, edit: EditView)
    requires
        edited(known, root, d, names, edit) is Ok,
    ensures
        edited(known, root, d, names, edit)->Ok_0.grafts == match edit {
            EditView::Directory { redirect, .. } => if redirect is Some {
                1nat
            } else {
                0nat
            },
            _ => 0nat,
        },
    decreases names.len(),
{
    if names.len() > 1 {
        let child = entered(known, d, names[0])->Ok_0.0;
        grafts_are_counted(known, root, child, names.drop_first(), edit);
    }
}

/// An edit of a directory's own entry reads nothing unless it is about a directory. A plain one
/// reads the tree it inherits, where there is one; an opaque one reads none; a renamed one reads
/// the trees on the way to its content and the content.
pub proof fn reads_are_counted(
    known: Trees,
    root: Seq<char>,
    d: DirView,
    name: Seq<char>,
    e: EntryView,
    path: Seq<u8>,
    from: Seq<u8>,
    meta: (u32, Option<i64>),
)
    ensures
        edited_here(known, root, d, name, EditView::Put(e))->Ok_0.reads == 0,
        edited_here(known, root, d, name, EditView::Remove)->Ok_0.reads == 0,
        ({
            let opaque = edited_here(
                known,
                root,
                d,
                name,
                EditView::Directory { path, redirect: None, opaque: true, meta: Ok(meta) },
            );
            opaque is Ok && opaque->Ok_0.reads == 0
        }),
        ({
            let plain = edited_here(
                known,
                root,
                d,
                name,
                EditView::Directory { path, redirect: None, opaque: false, meta: Ok(meta) },
            );
            match inherited_subtree(d, name) {
                None => plain is Ok && plain->Ok_0.reads == 0,
                Some(h) => if known.dom().contains(h) {
                    plain is Ok && plain->Ok_0.reads == 1
                } else {
                    plain == Err::<Edited, StopView>(StopView::NeedTree(h))
                },
            }
        }),
        ({
            let renamed = edited_here(
                known,
                root,
                d,
                name,
                EditView::Directory { path, redirect: Some(from), opaque: false, meta: Ok(meta) },
            );
            renamed is Ok ==> changeset::path_names(from) is Ok && renamed->Ok_0.reads == changeset::path_names(
                from,
            )->Ok_0.len() + 1
        }),
{
}

/// A count is exact as far as a counter reaches.
pub proof fn counts_are_exact(n: nat)
    ensures
        n <= u64::MAX ==> capped(n) == n,
        n > u64::MAX ==> capped(n) == u64::MAX,
{
}

} // verus!
