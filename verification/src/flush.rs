//! The archival inventory of a settled snapshot and the settled result itself.

use crate::changeset::ChangeSet;
use crate::mark::{TargetView, TreeTarget};
use crate::overlay::{self, EntryView, KnownTrees, TreeEntry, Trees};
use crate::publish::{self, PlannedTree};
use crate::settle::{Fold, SettleTally};
use crate::text;
use vstd::prelude::*;

verus! {

/// The subtrees that entries name, in their order.
pub open spec fn subtrees(entries: Seq<EntryView>) -> Seq<Seq<char>>
    decreases entries.len(),
{
    if entries.len() == 0 {
        Seq::empty()
    } else {
        match entries.last().target {
            TargetView::Tree(h) => subtrees(entries.drop_last()).push(h),
            TargetView::Blob(_) => subtrees(entries.drop_last()),
        }
    }
}

/// The subtrees that the trees name, those of each tree behind those of the trees before it.
pub open spec fn below(store: Trees, trees: Seq<Seq<char>>) -> Seq<Seq<char>>
    decreases trees.len(),
{
    if trees.len() == 0 {
        Seq::empty()
    } else {
        below(store, trees.drop_last()) + subtrees(store[trees.last()])
    }
}

/// `s` without what occurred before.
pub open spec fn first_occurrences(s: Seq<Seq<char>>) -> Seq<Seq<char>>
    decreases s.len(),
{
    if s.len() == 0 {
        s
    } else if first_occurrences(s.drop_last()).contains(s.last()) {
        first_occurrences(s.drop_last())
    } else {
        first_occurrences(s.drop_last()).push(s.last())
    }
}

/// The trees at distance `k` from the root, each once.
pub open spec fn level(store: Trees, root: Seq<char>, k: nat) -> Seq<Seq<char>>
    decreases k,
{
    if k == 0 {
        seq![root]
    } else {
        first_occurrences(below(store, level(store, root, (k - 1) as nat)))
    }
}

/// The root reaches the tree.
pub open spec fn reached(store: Trees, root: Seq<char>, tree: Seq<char>) -> bool {
    exists|k: nat| #[trigger] level(store, root, k).contains(tree)
}

proof fn subtree_is_listed(entries: Seq<EntryView>, i: int)
    requires
        0 <= i < entries.len(),
        entries[i].target is Tree,
    ensures
        subtrees(entries).contains(entries[i].target->Tree_0),
    decreases entries.len(),
{
    let rest = subtrees(entries.drop_last());
    if i == entries.len() - 1 {
        assert(subtrees(entries).last() == entries[i].target->Tree_0);
    } else {
        assert(entries.drop_last()[i] == entries[i]);
        subtree_is_listed(entries.drop_last(), i);
        let k = choose|k: int| 0 <= k < rest.len() && rest[k] == entries[i].target->Tree_0;
        assert(subtrees(entries)[k] == entries[i].target->Tree_0);
    }
}

proof fn below_lists(store: Trees, trees: Seq<Seq<char>>, i: int, h: Seq<char>)
    requires
        0 <= i < trees.len(),
        subtrees(store[trees[i]]).contains(h),
    ensures
        below(store, trees).contains(h),
    decreases trees.len(),
{
    let rest = below(store, trees.drop_last());
    let own = subtrees(store[trees.last()]);
    if i == trees.len() - 1 {
        let k = choose|k: int| 0 <= k < own.len() && own[k] == h;
        assert((rest + own)[rest.len() + k] == h);
    } else {
        assert(trees.drop_last()[i] == trees[i]);
        below_lists(store, trees.drop_last(), i, h);
        let k = choose|k: int| 0 <= k < rest.len() && rest[k] == h;
        assert((rest + own)[k] == h);
    }
}

/// Keeping first occurrences keeps every value, once.
pub proof fn first_occurrences_keep_all(s: Seq<Seq<char>>)
    ensures
        publish::no_repeats(first_occurrences(s)),
        forall|x: Seq<char>| #[trigger] first_occurrences(s).contains(x) <==> s.contains(x),
    decreases s.len(),
{
    if s.len() > 0 {
        let rest = s.drop_last();
        let kept = first_occurrences(rest);
        let out = first_occurrences(s);
        first_occurrences_keep_all(rest);
        assert forall|x: Seq<char>| #[trigger] out.contains(x) <==> s.contains(x) by {
            if kept.contains(x) {
                let k = choose|k: int| 0 <= k < kept.len() && kept[k] == x;
                assert(out[k] == x);
            }
            if rest.contains(x) {
                let k = choose|k: int| 0 <= k < rest.len() && rest[k] == x;
                assert(s[k] == x);
            }
            if s.contains(x) {
                let k = choose|k: int| 0 <= k < s.len() && s[k] == x;
                if k < rest.len() {
                    assert(rest[k] == x);
                }
            }
            if !kept.contains(s.last()) {
                assert(out[kept.len() as int] == s.last());
            }
            if out.contains(x) {
                let k = choose|k: int| 0 <= k < out.len() && out[k] == x;
                if k < kept.len() {
                    assert(kept[k] == x);
                } else {
                    assert(s[s.len() - 1] == x);
                }
            }
        }
        assert forall|i: int, j: int| #![trigger out[i], out[j]] 0 <= i < j < out.len() implies out[i] != out[j] by {
            assert(kept[i] == out[i]);
            if j < kept.len() {
                assert(kept[j] == out[j]);
            } else {
                assert(kept.contains(kept[i]));
            }
        }
    }
}

/// Every subtree of a tree on a level stands on the next deeper level.
pub proof fn children_stand_one_level_deeper(store: Trees, root: Seq<char>, k: nat, tree: Seq<char>, i: int)
    requires
        level(store, root, k).contains(tree),
        0 <= i < store[tree].len(),
        store[tree][i].target is Tree,
    ensures
        level(store, root, k + 1).contains(store[tree][i].target->Tree_0),
{
    let here = level(store, root, k);
    let at = choose|at: int| 0 <= at < here.len() && here[at] == tree;
    subtree_is_listed(store[tree], i);
    below_lists(store, here, at, store[tree][i].target->Tree_0);
    first_occurrences_keep_all(below(store, here));
}

/// A chain of trees from the root, in which each is a subtree of the one before it.
pub open spec fn descends(store: Trees, root: Seq<char>, chain: Seq<Seq<char>>) -> bool {
    &&& chain.len() > 0
    &&& chain[0] == root
    &&& forall|i: int| 0 <= i < chain.len() - 1 ==> subtrees(store[#[trigger] chain[i]]).contains(chain[i + 1])
}

/// Some chain from the root comes back to a tree that stands on it.
pub open spec fn cyclic(store: Trees, root: Seq<char>) -> bool {
    exists|chain: Seq<Seq<char>>| #[trigger] descends(store, root, chain) && !chain.no_duplicates()
}

/// Every tree that the root reaches is known.
pub open spec fn all_known(store: Trees, root: Seq<char>) -> bool {
    forall|tree: Seq<char>| #[trigger] reached(store, root, tree) ==> store.dom().contains(tree)
}

proof fn below_comes_from(store: Trees, trees: Seq<Seq<char>>, h: Seq<char>) -> (i: int)
    requires
        below(store, trees).contains(h),
    ensures
        0 <= i < trees.len(),
        subtrees(store[trees[i]]).contains(h),
    decreases trees.len(),
{
    let rest = below(store, trees.drop_last());
    let own = subtrees(store[trees.last()]);
    let k = choose|k: int| 0 <= k < (rest + own).len() && (rest + own)[k] == h;
    if k < rest.len() {
        assert(rest[k] == h);
        below_comes_from(store, trees.drop_last(), h)
    } else {
        assert(own[k - rest.len()] == h);
        trees.len() - 1
    }
}

/// A chain leads to every tree of a level.
proof fn chain_to(store: Trees, root: Seq<char>, k: nat, tree: Seq<char>) -> (chain: Seq<Seq<char>>)
    requires
        level(store, root, k).contains(tree),
    ensures
        descends(store, root, chain),
        chain.len() == k + 1,
        chain.last() == tree,
    decreases k,
{
    if k == 0 {
        seq![root]
    } else {
        let above = level(store, root, (k - 1) as nat);
        first_occurrences_keep_all(below(store, above));
        let i = below_comes_from(store, above, tree);
        assert(above.contains(above[i]));
        let short = chain_to(store, root, (k - 1) as nat, above[i]);
        let chain = short.push(tree);
        assert forall|j: int| 0 <= j < chain.len() - 1 implies subtrees(store[#[trigger] chain[j]]).contains(
            chain[j + 1],
        ) by {
            if j < short.len() - 1 {
                assert(subtrees(store[short[j]]).contains(short[j + 1]));
            }
        }
        chain
    }
}

/// The tree at each place of a chain stands on the level of that place.
proof fn chains_descend_the_levels(store: Trees, root: Seq<char>, chain: Seq<Seq<char>>, i: int)
    requires
        descends(store, root, chain),
        0 <= i < chain.len(),
    ensures
        level(store, root, i as nat).contains(chain[i]),
    decreases i,
{
    if i == 0 {
        assert(level(store, root, 0)[0] == root);
    } else {
        chains_descend_the_levels(store, root, chain, i - 1);
        let above = level(store, root, (i - 1) as nat);
        let at = choose|at: int| 0 <= at < above.len() && above[at] == chain[i - 1];
        assert(subtrees(store[chain[i - 1]]).contains(chain[i - 1 + 1]));
        below_lists(store, above, at, chain[i]);
        first_occurrences_keep_all(below(store, above));
    }
}

/// A chain of more known trees than there are trees passes one of them twice.
proof fn long_chains_repeat(known: KnownTrees, chain: Seq<Seq<char>>)
    requires
        chain.len() > known.trees@.len(),
        forall|i: int| 0 <= i < chain.len() ==> known@.dom().contains(#[trigger] chain[i]),
    ensures
        !chain.no_duplicates(),
{
    overlay::trees_are_counted(known.trees@);
    if chain.no_duplicates() {
        chain.unique_seq_to_set();
        assert(chain.to_set().subset_of(known@.dom()));
        vstd::set_lib::lemma_len_subset(chain.to_set(), known@.dom());
    }
}

/// Where every tree down to the level of their number is known, every tree that is reached is.
proof fn no_unknown_tree_stands_deeper(known: KnownTrees, root: Seq<char>, k: nat, tree: Seq<char>)
    requires
        forall|j: nat, t: Seq<char>|
            j <= known.trees@.len() && #[trigger] level(known@, root, j).contains(t) ==> known@.dom().contains(t),
        level(known@, root, k).contains(tree),
    ensures
        known@.dom().contains(tree),
    decreases k,
{
    if k > known.trees@.len() {
        let chain = chain_to(known@, root, k, tree);
        let short = chain.drop_last();
        assert forall|i: int| 0 <= i < short.len() implies known@.dom().contains(#[trigger] short[i]) by {
            chains_descend_the_levels(known@, root, chain, i);
            assert(chain[i] == short[i]);
            no_unknown_tree_stands_deeper(known, root, i as nat, short[i]);
        }
        long_chains_repeat(known, short);
        let (a, b) = choose|a: int, b: int| 0 <= a < short.len() && 0 <= b < short.len() && a != b && short[a] == short[b];
        let (i, j) = if a < b {
            (a, b)
        } else {
            (b, a)
        };
        let shorter = chain.take(i + 1) + chain.skip(j + 1);
        assert forall|n: int| 0 <= n < shorter.len() - 1 implies subtrees(known@[#[trigger] shorter[n]]).contains(
            shorter[n + 1],
        ) by {
            if n < i {
                assert(subtrees(known@[chain[n]]).contains(chain[n + 1]));
            } else if n == i {
                assert(chain[i] == chain[j]);
                assert(subtrees(known@[chain[j]]).contains(chain[j + 1]));
            } else {
                let m = n - i + j;
                assert(shorter[n] == chain[m]);
                assert(subtrees(known@[chain[m]]).contains(chain[m + 1]));
            }
        }
        assert(shorter[0] == chain[0]);
        let last = shorter.len() - 1;
        assert(shorter[last] == chain[chain.len() - 1]);
        chains_descend_the_levels(known@, root, shorter, last);
        no_unknown_tree_stands_deeper(known, root, last as nat, tree);
    }
}

/// Why the levels could not be had: a tree is not known yet, or every tree is and some tree
/// contains itself.
#[derive(Debug)]
pub enum LevelsStop {
    NeedTree(String),
    Cyclic,
}

fn push_once(out: &mut Vec<String>, s: &String, Ghost(all): Ghost<Seq<Seq<char>>>)
    requires
        text::views(old(out)@) == first_occurrences(all),
    ensures
        text::views(final(out)@) == first_occurrences(all.push(s@)),
{
    let ghost before = text::views(out@);
    assert(all.push(s@).drop_last() =~= all);
    if !text::contains_string(out, s.as_str()) {
        out.push(s.clone());
        assert(text::views(out@) =~= before.push(s@));
    }
}

/// The trees directly below a level, each once.
fn next_level(known: &KnownTrees, here: &Vec<String>) -> (r: Result<Vec<String>, String>)
    ensures
        match r {
            Ok(v) => text::views(v@) == first_occurrences(below(known@, text::views(here@))) && forall|i: int|
                0 <= i < here@.len() ==> known@.dom().contains(#[trigger] here@[i]@),
            Err(h) => text::views(here@).contains(h@) && !known@.dom().contains(h@),
        },
{
    let ghost hs = text::views(here@);
    let mut out: Vec<String> = Vec::new();
    let ghost mut all: Seq<Seq<char>> = Seq::empty();
    assert(text::views(out@) =~= Seq::<Seq<char>>::empty());
    let mut i: usize = 0;
    while i < here.len()
        invariant
            i <= here@.len(),
            hs == text::views(here@),
            all == below(known@, hs.take(i as int)),
            text::views(out@) == first_occurrences(all),
            forall|j: int| 0 <= j < i ==> known@.dom().contains(#[trigger] here@[j]@),
        decreases here@.len() - i,
    {
        let entries = match known.get(&here[i]) {
            None => {
                assert(hs[i as int] == here@[i as int]@);
                return Err(here[i].clone());
            },
            Some(entries) => entries,
        };
        let ghost es = overlay::entry_views(entries@);
        let ghost before = all;
        let mut k: usize = 0;
        assert(before + subtrees(es.take(0)) =~= before);
        while k < entries.len()
            invariant
                k <= entries@.len(),
                es == overlay::entry_views(entries@),
                all == before + subtrees(es.take(k as int)),
                text::views(out@) == first_occurrences(all),
            decreases entries@.len() - k,
        {
            proof {
                assert(es.take(k + 1).drop_last() =~= es.take(k as int));
                assert(es.take(k + 1).last() == entries@[k as int]@);
            }
            match &entries[k].target {
                TreeTarget::Tree(h) => {
                    push_once(&mut out, h, Ghost(all));
                    proof {
                        all = all.push(h@);
                        assert(all =~= before + subtrees(es.take(k + 1)));
                    }
                },
                TreeTarget::Blob(_) => {},
            }
            k = k + 1;
        }
        proof {
            assert(es.take(k as int) =~= es);
            assert(hs.take(i + 1).drop_last() =~= hs.take(i as int));
            assert(hs.take(i + 1).last() == here@[i as int]@);
        }
        i = i + 1;
    }
    assert(hs.take(i as int) =~= hs);
    Ok(out)
}

pub open spec fn level_views(v: Seq<Vec<String>>) -> Seq<Seq<Seq<char>>> {
    v.map_values(|l: Vec<String>| text::views(l@))
}

/// Every tree the root reaches, grouped by distance, the deepest level first.
pub fn tree_levels(known: &KnownTrees, root: &String) -> (r: Result<Vec<Vec<String>>, LevelsStop>)
    ensures
        match r {
            Ok(v) => v@.len() > 0 && level(known@, root@, v@.len()).len() == 0 && (forall|j: int|
                0 <= j < v@.len() ==> #[trigger] level_views(v@)[j] == level(known@, root@, (v@.len() - 1 - j) as nat)
                    && level_views(v@)[j].len() > 0),
            Err(LevelsStop::NeedTree(h)) => !known@.dom().contains(h@) && reached(known@, root@, h@),
            Err(LevelsStop::Cyclic) => all_known(known@, root@) && cyclic(known@, root@),
        },
{
    let mut down: Vec<Vec<String>> = Vec::new();
    let mut here: Vec<String> = Vec::new();
    here.push(root.clone());
    assert(text::views(here@) =~= seq![root@]);
    let bound: usize = known.trees.len();
    while here.len() > 0
        invariant
            bound == known.trees@.len(),
            down@.len() <= bound,
            text::views(here@) == level(known@, root@, down@.len()),
            forall|j: int|
                0 <= j < down@.len() ==> #[trigger] level_views(down@)[j] == level(known@, root@, j as nat)
                    && level_views(down@)[j].len() > 0,
            forall|j: nat, t: Seq<char>|
                j < down@.len() && #[trigger] level(known@, root@, j).contains(t) ==> known@.dom().contains(t),
            down@.len() == 0 ==> here@.len() > 0,
        decreases bound - down@.len(),
    {
        match next_level(known, &here) {
            Err(h) => {
                proof {
                    let k: nat = down@.len();
                    assert(level(known@, root@, k).contains(h@));
                    assert(reached(known@, root@, h@));
                }
                return Err(LevelsStop::NeedTree(h));
            },
            Ok(next) => {
                let ghost before = level_views(down@);
                let ghost hv = text::views(here@);
                proof {
                    assert forall|t: Seq<char>| hv.contains(t) implies known@.dom().contains(t) by {
                        let i = choose|i: int| 0 <= i < hv.len() && hv[i] == t;
                        assert(here@[i]@ == t);
                    }
                }
                if down.len() == bound {
                    proof {
                        assert forall|tree: Seq<char>| #[trigger] reached(known@, root@, tree) implies known@.dom().contains(
                            tree,
                        ) by {
                            let k = choose|k: nat| #[trigger] level(known@, root@, k).contains(tree);
                            no_unknown_tree_stands_deeper(*known, root@, k, tree);
                        }
                        let k: nat = down@.len();
                        assert(hv[0] == here@[0]@);
                        assert(hv.contains(hv[0]));
                        let chain = chain_to(known@, root@, k, hv[0]);
                        assert forall|i: int| 0 <= i < chain.len() implies known@.dom().contains(
                            #[trigger] chain[i],
                        ) by {
                            chains_descend_the_levels(known@, root@, chain, i);
                            assert(level(known@, root@, i as nat).contains(chain[i]));
                        }
                        long_chains_repeat(*known, chain);
                        assert(descends(known@, root@, chain));
                    }
                    return Err(LevelsStop::Cyclic);
                }
                down.push(here);
                assert(level_views(down@) =~= before.push(hv));
                here = next;
            },
        }
    }
    let mut out: Vec<Vec<String>> = Vec::new();
    let ghost n = down@.len();
    let ghost all = level_views(down@);
    while down.len() > 0
        invariant
            down@.len() + out@.len() == n,
            level_views(down@) == all.take(down@.len() as int),
            all.len() == n,
            forall|j: int| 0 <= j < out@.len() ==> #[trigger] level_views(out@)[j] == all[n - 1 - j],
        decreases down@.len(),
    {
        let ghost last = down@.len() - 1;
        let ghost before = level_views(out@);
        assert(level_views(down@)[last] == text::views(down@[last]@));
        match down.pop() {
            Some(l) => {
                let ghost lv = text::views(l@);
                assert(lv == all[last]);
                out.push(l);
                assert(level_views(out@) =~= before.push(lv));
                assert(level_views(down@) =~= all.take(last));
            },
            None => {},
        }
    }
    Ok(out)
}

/// What an archival flush offers: the blobs, and the trees deepest level first.
#[derive(Debug)]
pub struct FlushSet {
    pub blobs: Vec<String>,
    pub tree_levels: Vec<Vec<String>>,
}

/// How many trees the levels hold.
pub open spec fn counted(levels: Seq<Seq<Seq<char>>>) -> nat
    decreases levels.len(),
{
    if levels.len() == 0 {
        0
    } else {
        counted(levels.drop_last()) + levels.last().len()
    }
}

impl FlushSet {
    /// An empty inventory.
    pub fn empty() -> (r: FlushSet)
        ensures
            r.blobs@.len() == 0,
            r.tree_levels@.len() == 0,
    {
        FlushSet { blobs: Vec::new(), tree_levels: Vec::new() }
    }

    /// How many trees, across every level.
    pub fn tree_count(&self) -> (r: usize)
        requires
            counted(level_views(self.tree_levels@)) <= usize::MAX,
        ensures
            r == counted(level_views(self.tree_levels@)),
    {
        let ghost all = level_views(self.tree_levels@);
        let mut n: usize = 0;
        let mut i: usize = 0;
        while i < self.tree_levels.len()
            invariant
                i <= self.tree_levels@.len(),
                all == level_views(self.tree_levels@),
                counted(all) <= usize::MAX,
                n == counted(all.take(i as int)),
            decreases self.tree_levels@.len() - i,
        {
            proof {
                counted_grows(all, i + 1);
                assert(all.take(i + 1).drop_last() =~= all.take(i as int));
                assert(all.take(i + 1).last() == text::views(self.tree_levels@[i as int]@));
            }
            n = n + self.tree_levels[i].len();
            i = i + 1;
        }
        assert(all.take(i as int) =~= all);
        n
    }
}

proof fn counted_grows(levels: Seq<Seq<Seq<char>>>, i: int)
    requires
        0 <= i <= levels.len(),
    ensures
        counted(levels.take(i)) <= counted(levels),
    decreases levels.len(),
{
    if i == levels.len() {
        assert(levels.take(i) =~= levels);
    } else {
        counted_grows(levels.drop_last(), i);
        assert(levels.drop_last().take(i) =~= levels.take(i));
    }
}

/// A workspace snapshot: the root's address and the content identity where it is known.
#[derive(Debug)]
pub struct Snapshot {
    pub root: String,
    pub identity: Option<String>,
}

/// The result of folding a change set.
#[derive(Debug)]
pub struct Settled {
    pub snapshot: Snapshot,
    pub tally: SettleTally,
    pub flush: FlushSet,
}

/// The answer for a change set that may be empty: the parent snapshot itself, with nothing paid
/// and nothing to flush, where nothing was touched.
pub fn settle_untouched(parent: &Snapshot, change: &ChangeSet) -> (r: Option<Settled>)
    ensures
        r is Some <==> change.untouched(),
        r matches Some(s) ==> s.snapshot.root@ == parent.root@ && text::opt_view(s.snapshot.identity) == text::opt_view(
            parent.identity,
        ) && s.tally == SettleTally::zero() && s.flush.blobs@.len() == 0 && s.flush.tree_levels@.len() == 0,
{
    if change.is_empty() {
        Some(
            Settled {
                snapshot: Snapshot { root: parent.root.clone(), identity: text::clone_opt(&parent.identity) },
                tally: SettleTally::default(),
                flush: FlushSet::empty(),
            },
        )
    } else {
        None
    }
}

/// What the fold cost: the blobs stored for its jobs, the trees planned, the trees read, the
/// inherited trees walked for their identity, the grafts and the whiteouts.
pub open spec fn tally_of(fold: Fold, stored: nat, planned: nat, inherited: nat) -> SettleTally {
    SettleTally {
        blobs_stored: overlay::capped(stored),
        trees_written: overlay::capped(planned),
        trees_read: fold.reads,
        identities_walked: overlay::capped(inherited),
        grafted: fold.grafted,
        deleted: fold.deleted,
    }
}

/// The settled result, from the address and identity the root got, the blobs stored for the jobs,
/// the planned trees and the store that holds them.
pub fn settle_published(
    root: String,
    identity: String,
    fold: &Fold,
    stored: &Vec<String>,
    trees: &Vec<PlannedTree>,
    known: &KnownTrees,
) -> (r: Result<Settled, LevelsStop>)
    ensures
        match r {
            Ok(s) => {
                &&& s.snapshot.root == root
                &&& s.snapshot.identity == Some(identity)
                &&& exists|n: nat|
                    #[trigger] inherited_count(trees@, n) && s.tally == tally_of(*fold, stored@.len(), trees@.len(), n)
                &&& publish::no_repeats(text::views(s.flush.blobs@))
                &&& forall|blob: Seq<char>|
                    #[trigger] text::views(s.flush.blobs@).contains(blob) <==> text::views(stored@).contains(blob)
                        || publish::names_blob(publish::plan_views(trees@), blob)
                &&& s.flush.tree_levels@.len() > 0
                &&& level(known@, root@, s.flush.tree_levels@.len()).len() == 0
                &&& forall|j: int|
                    0 <= j < s.flush.tree_levels@.len() ==> #[trigger] level_views(s.flush.tree_levels@)[j] == level(
                        known@,
                        root@,
                        (s.flush.tree_levels@.len() - 1 - j) as nat,
                    )
            },
            Err(LevelsStop::NeedTree(h)) => !known@.dom().contains(h@) && reached(known@, root@, h@),
            Err(LevelsStop::Cyclic) => all_known(known@, root@) && cyclic(known@, root@),
        },
{
    let levels = match tree_levels(known, &root) {
        Err(s) => {
            return Err(s);
        },
        Ok(levels) => levels,
    };
    let blobs = publish::flush_blobs(trees, stored);
    let inherited = publish::inherited_trees(trees);
    assert(inherited_count(trees@, inherited@.len()));
    Ok(
        Settled {
            snapshot: Snapshot { root, identity: Some(identity) },
            tally: SettleTally {
                blobs_stored: stored.len() as u64,
                trees_written: trees.len() as u64,
                trees_read: fold.reads,
                identities_walked: inherited.len() as u64,
                grafted: fold.grafted,
                deleted: fold.deleted,
            },
            flush: FlushSet { blobs, tree_levels: levels },
        },
    )
}

/// The planned trees take `n` different trees of the parent snapshot by address.
pub open spec fn inherited_count(trees: Seq<PlannedTree>, n: nat) -> bool {
    exists|s: Seq<Seq<char>>|
        s.len() == n && publish::no_repeats(s) && forall|h: Seq<char>|
            #[trigger] s.contains(h) <==> publish::names_inherited(publish::plan_views(trees), h)
}

/// The identity noted for a tree.
pub open spec fn identity_of(identities: Seq<(String, String)>, hash: Seq<char>) -> Option<Seq<char>>
    decreases identities.len(),
{
    if identities.len() == 0 {
        None
    } else if identities.last().0@ == hash {
        Some(identities.last().1@)
    } else {
        identity_of(identities.drop_last(), hash)
    }
}

fn noted_identity(identities: &Vec<(String, String)>, hash: &String) -> (r: Option<String>)
    ensures
        text::opt_view(r) == identity_of(identities@, hash@),
{
    let mut i: usize = identities.len();
    assert(identities@.take(i as int) =~= identities@);
    while i > 0
        invariant
            i <= identities@.len(),
            identity_of(identities@, hash@) == identity_of(identities@.take(i as int), hash@),
        decreases i,
    {
        let ghost seen = identities@.take(i as int);
        i = i - 1;
        assert(seen.drop_last() =~= identities@.take(i as int));
        assert(seen.last() == identities@[i as int]);
        if identities[i].0 == *hash {
            return Some(identities[i].1.clone());
        }
    }
    None
}

/// The entry as it counts towards a content identity: a subtree contributes its identity, never
/// its address.
pub open spec fn for_identity(e: EntryView, identities: Seq<(String, String)>) -> EntryView {
    match e.target {
        TargetView::Tree(h) => EntryView {
            target: TargetView::Tree(identity_of(identities, h)->0),
            ..e
        },
        TargetView::Blob(_) => e,
    }
}

/// The first subtree whose own identity is not noted yet.
pub open spec fn first_unnoted(entries: Seq<EntryView>, identities: Seq<(String, String)>) -> Option<Seq<char>>
    decreases entries.len(),
{
    if entries.len() == 0 {
        None
    } else {
        match first_unnoted(entries.drop_last(), identities) {
            Some(h) => Some(h),
            None => match entries.last().target {
                TargetView::Tree(h) => if identity_of(identities, h) is None {
                    Some(h)
                } else {
                    None
                },
                TargetView::Blob(_) => None,
            },
        }
    }
}

pub open spec fn all_for_identity(entries: Seq<EntryView>, identities: Seq<(String, String)>) -> Seq<EntryView> {
    entries.map_values(|e: EntryView| for_identity(e, identities))
}

proof fn unnoted_stays_first(entries: Seq<EntryView>, identities: Seq<(String, String)>, i: int)
    requires
        0 <= i <= entries.len(),
        first_unnoted(entries.take(i), identities) is Some,
    ensures
        first_unnoted(entries, identities) == first_unnoted(entries.take(i), identities),
    decreases entries.len() - i,
{
    if i == entries.len() {
        assert(entries.take(i) =~= entries);
    } else {
        assert(entries.take(i + 1).drop_last() =~= entries.take(i));
        unnoted_stays_first(entries, identities, i + 1);
    }
}

proof fn first_unnoted_is_a_subtree(entries: Seq<EntryView>, identities: Seq<(String, String)>)
    ensures
        first_unnoted(entries, identities) matches Some(h) ==> subtrees(entries).contains(h),
    decreases entries.len(),
{
    if entries.len() > 0 {
        let rest = entries.drop_last();
        first_unnoted_is_a_subtree(rest, identities);
        if let Some(h) = first_unnoted(rest, identities) {
            let k = choose|k: int| 0 <= k < subtrees(rest).len() && subtrees(rest)[k] == h;
            assert(subtrees(entries)[k] == h);
        } else if entries.last().target is Tree {
            subtree_is_listed(entries, entries.len() - 1);
        }
    }
}

/// Where every subtree is noted, each is.
pub proof fn noted_throughout(entries: Seq<EntryView>, identities: Seq<(String, String)>, i: int)
    requires
        first_unnoted(entries, identities) is None,
        0 <= i < entries.len(),
    ensures
        entries[i].target matches TargetView::Tree(h) ==> identity_of(identities, h) is Some,
    decreases entries.len(),
{
    if i < entries.len() - 1 {
        assert(entries.drop_last()[i] == entries[i]);
        noted_throughout(entries.drop_last(), identities, i);
    }
}

/// The entries as they count towards a content identity, or the first subtree whose own identity
/// is not noted yet.
pub fn identity_entries(entries: &Vec<TreeEntry>, identities: &Vec<(String, String)>) -> (r: Result<Vec<TreeEntry>, String>)
    ensures
        match r {
            Ok(v) => first_unnoted(overlay::entry_views(entries@), identities@) is None && overlay::entry_views(v@)
                == all_for_identity(overlay::entry_views(entries@), identities@),
            Err(h) => first_unnoted(overlay::entry_views(entries@), identities@) == Some(h@),
        },
{
    let ghost es = overlay::entry_views(entries@);
    let ghost want = all_for_identity(es, identities@);
    let mut out: Vec<TreeEntry> = Vec::new();
    let mut i: usize = 0;
    assert(overlay::entry_views(out@) =~= want.take(0));
    while i < entries.len()
        invariant
            i <= entries@.len(),
            es == overlay::entry_views(entries@),
            want == all_for_identity(es, identities@),
            overlay::entry_views(out@) == want.take(i as int),
            first_unnoted(es.take(i as int), identities@) is None,
        decreases entries@.len() - i,
    {
        let ghost before = overlay::entry_views(out@);
        let mut e = entries[i].copy();
        assert(es.take(i + 1).drop_last() =~= es.take(i as int));
        assert(es.take(i + 1).last() == entries@[i as int]@);
        match &entries[i].target {
            TreeTarget::Tree(h) => match noted_identity(identities, h) {
                None => {
                    proof {
                        unnoted_stays_first(es, identities@, i + 1);
                    }
                    return Err(h.clone());
                },
                Some(id) => {
                    e = TreeEntry { name: e.name, target: TreeTarget::Tree(id), mode: e.mode, mtime_ms: e.mtime_ms };
                },
            },
            TreeTarget::Blob(_) => {},
        }
        let ghost ev = e@;
        assert(ev == want[i as int]);
        out.push(e);
        assert(overlay::entry_views(out@) =~= before.push(ev));
        assert(want.take(i + 1) =~= want.take(i as int).push(ev));
        i = i + 1;
    }
    assert(es.take(i as int) =~= es);
    assert(want.take(i as int) =~= want);
    Ok(out)
}

/// What working out a tree's content identity asks for next.
#[derive(Debug)]
pub enum IdentityStep {
    /// Read the tree.
    Read(String),
    /// Digest these entries and note the result as the tree's identity.
    Digest { tree: String, entries: Vec<TreeEntry> },
    /// The identity is known.
    Known(String),
    /// The trees go deeper than there are trees.
    Cyclic,
}

/// The mathematical model of an [`IdentityStep`].
pub enum IdentityStepView {
    Read(Seq<char>),
    Digest { tree: Seq<char>, entries: Seq<EntryView> },
    Known(Seq<char>),
    Cyclic,
}

impl View for IdentityStep {
    type V = IdentityStepView;

    open spec fn view(&self) -> IdentityStepView {
        match self {
            IdentityStep::Read(h) => IdentityStepView::Read(h@),
            IdentityStep::Digest { tree, entries } => IdentityStepView::Digest {
                tree: tree@,
                entries: overlay::entry_views(entries@),
            },
            IdentityStep::Known(id) => IdentityStepView::Known(id@),
            IdentityStep::Cyclic => IdentityStepView::Cyclic,
        }
    }
}

/// A tree is digested once each of its subtrees has its identity; until then the first that has
/// none is worked out, at most `depth` levels down.
pub open spec fn identity_step_of(known: Trees, identities: Seq<(String, String)>, tree: Seq<char>, depth: nat) -> IdentityStepView
    decreases depth,
{
    match identity_of(identities, tree) {
        Some(id) => IdentityStepView::Known(id),
        None => if !known.dom().contains(tree) {
            IdentityStepView::Read(tree)
        } else {
            match first_unnoted(known[tree], identities) {
                None => IdentityStepView::Digest { tree, entries: all_for_identity(known[tree], identities) },
                Some(h) => if depth == 0 {
                    IdentityStepView::Cyclic
                } else {
                    identity_step_of(known, identities, h, (depth - 1) as nat)
                },
            }
        },
    }
}

/// What to do next to work out the content identity of `root`.
pub fn identity_step(known: &KnownTrees, identities: &Vec<(String, String)>, root: &String) -> (r: IdentityStep)
    ensures
        r@ == identity_step_of(known@, identities@, root@, known.trees@.len()),
        r is Cyclic ==> cyclic(known@, root@),
{
    let mut tree: String = root.clone();
    let mut depth: usize = known.trees.len();
    let ghost mut chain: Seq<Seq<char>> = seq![root@];
    loop
        invariant
            depth <= known.trees@.len(),
            descends(known@, root@, chain),
            chain.len() == known.trees@.len() - depth + 1,
            chain.last() == tree@,
            forall|i: int| 0 <= i < chain.len() - 1 ==> known@.dom().contains(#[trigger] chain[i]),
            identity_step_of(known@, identities@, root@, known.trees@.len()) == identity_step_of(
                known@,
                identities@,
                tree@,
                depth as nat,
            ),
        decreases depth,
    {
        match noted_identity(identities, &tree) {
            Some(id) => {
                return IdentityStep::Known(id);
            },
            None => {},
        }
        let entries = match known.get(&tree) {
            None => {
                return IdentityStep::Read(tree);
            },
            Some(entries) => entries,
        };
        match identity_entries(entries, identities) {
            Ok(entries) => {
                return IdentityStep::Digest { tree, entries };
            },
            Err(h) => {
                if depth == 0 {
                    proof {
                        long_chains_repeat(*known, chain);
                    }
                    return IdentityStep::Cyclic;
                }
                proof {
                    first_unnoted_is_a_subtree(known@[tree@], identities@);
                    let longer = chain.push(h@);
                    assert forall|i: int| 0 <= i < longer.len() - 1 implies subtrees(
                        known@[#[trigger] longer[i]],
                    ).contains(longer[i + 1]) by {
                        if i < chain.len() - 1 {
                            assert(subtrees(known@[chain[i]]).contains(chain[i + 1]));
                        }
                    }
                    chain = longer;
                }
                tree = h;
                depth = depth - 1;
            },
        }
    }
}

/// The identity last noted for a tree is the one that counts, and a tree that none was noted for
/// has none.
pub proof fn the_last_note_counts(identities: Seq<(String, String)>, hash: Seq<char>, i: int)
    requires
        -1 <= i < identities.len(),
        i >= 0 ==> identities[i].0@ == hash,
        forall|j: int| i < j < identities.len() ==> (#[trigger] identities[j]).0@ != hash,
    ensures
        identity_of(identities, hash) == (if i >= 0 {
            Some(identities[i].1@)
        } else {
            None
        }),
    decreases identities.len(),
{
    if identities.len() > 0 && i < identities.len() - 1 {
        let rest = identities.drop_last();
        assert(identities[identities.len() - 1].0@ != hash);
        assert forall|j: int| i < j < rest.len() implies (#[trigger] rest[j]).0@ != hash by {
            assert(rest[j] == identities[j]);
        }
        if i >= 0 {
            assert(rest[i] == identities[i]);
        }
        the_last_note_counts(rest, hash, i);
    }
}

/// A tree is digested over all of its entries, in their order: files as they are, and
/// directories with their identity in place of their address. Nothing else of an entry changes.
pub proof fn digests_count_every_entry(
    known: Trees,
    identities: Seq<(String, String)>,
    tree: Seq<char>,
    depth: nat,
    i: int,
)
    requires
        identity_step_of(known, identities, tree, depth) is Digest,
    ensures
        ({
            let step = identity_step_of(known, identities, tree, depth);
            let of = known[step->tree];
            &&& known.dom().contains(step->tree)
            &&& identity_of(identities, step->tree) is None
            &&& step->entries.len() == of.len()
            &&& 0 <= i < of.len() ==> {
                let e = step->entries[i];
                &&& e == (EntryView { target: e.target, ..of[i] })
                &&& of[i].target is Blob ==> e.target == of[i].target
                &&& of[i].target matches TargetView::Tree(h) ==> identity_of(identities, h) is Some && e.target
                    == TargetView::Tree(identity_of(identities, h)->0)
            }
        }),
    decreases depth,
{
    if first_unnoted(known[tree], identities) is None {
        if 0 <= i < known[tree].len() {
            noted_throughout(known[tree], identities, i);
        }
    } else {
        digests_count_every_entry(known, identities, first_unnoted(known[tree], identities)->0, (depth - 1) as nat, i);
    }
}

/// The identity of a tree is worked out from the bottom: a tree with its identity noted is done,
/// one that was not read is to be read, and one whose subtrees all have theirs is digested.
pub proof fn identities_are_worked_out_from_the_bottom(
    known: Trees,
    identities: Seq<(String, String)>,
    tree: Seq<char>,
    depth: nat,
)
    ensures
        identity_of(identities, tree) matches Some(id) ==> identity_step_of(known, identities, tree, depth)
            == IdentityStepView::Known(id),
        identity_of(identities, tree) is None && !known.dom().contains(tree) ==> identity_step_of(
            known,
            identities,
            tree,
            depth,
        ) == IdentityStepView::Read(tree),
        identity_of(identities, tree) is None && known.dom().contains(tree) && first_unnoted(known[tree], identities) is None
            ==> (identity_step_of(known, identities, tree, depth) matches IdentityStepView::Digest { tree: t, .. } && t
            == tree),
        identity_of(identities, tree) is None ==> !(identity_step_of(known, identities, tree, depth) is Known),
    decreases depth,
{
    if identity_of(identities, tree) is None && known.dom().contains(tree) {
        if let Some(h) = first_unnoted(known[tree], identities) {
            first_unnoted_has_none(known[tree], identities);
            if depth > 0 {
                identities_are_worked_out_from_the_bottom(known, identities, h, (depth - 1) as nat);
            }
        }
    }
}

proof fn first_unnoted_has_none(entries: Seq<EntryView>, identities: Seq<(String, String)>)
    requires
        first_unnoted(entries, identities) is Some,
    ensures
        identity_of(identities, first_unnoted(entries, identities)->0) is None,
    decreases entries.len(),
{
    if entries.len() > 0 && first_unnoted(entries.drop_last(), identities) is Some {
        first_unnoted_has_none(entries.drop_last(), identities);
    }
}

/// A tally counts what was stored, planned and walked as long as the counts fit, and takes the
/// reads, grafts and deletions from the fold.
pub proof fn tallies_count_what_was_done(fold: Fold, stored: nat, planned: nat, inherited: nat)
    ensures
        ({
            let t = tally_of(fold, stored, planned, inherited);
            &&& stored <= u64::MAX ==> t.blobs_stored == stored
            &&& planned <= u64::MAX ==> t.trees_written == planned
            &&& inherited <= u64::MAX ==> t.identities_walked == inherited
            &&& t.trees_read == fold.reads && t.grafted == fold.grafted && t.deleted == fold.deleted
        }),
{
}

} // verus!
