//! The mark walk over a content-addressed workspace store: which objects are reachable from
//! the roots the database knows, and from which root each was first reached.
//!
//! The walk hands out one tree after another to be read and takes the outcome of each read. It
//! keeps, as ghost state, what every read answered, and its invariant relates the marks to
//! those answers.

use crate::text;
use vstd::prelude::*;

verus! {

/// What a tree entry points at.
#[derive(Debug)]
pub enum TreeTarget {
    Tree(String),
    Blob(String),
}

/// The mathematical model of a [`TreeTarget`].
pub enum TargetView {
    Tree(Seq<char>),
    Blob(Seq<char>),
}

impl View for TreeTarget {
    type V = TargetView;

    open spec fn view(&self) -> TargetView {
        match self {
            TreeTarget::Tree(h) => TargetView::Tree(h@),
            TreeTarget::Blob(h) => TargetView::Blob(h@),
        }
    }
}

pub open spec fn target_views(v: Seq<TreeTarget>) -> Seq<TargetView> {
    v.map_values(|t: TreeTarget| t@)
}

/// The outcome of reading a tree through the tiered store.
#[derive(Debug)]
pub enum TreeRead {
    Entries(Vec<TreeTarget>),
    /// Both tiers miss the tree.
    NotFound,
    /// Any other failure, with its message: it proves nothing about the tree.
    Failed(String),
}

/// The cold key of a tree.
pub open spec fn tree_key(hash: Seq<char>) -> Seq<char> {
    "trees/"@ + hash
}

/// The cold key of a blob.
pub open spec fn blob_key(hash: Seq<char>) -> Seq<char> {
    "blobs/"@ + hash
}

/// What the reads so far answered: the entries of a tree, or that it is nowhere.
pub type Reads = Map<Seq<char>, Option<Seq<TargetView>>>;

/// `b` is a subtree entry of `a`, as read.
pub open spec fn child(reads: Reads, a: Seq<char>, b: Seq<char>) -> bool {
    reads.dom().contains(a) && reads[a] is Some && reads[a]->0.contains(TargetView::Tree(b))
}

/// A chain of trees in which each is a subtree entry of the one before it.
pub open spec fn chain(reads: Reads, p: Seq<Seq<char>>) -> bool {
    p.len() > 0 && forall|i: int| 0 <= i < p.len() - 1 ==> child(reads, #[trigger] p[i], p[i + 1])
}

/// A chain leads from tree `a` to tree `b`.
pub open spec fn reaches(reads: Reads, a: Seq<char>, b: Seq<char>) -> bool {
    exists|p: Seq<Seq<char>>| chain(reads, p) && p[0] == a && p.last() == b
}

/// A chain leads from tree `a` to a tree with blob `b` among its entries.
pub open spec fn reaches_blob(reads: Reads, a: Seq<char>, b: Seq<char>) -> bool {
    exists|h: Seq<char>|
        #[trigger] reaches(reads, a, h) && reads.dom().contains(h) && reads[h] is Some && reads[h]->0.contains(
            TargetView::Blob(b),
        )
}

/// The key of a tree or a blob that some root leads to, as read.
pub open spec fn reachable(reads: Reads, roots: Seq<(String, i64)>, key: Seq<char>) -> bool {
    ||| exists|j: int, h: Seq<char>| 0 <= j < roots.len() && key == "trees/"@ + h && #[trigger] reaches(reads, roots[j].0@, h)
    ||| exists|j: int, b: Seq<char>|
        0 <= j < roots.len() && key == "blobs/"@ + b && #[trigger] reaches_blob(reads, roots[j].0@, b)
}

/// The marked keys, each with the index of the root whose walk first reached it.
pub open spec fn marks(marked: Seq<(String, usize)>) -> Map<Seq<char>, int>
    decreases marked.len(),
{
    if marked.len() == 0 {
        Map::<Seq<char>, int>::empty()
    } else {
        marks(marked.drop_last()).insert(marked.last().0@, marked.last().1 as int)
    }
}

pub open spec fn distinct_keys(marked: Seq<(String, usize)>) -> bool {
    forall|i: int, j: int| #![trigger marked[i], marked[j]] 0 <= i < j < marked.len() ==> marked[i].0@ != marked[j].0@
}

proof fn marks_push(marked: Seq<(String, usize)>, m: (String, usize))
    ensures
        marks(marked.push(m)) == marks(marked).insert(m.0@, m.1 as int),
{
    assert(marked.push(m).drop_last() =~= marked);
}

/// Every listed key is marked, by the index listed with it where the keys are distinct; and
/// every marked key is listed.
pub proof fn marks_are_the_list(marked: Seq<(String, usize)>)
    ensures
        forall|i: int| 0 <= i < marked.len() ==> marks(marked).dom().contains((#[trigger] marked[i]).0@),
        distinct_keys(marked) ==> forall|i: int|
            0 <= i < marked.len() ==> marks(marked)[(#[trigger] marked[i]).0@] == marked[i].1,
        forall|k: Seq<char>| #[trigger]
            marks(marked).dom().contains(k) ==> exists|i: int| 0 <= i < marked.len() && (#[trigger] marked[i]).0@ == k,
    decreases marked.len(),
{
    if marked.len() > 0 {
        let short = marked.drop_last();
        marks_are_the_list(short);
        assert forall|i: int| 0 <= i < marked.len() implies marks(marked).dom().contains((#[trigger] marked[i]).0@) by {
            if i < short.len() {
                assert(marked[i] == short[i]);
            }
        }
        if distinct_keys(marked) {
            assert forall|i: int, j: int| #![trigger short[i], short[j]] 0 <= i < j < short.len() implies short[i].0@
                != short[j].0@ by {
                assert(marked[i].0@ != marked[j].0@);
            }
            assert forall|i: int| 0 <= i < marked.len() implies marks(marked)[(#[trigger] marked[i]).0@]
                == marked[i].1 by {
                if i < short.len() {
                    assert(marked[i] == short[i]);
                    assert(marked[i].0@ != marked[marked.len() - 1].0@);
                }
            }
        }
        assert forall|k: Seq<char>| #[trigger] marks(marked).dom().contains(k) implies exists|i: int|
            0 <= i < marked.len() && (#[trigger] marked[i]).0@ == k by {
            if k == marked.last().0@ {
                assert(marked[marked.len() - 1].0@ == k);
            } else {
                assert(marks(short).dom().contains(k));
                let i = choose|i: int| 0 <= i < short.len() && (#[trigger] short[i]).0@ == k;
                assert(marked[i].0@ == k);
            }
        }
    }
}

/// Tree keys name their hash, and no tree key is a blob key.
pub proof fn keys_name_their_object(a: Seq<char>, b: Seq<char>)
    ensures
        tree_key(a) == tree_key(b) ==> a == b,
        blob_key(a) == blob_key(b) ==> a == b,
        tree_key(a) != blob_key(b),
{
    reveal_strlit("trees/");
    reveal_strlit("blobs/");
    assert(tree_key(a).subrange(6, tree_key(a).len() as int) =~= a);
    assert(tree_key(b).subrange(6, tree_key(b).len() as int) =~= b);
    assert(blob_key(a).subrange(6, blob_key(a).len() as int) =~= a);
    assert(blob_key(b).subrange(6, blob_key(b).len() as int) =~= b);
    assert(tree_key(a)[0] == 't');
    assert(blob_key(b)[0] == 'b');
}

/// The walk's state.
pub struct MarkWalk {
    /// The roots in the database's order, each with the time it was recorded.
    pub roots: Vec<(String, i64)>,
    /// The root whose walk is under way.
    pub root_idx: usize,
    /// Trees found under that root and not yet looked at.
    pub frontier: Vec<String>,
    pub marked: Vec<(String, usize)>,
    /// Keys of trees the walk proved to be in neither tier.
    pub walk_missing: Vec<String>,
    /// Roots among those: references the database can forget.
    pub dangling_roots: Vec<String>,
    /// The tree that was handed out and not answered yet.
    pub pending: Option<String>,
    pub reads: Ghost<Reads>,
    /// The trees that were read, in the order of the reads.
    pub order: Ghost<Seq<Seq<char>>>,
}

/// The keys of the trees among `order` that are nowhere, in that order.
pub open spec fn missing_of(order: Seq<Seq<char>>, reads: Reads) -> Seq<Seq<char>>
    decreases order.len(),
{
    if order.len() == 0 {
        Seq::<Seq<char>>::empty()
    } else if reads[order.last()] is None {
        missing_of(order.drop_last(), reads).push(tree_key(order.last()))
    } else {
        missing_of(order.drop_last(), reads)
    }
}

/// The roots among `order` that are nowhere, in that order.
pub open spec fn dangling_of(order: Seq<Seq<char>>, reads: Reads, roots: Seq<(String, i64)>) -> Seq<Seq<char>>
    decreases order.len(),
{
    if order.len() == 0 {
        Seq::<Seq<char>>::empty()
    } else if reads[order.last()] is None && is_root(roots, order.last()) {
        dangling_of(order.drop_last(), reads, roots).push(order.last())
    } else {
        dangling_of(order.drop_last(), reads, roots)
    }
}

/// What was missing stays so when a further tree is read.
proof fn lists_ignore_later_reads(
    order: Seq<Seq<char>>,
    reads: Reads,
    roots: Seq<(String, i64)>,
    h: Seq<char>,
    answer: Option<Seq<TargetView>>,
)
    requires
        !order.contains(h),
    ensures
        missing_of(order, reads.insert(h, answer)) == missing_of(order, reads),
        dangling_of(order, reads.insert(h, answer), roots) == dangling_of(order, reads, roots),
    decreases order.len(),
{
    if order.len() > 0 {
        let short = order.drop_last();
        assert(order[order.len() - 1] != h);
        assert forall|i: int| 0 <= i < short.len() implies short[i] != h by {
            assert(order[i] != h);
        }
        lists_ignore_later_reads(short, reads, roots, h, answer);
    }
}

/// The next tree of a walk: frontier trees from the back, passing over marked ones, then the
/// next root.
pub open spec fn advance(
    frontier: Seq<Seq<char>>,
    root_idx: int,
    roots: Seq<(String, i64)>,
    marked: Map<Seq<char>, int>,
) -> (Option<Seq<char>>, Seq<Seq<char>>, int)
    decreases roots.len() - root_idx, frontier.len(),
{
    if frontier.len() > 0 {
        if marked.dom().contains(tree_key(frontier.last())) {
            advance(frontier.drop_last(), root_idx, roots, marked)
        } else {
            (Some(frontier.last()), frontier.drop_last(), root_idx)
        }
    } else if root_idx + 1 < roots.len() {
        advance(seq![roots[root_idx + 1].0@], root_idx + 1, roots, marked)
    } else {
        (None, frontier, root_idx)
    }
}

/// The marks after the blobs of a tree's entries are marked, each on first sight only.
pub open spec fn with_blobs(marked: Map<Seq<char>, int>, entries: Seq<TargetView>, idx: int) -> Map<Seq<char>, int>
    decreases entries.len(),
{
    if entries.len() == 0 {
        marked
    } else {
        let before = with_blobs(marked, entries.drop_last(), idx);
        match entries.last() {
            TargetView::Blob(b) => if before.dom().contains(blob_key(b)) {
                before
            } else {
                before.insert(blob_key(b), idx)
            },
            TargetView::Tree(_) => before,
        }
    }
}

/// The subtrees of a tree's entries, in order.
pub open spec fn subtrees(entries: Seq<TargetView>) -> Seq<Seq<char>>
    decreases entries.len(),
{
    if entries.len() == 0 {
        Seq::<Seq<char>>::empty()
    } else {
        match entries.last() {
            TargetView::Tree(t) => subtrees(entries.drop_last()).push(t),
            TargetView::Blob(_) => subtrees(entries.drop_last()),
        }
    }
}

proof fn with_blobs_facts(marked: Map<Seq<char>, int>, entries: Seq<TargetView>, idx: int)
    ensures
        forall|k: Seq<char>|
            marked.dom().contains(k) ==> #[trigger] with_blobs(marked, entries, idx).dom().contains(k) && with_blobs(
                marked,
                entries,
                idx,
            )[k] == marked[k],
        forall|k: Seq<char>| #[trigger]
            with_blobs(marked, entries, idx).dom().contains(k) && !marked.dom().contains(k) ==> with_blobs(
                marked,
                entries,
                idx,
            )[k] == idx && exists|j: int|
                0 <= j < entries.len() && (#[trigger] entries[j] matches TargetView::Blob(b) && k == blob_key(b)),
        forall|j: int|
            0 <= j < entries.len() ==> (#[trigger] entries[j] matches TargetView::Blob(b) ==> with_blobs(
                marked,
                entries,
                idx,
            ).dom().contains(blob_key(b))),
    decreases entries.len(),
{
    if entries.len() > 0 {
        let short = entries.drop_last();
        with_blobs_facts(marked, short, idx);
        let all = with_blobs(marked, entries, idx);
        let before = with_blobs(marked, short, idx);
        assert forall|k: Seq<char>| #[trigger] all.dom().contains(k) && !marked.dom().contains(k) implies all[k] == idx
            && exists|j: int|
            0 <= j < entries.len() && (#[trigger] entries[j] matches TargetView::Blob(b) && k == blob_key(b)) by {
            if before.dom().contains(k) {
                let j = choose|j: int|
                    0 <= j < short.len() && (#[trigger] short[j] matches TargetView::Blob(b) && k == blob_key(b));
                assert(entries[j] == short[j]);
            } else {
                assert(entries[entries.len() - 1] == entries.last());
            }
        }
        assert forall|j: int| 0 <= j < entries.len() implies (#[trigger] entries[j] matches TargetView::Blob(b)
            ==> all.dom().contains(blob_key(b))) by {
            if j < short.len() {
                assert(entries[j] == short[j]);
            }
        }
    }
}

proof fn subtrees_facts(entries: Seq<TargetView>)
    ensures
        forall|t: Seq<char>| #[trigger] subtrees(entries).contains(t) <==> entries.contains(TargetView::Tree(t)),
    decreases entries.len(),
{
    if entries.len() > 0 {
        let short = entries.drop_last();
        subtrees_facts(short);
        assert forall|t: Seq<char>| #[trigger] subtrees(entries).contains(t) <==> entries.contains(
            TargetView::Tree(t),
        ) by {
            assert(entries =~= short.push(entries.last()));
            if subtrees(entries).contains(t) {
                let i = choose|i: int| 0 <= i < subtrees(entries).len() && subtrees(entries)[i] == t;
                if i < subtrees(short).len() {
                    assert(subtrees(short)[i] == t);
                    assert(subtrees(short).contains(t));
                    let j = choose|j: int| 0 <= j < short.len() && short[j] == TargetView::Tree(t);
                    assert(entries[j] == TargetView::Tree(t));
                } else {
                    assert(entries[entries.len() - 1] == TargetView::Tree(t));
                }
            }
            if entries.contains(TargetView::Tree(t)) {
                let j = choose|j: int| 0 <= j < entries.len() && entries[j] == TargetView::Tree(t);
                if j < short.len() {
                    assert(short[j] == TargetView::Tree(t));
                    assert(short.contains(TargetView::Tree(t)));
                    assert(subtrees(short).contains(t));
                    let i = choose|i: int| 0 <= i < subtrees(short).len() && subtrees(short)[i] == t;
                    assert(subtrees(entries)[i] == t);
                } else {
                    assert(subtrees(entries).last() == t);
                    assert(subtrees(entries)[subtrees(entries).len() - 1] == t);
                }
            }
        }
    }
}

/// A chain stays a chain when another tree is read.
proof fn reaches_grows(reads: Reads, h: Seq<char>, answer: Option<Seq<TargetView>>)
    requires
        !reads.dom().contains(h),
    ensures
        forall|a: Seq<char>, b: Seq<char>| #[trigger] reaches(reads, a, b) ==> reaches(reads.insert(h, answer), a, b),
{
    let more = reads.insert(h, answer);
    assert forall|a: Seq<char>, b: Seq<char>| #[trigger] reaches(reads, a, b) implies reaches(more, a, b) by {
        let p = choose|p: Seq<Seq<char>>| chain(reads, p) && p[0] == a && p.last() == b;
        assert forall|i: int| 0 <= i < p.len() - 1 implies child(more, #[trigger] p[i], p[i + 1]) by {
            assert(child(reads, p[i], p[i + 1]));
        }
        assert(chain(more, p));
    }
}

/// A subtree entry of a reached tree is reached.
proof fn reaches_child(reads: Reads, a: Seq<char>, b: Seq<char>, c: Seq<char>)
    requires
        reaches(reads, a, b),
        child(reads, b, c),
    ensures
        reaches(reads, a, c),
{
    let p = choose|p: Seq<Seq<char>>| chain(reads, p) && p[0] == a && p.last() == b;
    let q = p.push(c);
    assert forall|i: int| 0 <= i < q.len() - 1 implies child(reads, #[trigger] q[i], q[i + 1]) by {
        if i < p.len() - 1 {
            assert(child(reads, p[i], p[i + 1]));
        }
    }
    assert(chain(reads, q));
    assert(q[0] == a && q.last() == c);
}

proof fn reaches_itself(reads: Reads, a: Seq<char>)
    ensures
        reaches(reads, a, a),
{
    let p = seq![a];
    assert(chain(reads, p));
    assert(p[0] == a && p.last() == a);
}

/// Whether one of the roots is `hash`.
pub open spec fn is_root(roots: Seq<(String, i64)>, hash: Seq<char>) -> bool {
    exists|i: int| 0 <= i < roots.len() && (#[trigger] roots[i]).0@ == hash
}

impl MarkWalk {
    pub open spec fn marks(self) -> Map<Seq<char>, int> {
        marks(self.marked@)
    }

    pub open spec fn front(self) -> Seq<Seq<char>> {
        text::views(self.frontier@)
    }

    /// Every entry of a read tree is marked, by a root no later than the tree's own, or is
    /// still to be looked at.
    pub open spec fn entry_covered(self, h: Seq<char>, t: TargetView) -> bool {
        match t {
            TargetView::Blob(b) => self.marks().dom().contains(blob_key(b)) && self.marks()[blob_key(b)]
                <= self.marks()[tree_key(h)],
            TargetView::Tree(c) => {
                ||| self.marks().dom().contains(tree_key(c)) && self.marks()[tree_key(c)] <= self.marks()[tree_key(h)]
                ||| self.front().contains(c) && self.marks()[tree_key(h)] == self.root_idx
            },
        }
    }

    pub open spec fn root_covered(self, j: int) -> bool {
        ||| self.marks().dom().contains(tree_key(self.roots@[j].0@)) && self.marks()[tree_key(self.roots@[j].0@)] <= j
        ||| j == self.root_idx && self.front().contains(self.roots@[j].0@)
    }

    /// A marked key is the key of an object that a chain of reads leads to from the root it is
    /// marked with.
    pub open spec fn mark_justified(self, k: Seq<char>) -> bool {
        let i = self.marks()[k];
        &&& 0 <= i <= self.root_idx
        &&& i < self.roots@.len()
        &&& {
            ||| exists|h: Seq<char>| k == tree_key(h) && #[trigger] reaches(self.reads@, self.roots@[i].0@, h)
            ||| exists|b: Seq<char>| k == blob_key(b) && #[trigger] reaches_blob(self.reads@, self.roots@[i].0@, b)
        }
    }

    /// The walk's invariant.
    pub open spec fn wf(self) -> bool {
        &&& distinct_keys(self.marked@)
        &&& self.root_idx <= self.roots@.len()
        &&& self.roots@.len() > 0 ==> self.root_idx < self.roots@.len()
        &&& self.roots@.len() == 0 ==> self.front().len() == 0
        &&& forall|h: Seq<char>| #[trigger]
            self.reads@.dom().contains(h) ==> self.marks().dom().contains(tree_key(h))
        &&& self.pending matches Some(p) ==> {
            &&& self.marks().dom().contains(tree_key(p@))
            &&& self.marks()[tree_key(p@)] == self.root_idx
            &&& !self.reads@.dom().contains(p@)
        }
        &&& forall|h: Seq<char>| #[trigger]
            self.marks().dom().contains(tree_key(h)) ==> self.reads@.dom().contains(h) || text::opt_view(self.pending)
                == Some(h)
        &&& forall|h: Seq<char>, j: int|
            #![trigger self.reads@[h]->0[j]]
            self.reads@.dom().contains(h) && self.reads@[h] is Some && 0 <= j < self.reads@[h]->0.len()
                ==> self.entry_covered(h, self.reads@[h]->0[j])
        &&& forall|j: int| 0 <= j <= self.root_idx && j < self.roots@.len() ==> #[trigger] self.root_covered(j)
        &&& forall|k: Seq<char>| #[trigger] self.marks().dom().contains(k) ==> self.mark_justified(k)
        &&& forall|c: Seq<char>| #[trigger]
            self.front().contains(c) ==> reaches(self.reads@, self.roots@[self.root_idx as int].0@, c)
        &&& forall|k: Seq<char>| #[trigger]
            text::views(self.walk_missing@).contains(k) <==> exists|h: Seq<char>|
                k == tree_key(h) && #[trigger] self.reads@.dom().contains(h) && self.reads@[h] is None
        &&& forall|h: Seq<char>| #[trigger]
            text::views(self.dangling_roots@).contains(h) <==> self.reads@.dom().contains(h) && self.reads@[h] is None
                && is_root(self.roots@, h)
        &&& text::views(self.dangling_roots@).no_duplicates()
        &&& self.listed()
    }

    /// Each tree is read once, and the missing trees and the dangling roots are listed in the
    /// order of the reads.
    pub open spec fn listed(self) -> bool {
        &&& self.order@.no_duplicates()
        &&& forall|h: Seq<char>| #[trigger] self.order@.contains(h) <==> self.reads@.dom().contains(h)
        &&& text::views(self.walk_missing@) == missing_of(self.order@, self.reads@)
        &&& text::views(self.dangling_roots@) == dangling_of(self.order@, self.reads@, self.roots@)
    }

    /// The walk at its start.
    pub open spec fn begins(self, roots: Vec<(String, i64)>) -> bool {
        &&& self.roots == roots
        &&& self.root_idx == 0
        &&& self.front() == if roots@.len() > 0 {
            seq![roots@[0].0@]
        } else {
            Seq::<Seq<char>>::empty()
        }
        &&& self.marks() == Map::<Seq<char>, int>::empty()
        &&& self.walk_missing@.len() == 0
        &&& self.dangling_roots@.len() == 0
        &&& self.pending is None
        &&& self.reads@ == Map::<Seq<char>, Option<Seq<TargetView>>>::empty()
        &&& self.order@ == Seq::<Seq<char>>::empty()
    }

    /// The walk behind the outcome of reading the tree that was handed out. A failure leaves it
    /// as it is.
    pub open spec fn told(self, outcome: TreeRead, after: MarkWalk) -> bool {
        let h = self.pending->0@;
        &&& after.roots == self.roots
        &&& after.root_idx == self.root_idx
        &&& match outcome {
            TreeRead::Entries(entries) => {
                let ts = target_views(entries@);
                &&& after.pending is None
                &&& after.reads@ == self.reads@.insert(h, Some(ts))
                &&& after.order@ == self.order@.push(h)
                &&& after.marks() == with_blobs(self.marks(), ts, self.root_idx as int)
                &&& after.front() == self.front() + subtrees(ts)
                &&& after.walk_missing == self.walk_missing
                &&& after.dangling_roots == self.dangling_roots
            },
            TreeRead::NotFound => {
                &&& after.pending is None
                &&& after.reads@ == self.reads@.insert(h, None)
                &&& after.order@ == self.order@.push(h)
                &&& after.marks() == self.marks()
                &&& after.front() == self.front()
                &&& text::views(after.walk_missing@) == text::views(self.walk_missing@).push(tree_key(h))
                &&& text::views(after.dangling_roots@) == if is_root(self.roots@, h) {
                    text::views(self.dangling_roots@).push(h)
                } else {
                    text::views(self.dangling_roots@)
                }
            },
            TreeRead::Failed(e) => after == self,
        }
    }

    /// The walk behind the choice of the next tree.
    pub open spec fn advanced(self, after: MarkWalk) -> bool {
        let (next, front, idx) = advance(self.front(), self.root_idx as int, self.roots@, self.marks());
        &&& after.roots == self.roots
        &&& after.reads == self.reads
        &&& after.order == self.order
        &&& after.walk_missing == self.walk_missing
        &&& after.dangling_roots == self.dangling_roots
        &&& text::opt_view(after.pending) == next
        &&& after.front() == front
        &&& after.root_idx == idx
        &&& match next {
            Some(h) => !self.marks().dom().contains(tree_key(h)) && after.marks() == self.marks().insert(
                tree_key(h),
                idx,
            ),
            None => after.marks() == self.marks() && after.finished(),
        }
    }

    /// Nothing is left to look at.
    pub open spec fn finished(self) -> bool {
        self.pending is None && self.front().len() == 0 && self.root_idx + 1 >= self.roots@.len()
    }

    /// A walk from `roots`, at its start.
    pub fn new(roots: Vec<(String, i64)>) -> (r: MarkWalk)
        ensures
            r.wf(),
            r.begins(roots),
    {
        let mut frontier: Vec<String> = Vec::new();
        if roots.len() > 0 {
            frontier.push(roots[0].0.clone());
        }
        let r = MarkWalk {
            roots,
            root_idx: 0,
            frontier,
            marked: Vec::new(),
            walk_missing: Vec::new(),
            dangling_roots: Vec::new(),
            pending: None,
            reads: Ghost(Map::<Seq<char>, Option<Seq<TargetView>>>::empty()),
            order: Ghost(Seq::<Seq<char>>::empty()),
        };
        proof {
            if roots@.len() > 0 {
                assert(r.front() =~= seq![roots@[0].0@]);
                assert(r.front()[0] == roots@[0].0@);
                reaches_itself(r.reads@, roots@[0].0@);
            }
            assert(r.front() =~= if roots@.len() > 0 {
                seq![roots@[0].0@]
            } else {
                Seq::<Seq<char>>::empty()
            });
            assert(text::views(r.walk_missing@) =~= missing_of(r.order@, r.reads@));
            assert(text::views(r.dangling_roots@) =~= dangling_of(r.order@, r.reads@, r.roots@));
        }
        r
    }

    pub fn is_marked(&self, key: &String) -> (r: bool)
        requires
            distinct_keys(self.marked@),
        ensures
            r == self.marks().dom().contains(key@),
    {
        proof {
            marks_are_the_list(self.marked@);
        }
        let mut i: usize = 0;
        while i < self.marked.len()
            invariant
                i <= self.marked@.len(),
                forall|j: int| 0 <= j < i ==> (#[trigger] self.marked@[j]).0@ != key@,
            decreases self.marked@.len() - i,
        {
            if self.marked[i].0 == *key {
                proof {
                    marks_are_the_list(self.marked@);
                }
                return true;
            }
            i = i + 1;
        }
        false
    }

    fn mark(&mut self, key: String)
        requires
            distinct_keys(old(self).marked@),
            !old(self).marks().dom().contains(key@),
        ensures
            distinct_keys(final(self).marked@),
            final(self).marks() == old(self).marks().insert(key@, old(self).root_idx as int),
            *final(self) == (MarkWalk { marked: final(self).marked, ..*old(self) }),
    {
        proof {
            marks_are_the_list(self.marked@);
            marks_push(self.marked@, (key, self.root_idx));
        }
        self.marked.push((key, self.root_idx));
    }

    /// The next tree to read; nothing when the walk is over.
    pub fn next_tree(&mut self) -> (r: Option<String>)
        requires
            old(self).wf(),
            old(self).pending is None,
        ensures
            final(self).wf(),
            old(self).advanced(*final(self)),
            text::opt_view(r) == text::opt_view(final(self).pending),
    {
        loop
            invariant
                self.wf(),
                self.pending is None,
                self.roots == old(self).roots,
                self.reads == old(self).reads,
                self.order == old(self).order,
                self.walk_missing == old(self).walk_missing,
                self.dangling_roots == old(self).dangling_roots,
                self.marked == old(self).marked,
                advance(self.front(), self.root_idx as int, self.roots@, self.marks()) == advance(
                    old(self).front(),
                    old(self).root_idx as int,
                    old(self).roots@,
                    old(self).marks(),
                ),
            decreases self.roots@.len() - self.root_idx, self.frontier@.len(),
        {
            let ghost before = *self;
            if self.frontier.len() > 0 {
                let hash = self.frontier.pop().unwrap();
                let ghost popped = *self;
                proof {
                    assert(before.front().last() == hash@);
                    assert(before.front().drop_last() =~= self.front());
                    assert forall|c: Seq<char>| before.front().contains(c) && c != hash@ implies self.front().contains(
                        c,
                    ) by {
                        let i = choose|i: int| 0 <= i < before.front().len() && before.front()[i] == c;
                        assert(self.front()[i] == c);
                    }
                    assert forall|c: Seq<char>| #[trigger] self.front().contains(c) implies before.front().contains(
                        c,
                    ) by {
                        let i = choose|i: int| 0 <= i < self.front().len() && self.front()[i] == c;
                        assert(before.front()[i] == c);
                    }
                    assert(before.front()[before.front().len() - 1] == hash@);
                    assert(before.front().contains(hash@));
                }
                let mut key = "trees/".to_owned();
                key.append(hash.as_str());
                if self.is_marked(&key) {
                    proof {
                        assert(before.mark_justified(tree_key(hash@)));
                        before.dropping_a_marked_tree(*self, hash@);
                    }
                    continue ;
                }
                self.mark(key);
                self.pending = Some(hash.clone());
                proof {
                    before.marking_a_fresh_tree(*self, hash@);
                }
                return Some(hash);
            }
            if self.roots.len() == 0 || self.root_idx >= self.roots.len() - 1 {
                return None;
            }
            self.root_idx = self.root_idx + 1;
            let root = self.roots[self.root_idx].0.clone();
            self.frontier.push(root);
            proof {
                assert(before.front().len() == 0);
                assert(self.front() =~= seq![self.roots@[self.root_idx as int].0@]);
                before.starting_the_next_root(*self);
            }
        }
    }

    proof fn dropping_a_marked_tree(self, after: MarkWalk, hash: Seq<char>)
        requires
            self.wf(),
            self.pending is None,
            self.marks().dom().contains(tree_key(hash)),
            after == (MarkWalk { frontier: after.frontier, ..self }),
            self.front().len() > 0,
            forall|c: Seq<char>| self.front().contains(c) && c != hash ==> after.front().contains(c),
            forall|c: Seq<char>| #[trigger] after.front().contains(c) ==> self.front().contains(c),
        ensures
            after.wf(),
    {
        assert(self.mark_justified(tree_key(hash)));
        assert forall|h: Seq<char>, j: int|
            #![trigger after.reads@[h]->0[j]]
            after.reads@.dom().contains(h) && after.reads@[h] is Some && 0 <= j
                < after.reads@[h]->0.len() implies after.entry_covered(h, after.reads@[h]->0[j]) by {
            assert(self.entry_covered(h, self.reads@[h]->0[j]));
        }
        assert forall|j: int| 0 <= j <= after.root_idx && j < after.roots@.len() implies #[trigger] after.root_covered(
            j,
        ) by {
            assert(self.root_covered(j));
        }
        assert forall|k: Seq<char>| #[trigger] after.marks().dom().contains(k) implies after.mark_justified(k) by {
            assert(self.mark_justified(k));
        }
        assert(after.roots@.len() > 0);
    }

    proof fn marking_a_fresh_tree(self, after: MarkWalk, hash: Seq<char>)
        requires
            self.wf(),
            self.pending is None,
            !self.marks().dom().contains(tree_key(hash)),
            self.front().contains(hash),
            distinct_keys(after.marked@),
            after.marks() == self.marks().insert(tree_key(hash), self.root_idx as int),
            after.pending matches Some(p) && p@ == hash,
            after == (MarkWalk { frontier: after.frontier, marked: after.marked, pending: after.pending, ..self }),
            forall|c: Seq<char>| self.front().contains(c) && c != hash ==> after.front().contains(c),
            forall|c: Seq<char>| #[trigger] after.front().contains(c) ==> self.front().contains(c),
        ensures
            after.wf(),
    {
        assert(self.front().len() > 0) by {
            let i = choose|i: int| 0 <= i < self.front().len() && self.front()[i] == hash;
        }
        assert(!self.reads@.dom().contains(hash));
        assert forall|h: Seq<char>| #[trigger] after.marks().dom().contains(tree_key(h)) implies after.reads@.dom().contains(
            h,
        ) || text::opt_view(after.pending) == Some(h) by {
            keys_name_their_object(h, hash);
            if h != hash {
                assert(self.marks().dom().contains(tree_key(h)));
            }
        }
        assert forall|h: Seq<char>, j: int|
            #![trigger after.reads@[h]->0[j]]
            after.reads@.dom().contains(h) && after.reads@[h] is Some && 0 <= j
                < after.reads@[h]->0.len() implies after.entry_covered(h, after.reads@[h]->0[j]) by {
            assert(self.entry_covered(h, self.reads@[h]->0[j]));
            assert(self.marks().dom().contains(tree_key(h)));
        }
        assert forall|j: int| 0 <= j <= after.root_idx && j < after.roots@.len() implies #[trigger] after.root_covered(
            j,
        ) by {
            assert(self.root_covered(j));
        }
        assert forall|k: Seq<char>| #[trigger] after.marks().dom().contains(k) implies after.mark_justified(k) by {
            if k == tree_key(hash) {
                assert(reaches(self.reads@, self.roots@[self.root_idx as int].0@, hash));
            } else {
                assert(self.mark_justified(k));
            }
        }
    }

    proof fn starting_the_next_root(self, after: MarkWalk)
        requires
            self.wf(),
            self.pending is None,
            self.front().len() == 0,
            self.root_idx + 1 < self.roots@.len(),
            after == (MarkWalk { frontier: after.frontier, root_idx: after.root_idx, ..self }),
            after.root_idx == self.root_idx + 1,
            after.front() == seq![self.roots@[after.root_idx as int].0@],
        ensures
            after.wf(),
    {
        assert forall|h: Seq<char>, j: int|
            #![trigger after.reads@[h]->0[j]]
            after.reads@.dom().contains(h) && after.reads@[h] is Some && 0 <= j
                < after.reads@[h]->0.len() implies after.entry_covered(h, after.reads@[h]->0[j]) by {
            assert(self.entry_covered(h, self.reads@[h]->0[j]));
        }
        assert forall|j: int| 0 <= j <= after.root_idx && j < after.roots@.len() implies #[trigger] after.root_covered(
            j,
        ) by {
            if j < after.root_idx {
                assert(self.root_covered(j));
            } else {
                assert(after.front()[0] == after.roots@[j].0@);
            }
        }
        assert forall|k: Seq<char>| #[trigger] after.marks().dom().contains(k) implies after.mark_justified(k) by {
            assert(self.mark_justified(k));
        }
        reaches_itself(after.reads@, after.roots@[after.root_idx as int].0@);
    }

    /// Take the outcome of reading the tree that was handed out. A failure that proves nothing
    /// aborts the pass.
    pub fn on_tree(&mut self, outcome: TreeRead) -> (r: Result<(), String>)
        requires
            old(self).wf(),
            old(self).pending is Some,
        ensures
            final(self).wf(),
            old(self).told(outcome, *final(self)),
            match outcome {
                TreeRead::Failed(e) => r matches Err(m) && m@ == "mark walk of tree "@ + old(self).pending->0@ + ": "@ + e@
                    + " — aborting pass"@,
                _ => r is Ok,
            },
    {
        let ghost before = *self;
        let hash = match &self.pending {
            Some(h) => h.clone(),
            None => {
                return Ok(());
            },
        };
        match outcome {
            TreeRead::Failed(e) => {
                let mut m = "mark walk of tree ".to_owned();
                m.append(hash.as_str());
                m.append(": ");
                m.append(e.as_str());
                m.append(" — aborting pass");
                Err(m)
            },
            TreeRead::NotFound => {
                let mut key = "trees/".to_owned();
                key.append(hash.as_str());
                let known = self.knows_root(&hash);
                self.walk_missing.push(key);
                if known {
                    self.dangling_roots.push(hash.clone());
                }
                self.pending = None;
                self.reads = Ghost(self.reads@.insert(hash@, None));
                self.order = Ghost(self.order@.push(hash@));
                proof {
                    assert(text::views(self.walk_missing@) =~= text::views(before.walk_missing@).push(tree_key(hash@)));
                    assert(text::views(self.dangling_roots@) =~= if is_root(before.roots@, hash@) {
                        text::views(before.dangling_roots@).push(hash@)
                    } else {
                        text::views(before.dangling_roots@)
                    });
                    before.reading_a_missing_tree(*self, hash@);
                }
                Ok(())
            },
            TreeRead::Entries(entries) => {
                let ghost ts = target_views(entries@);
                let mut i: usize = 0;
                assert(ts.take(0) =~= Seq::<TargetView>::empty());
                assert(self.front() =~= before.front() + subtrees(ts.take(0)));
                while i < entries.len()
                    invariant
                        i <= entries@.len(),
                        ts == target_views(entries@),
                        distinct_keys(self.marked@),
                        *self == (MarkWalk { frontier: self.frontier, marked: self.marked, ..before }),
                        self.marks() == with_blobs(before.marks(), ts.take(i as int), before.root_idx as int),
                        self.front() == before.front() + subtrees(ts.take(i as int)),
                    decreases entries@.len() - i,
                {
                    let ghost next = ts.take(i + 1);
                    let ghost here = *self;
                    assert(next.drop_last() =~= ts.take(i as int));
                    assert(next.last() == entries@[i as int]@);
                    match &entries[i] {
                        TreeTarget::Blob(b) => {
                            let mut key = "blobs/".to_owned();
                            key.append(b.as_str());
                            if !self.is_marked(&key) {
                                self.mark(key);
                            }
                        },
                        TreeTarget::Tree(t) => {
                            self.frontier.push(t.clone());
                            assert(self.front() =~= here.front().push(t@));
                            assert(self.front() =~= before.front() + subtrees(next));
                        },
                    }
                    i = i + 1;
                }
                assert(ts.take(i as int) =~= ts);
                self.pending = None;
                self.reads = Ghost(self.reads@.insert(hash@, Some(ts)));
                self.order = Ghost(self.order@.push(hash@));
                proof {
                    before.reading_entries(*self, hash@, ts);
                }
                Ok(())
            },
        }
    }

    fn knows_root(&self, hash: &String) -> (r: bool)
        ensures
            r == is_root(self.roots@, hash@),
    {
        let mut i: usize = 0;
        while i < self.roots.len()
            invariant
                i <= self.roots@.len(),
                forall|j: int| 0 <= j < i ==> (#[trigger] self.roots@[j]).0@ != hash@,
            decreases self.roots@.len() - i,
        {
            if self.roots[i].0 == *hash {
                return true;
            }
            i = i + 1;
        }
        false
    }

    proof fn reading_a_missing_tree(self, after: MarkWalk, hash: Seq<char>)
        requires
            self.wf(),
            text::opt_view(self.pending) == Some(hash),
            after.pending is None,
            after.reads@ == self.reads@.insert(hash, None),
            after.order@ == self.order@.push(hash),
            after == (MarkWalk {
                walk_missing: after.walk_missing,
                dangling_roots: after.dangling_roots,
                pending: after.pending,
                reads: after.reads,
                order: after.order,
                ..self
            }),
            text::views(after.walk_missing@) == text::views(self.walk_missing@).push(tree_key(hash)),
            text::views(after.dangling_roots@) == if is_root(self.roots@, hash) {
                text::views(self.dangling_roots@).push(hash)
            } else {
                text::views(self.dangling_roots@)
            },
        ensures
            after.wf(),
    {
        reaches_grows(self.reads@, hash, None);
        self.listing_a_read(after, hash, None);
        assert(!text::views(self.dangling_roots@).contains(hash));
        assert(text::views(after.dangling_roots@).no_duplicates());
        self.marks_stay_justified(after, hash, None);
        assert forall|h: Seq<char>, j: int|
            #![trigger after.reads@[h]->0[j]]
            after.reads@.dom().contains(h) && after.reads@[h] is Some && 0 <= j
                < after.reads@[h]->0.len() implies after.entry_covered(h, after.reads@[h]->0[j]) by {
            assert(h != hash);
            assert(self.entry_covered(h, self.reads@[h]->0[j]));
        }
        assert forall|j: int| 0 <= j <= after.root_idx && j < after.roots@.len() implies #[trigger] after.root_covered(
            j,
        ) by {
            assert(self.root_covered(j));
        }
        assert forall|c: Seq<char>| #[trigger] after.front().contains(c) implies reaches(
            after.reads@,
            after.roots@[after.root_idx as int].0@,
            c,
        ) by {
            assert(self.front().contains(c));
            assert(reaches(self.reads@, self.roots@[self.root_idx as int].0@, c));
        }
        let missing = text::views(self.walk_missing@);
        assert forall|k: Seq<char>| #[trigger] text::views(after.walk_missing@).contains(k) <==> exists|h: Seq<char>|
            k == tree_key(h) && #[trigger] after.reads@.dom().contains(h) && after.reads@[h] is None by {
            if missing.push(tree_key(hash)).contains(k) {
                let i = choose|i: int| 0 <= i < missing.push(tree_key(hash)).len() && missing.push(tree_key(hash))[i] == k;
                if i < missing.len() {
                    assert(missing[i] == k);
                    assert(missing.contains(k));
                    let h = choose|h: Seq<char>|
                        k == tree_key(h) && #[trigger] self.reads@.dom().contains(h) && self.reads@[h] is None;
                    assert(h != hash);
                    assert(after.reads@.dom().contains(h) && after.reads@[h] is None);
                } else {
                    assert(after.reads@.dom().contains(hash));
                }
            }
            if exists|h: Seq<char>|
                k == tree_key(h) && #[trigger] after.reads@.dom().contains(h) && after.reads@[h] is None {
                let h = choose|h: Seq<char>|
                    k == tree_key(h) && #[trigger] after.reads@.dom().contains(h) && after.reads@[h] is None;
                if h == hash {
                    assert(missing.push(tree_key(hash))[missing.len() as int] == k);
                } else {
                    assert(self.reads@.dom().contains(h) && self.reads@[h] is None);
                    assert(missing.contains(k));
                    let i = choose|i: int| 0 <= i < missing.len() && missing[i] == k;
                    assert(missing.push(tree_key(hash))[i] == k);
                }
            }
        }
        let dangling = text::views(self.dangling_roots@);
        assert forall|h: Seq<char>| #[trigger] text::views(after.dangling_roots@).contains(h) <==> after.reads@.dom().contains(
            h,
        ) && after.reads@[h] is None && is_root(after.roots@, h) by {
            assert(dangling.contains(h) <==> self.reads@.dom().contains(h) && self.reads@[h] is None && is_root(
                self.roots@,
                h,
            ));
            if dangling.push(hash).contains(h) {
                let i = choose|i: int| 0 <= i < dangling.push(hash).len() && dangling.push(hash)[i] == h;
                if i < dangling.len() {
                    assert(dangling[i] == h);
                }
            }
            if dangling.contains(h) {
                let i = choose|i: int| 0 <= i < dangling.len() && dangling[i] == h;
                assert(dangling.push(hash)[i] == h);
            }
            assert(dangling.push(hash)[dangling.len() as int] == hash);
        }
    }

    proof fn listing_a_read(self, after: MarkWalk, hash: Seq<char>, answer: Option<Seq<TargetView>>)
        requires
            self.listed(),
            !self.reads@.dom().contains(hash),
            after.roots == self.roots,
            after.reads@ == self.reads@.insert(hash, answer),
            after.order@ == self.order@.push(hash),
            text::views(after.walk_missing@) == if answer is None {
                text::views(self.walk_missing@).push(tree_key(hash))
            } else {
                text::views(self.walk_missing@)
            },
            text::views(after.dangling_roots@) == if answer is None && is_root(self.roots@, hash) {
                text::views(self.dangling_roots@).push(hash)
            } else {
                text::views(self.dangling_roots@)
            },
        ensures
            after.listed(),
    {
        lists_ignore_later_reads(self.order@, self.reads@, self.roots@, hash, answer);
        assert(!self.order@.contains(hash));
        assert(after.order@.drop_last() =~= self.order@);
        assert(after.order@.no_duplicates());
        assert forall|h: Seq<char>| #[trigger] after.order@.contains(h) <==> after.reads@.dom().contains(h) by {
            if after.order@.contains(h) {
                let i = choose|i: int| 0 <= i < after.order@.len() && after.order@[i] == h;
                if i < self.order@.len() {
                    assert(self.order@[i] == h);
                    assert(self.order@.contains(h));
                }
            }
            if after.reads@.dom().contains(h) {
                if h == hash {
                    assert(after.order@[self.order@.len() as int] == h);
                } else {
                    assert(self.order@.contains(h));
                    let i = choose|i: int| 0 <= i < self.order@.len() && self.order@[i] == h;
                    assert(after.order@[i] == h);
                }
            }
        }
    }

    proof fn marks_stay_justified(self, after: MarkWalk, hash: Seq<char>, answer: Option<Seq<TargetView>>)
        requires
            self.wf(),
            !self.reads@.dom().contains(hash),
            after.reads@ == self.reads@.insert(hash, answer),
            after.roots == self.roots,
            after.root_idx == self.root_idx,
        ensures
            forall|k: Seq<char>| #[trigger]
                self.marks().dom().contains(k) && after.marks().dom().contains(k) && after.marks()[k]
                    == self.marks()[k] ==> after.mark_justified(k),
    {
        reaches_grows(self.reads@, hash, answer);
        assert forall|k: Seq<char>| #[trigger]
            self.marks().dom().contains(k) && after.marks().dom().contains(k) && after.marks()[k]
                == self.marks()[k] implies after.mark_justified(k) by {
            assert(self.mark_justified(k));
            let a = self.roots@[self.marks()[k]].0@;
            if exists|b: Seq<char>| k == blob_key(b) && #[trigger] reaches_blob(self.reads@, a, b) {
                let b = choose|b: Seq<char>| k == blob_key(b) && #[trigger] reaches_blob(self.reads@, a, b);
                let h = choose|h: Seq<char>|
                    #[trigger] reaches(self.reads@, a, h) && self.reads@.dom().contains(h) && self.reads@[h] is Some
                        && self.reads@[h]->0.contains(TargetView::Blob(b));
                assert(h != hash);
                assert(reaches(after.reads@, a, h));
                assert(reaches_blob(after.reads@, a, b));
            } else {
                let h = choose|h: Seq<char>| k == tree_key(h) && #[trigger] reaches(self.reads@, a, h);
                assert(reaches(after.reads@, a, h));
            }
        }
    }

    proof fn reading_entries(self, after: MarkWalk, hash: Seq<char>, ts: Seq<TargetView>)
        requires
            self.wf(),
            text::opt_view(self.pending) == Some(hash),
            after.pending is None,
            distinct_keys(after.marked@),
            after.reads@ == self.reads@.insert(hash, Some(ts)),
            after.order@ == self.order@.push(hash),
            after == (MarkWalk {
                frontier: after.frontier,
                marked: after.marked,
                pending: after.pending,
                reads: after.reads,
                order: after.order,
                ..self
            }),
            after.marks() == with_blobs(self.marks(), ts, self.root_idx as int),
            after.front() == self.front() + subtrees(ts),
        ensures
            after.wf(),
    {
        let idx = self.root_idx as int;
        let root = self.roots@[idx].0@;
        with_blobs_facts(self.marks(), ts, idx);
        subtrees_facts(ts);
        reaches_grows(self.reads@, hash, Some(ts));
        self.listing_a_read(after, hash, Some(ts));
        self.marks_stay_justified(after, hash, Some(ts));
        assert(self.marks().dom().contains(tree_key(hash)));
        assert(self.mark_justified(tree_key(hash)));
        assert(reaches(after.reads@, root, hash)) by {
            if exists|b: Seq<char>| tree_key(hash) == blob_key(b) && #[trigger] reaches_blob(self.reads@, root, b) {
                let b = choose|b: Seq<char>| tree_key(hash) == blob_key(b) && #[trigger] reaches_blob(self.reads@, root, b);
                keys_name_their_object(hash, b);
            } else {
                let h = choose|h: Seq<char>| tree_key(hash) == tree_key(h) && #[trigger] reaches(self.reads@, root, h);
                keys_name_their_object(hash, h);
            }
        }
        assert forall|c: Seq<char>| self.front().contains(c) implies after.front().contains(c) by {
            let i = choose|i: int| 0 <= i < self.front().len() && self.front()[i] == c;
            assert(after.front()[i] == c);
        }
        assert forall|c: Seq<char>| subtrees(ts).contains(c) implies after.front().contains(c) by {
            let i = choose|i: int| 0 <= i < subtrees(ts).len() && subtrees(ts)[i] == c;
            assert(after.front()[self.front().len() + i] == c);
        }
        assert forall|h: Seq<char>| #[trigger] after.marks().dom().contains(tree_key(h)) implies after.reads@.dom().contains(
            h,
        ) by {
            if !self.marks().dom().contains(tree_key(h)) {
                let j = choose|j: int|
                    0 <= j < ts.len() && (#[trigger] ts[j] matches TargetView::Blob(b) && tree_key(h) == blob_key(b));
                keys_name_their_object(h, ts[j]->Blob_0);
            }
        }
        assert forall|h: Seq<char>, j: int|
            #![trigger after.reads@[h]->0[j]]
            after.reads@.dom().contains(h) && after.reads@[h] is Some && 0 <= j
                < after.reads@[h]->0.len() implies after.entry_covered(h, after.reads@[h]->0[j]) by {
            if h == hash {
                let t = ts[j];
                match t {
                    TargetView::Blob(b) => {
                        assert(after.marks().dom().contains(blob_key(b)));
                        if self.marks().dom().contains(blob_key(b)) {
                            assert(self.mark_justified(blob_key(b)));
                        }
                    },
                    TargetView::Tree(c) => {
                        assert(ts.contains(TargetView::Tree(c)));
                        assert(subtrees(ts).contains(c));
                        assert(after.front().contains(c));
                    },
                }
                assert(after.marks().dom().contains(tree_key(hash)));
                assert(after.marks()[tree_key(hash)] == idx);
                assert(after.entry_covered(h, ts[j]));
            } else {
                let t = self.reads@[h]->0[j];
                assert(self.entry_covered(h, t));
                assert(self.marks().dom().contains(tree_key(h)));
                assert(after.marks().dom().contains(tree_key(h)));
                match t {
                    TargetView::Blob(b) => {
                        assert(after.marks().dom().contains(blob_key(b)));
                    },
                    TargetView::Tree(c) => {
                        if self.marks().dom().contains(tree_key(c)) {
                            assert(after.marks().dom().contains(tree_key(c)));
                        }
                        if self.front().contains(c) {
                            assert(after.front().contains(c));
                        }
                    },
                }
                assert(after.entry_covered(h, t));
            }
        }
        assert forall|j: int| 0 <= j <= after.root_idx && j < after.roots@.len() implies #[trigger] after.root_covered(
            j,
        ) by {
            assert(self.root_covered(j));
        }
        assert forall|k: Seq<char>| #[trigger] after.marks().dom().contains(k) implies after.mark_justified(k) by {
            if !self.marks().dom().contains(k) {
                let j = choose|j: int|
                    0 <= j < ts.len() && (#[trigger] ts[j] matches TargetView::Blob(b) && k == blob_key(b));
                let b = ts[j]->Blob_0;
                assert(after.reads@[hash]->0.contains(TargetView::Blob(b)));
                assert(reaches_blob(after.reads@, root, b));
            }
        }
        assert forall|c: Seq<char>| #[trigger] after.front().contains(c) implies reaches(
            after.reads@,
            after.roots@[after.root_idx as int].0@,
            c,
        ) by {
            let i = choose|i: int| 0 <= i < after.front().len() && after.front()[i] == c;
            if i < self.front().len() {
                assert(self.front()[i] == c);
                assert(self.front().contains(c));
            } else {
                assert(subtrees(ts)[i - self.front().len()] == c);
                assert(subtrees(ts).contains(c));
                assert(child(after.reads@, hash, c));
                reaches_child(after.reads@, root, hash, c);
            }
        }
        assert(self.roots@.len() > 0);
        assert forall|k: Seq<char>| #[trigger] text::views(after.walk_missing@).contains(k) <==> exists|h: Seq<char>|
            k == tree_key(h) && #[trigger] after.reads@.dom().contains(h) && after.reads@[h] is None by {
            if text::views(self.walk_missing@).contains(k) {
                let h = choose|h: Seq<char>|
                    k == tree_key(h) && #[trigger] self.reads@.dom().contains(h) && self.reads@[h] is None;
                assert(after.reads@.dom().contains(h) && after.reads@[h] is None);
            }
            if exists|h: Seq<char>|
                k == tree_key(h) && #[trigger] after.reads@.dom().contains(h) && after.reads@[h] is None {
                let h = choose|h: Seq<char>|
                    k == tree_key(h) && #[trigger] after.reads@.dom().contains(h) && after.reads@[h] is None;
                assert(self.reads@.dom().contains(h) && self.reads@[h] is None);
            }
        }
    }

    proof fn chain_is_marked(self, j: int, p: Seq<Seq<char>>, i: int)
        requires
            self.wf(),
            self.finished(),
            0 <= j < self.roots@.len(),
            chain(self.reads@, p),
            p[0] == self.roots@[j].0@,
            0 <= i < p.len(),
        ensures
            self.marks().dom().contains(tree_key(p[i])),
            self.marks()[tree_key(p[i])] <= j,
        decreases i,
    {
        if i == 0 {
            assert(self.root_covered(j));
        } else {
            self.chain_is_marked(j, p, i - 1);
            assert(child(self.reads@, p[i - 1], p[i - 1 + 1]));
            let entries = self.reads@[p[i - 1]]->0;
            let n = choose|n: int| 0 <= n < entries.len() && entries[n] == TargetView::Tree(p[i]);
            assert(self.entry_covered(p[i - 1], self.reads@[p[i - 1]]->0[n]));
        }
    }

    /// A finished walk has marked everything: each tree that some chain of reads leads to from
    /// a root, and each blob among that tree's entries, by a root no later than that one.
    pub proof fn finished_walk_marks_all_reachable(self, j: int, h: Seq<char>)
        requires
            self.wf(),
            self.finished(),
            0 <= j < self.roots@.len(),
            reaches(self.reads@, self.roots@[j].0@, h),
        ensures
            self.reads@.dom().contains(h),
            self.marks().dom().contains(tree_key(h)),
            self.marks()[tree_key(h)] <= j,
            forall|b: Seq<char>|
                self.reads@[h] is Some && #[trigger] self.reads@[h]->0.contains(TargetView::Blob(b))
                    ==> self.marks().dom().contains(blob_key(b)) && self.marks()[blob_key(b)] <= j,
    {
        let p = choose|p: Seq<Seq<char>>| chain(self.reads@, p) && p[0] == self.roots@[j].0@ && p.last() == h;
        self.chain_is_marked(j, p, p.len() - 1);
        assert forall|b: Seq<char>|
            self.reads@[h] is Some && #[trigger] self.reads@[h]->0.contains(
                TargetView::Blob(b),
            ) implies self.marks().dom().contains(blob_key(b)) && self.marks()[blob_key(b)] <= j by {
            let entries = self.reads@[h]->0;
            let n = choose|n: int| 0 <= n < entries.len() && entries[n] == TargetView::Blob(b);
            assert(self.entry_covered(h, self.reads@[h]->0[n]));
        }
    }

    /// The dangling roots are exactly the roots that were found to be nowhere, each once; and the
    /// missing trees are exactly the trees that were.
    pub proof fn dangling_roots_are_nowhere(self, h: Seq<char>)
        requires
            self.wf(),
        ensures
            text::views(self.dangling_roots@).no_duplicates(),
            text::views(self.dangling_roots@).contains(h) <==> self.reads@.dom().contains(h) && self.reads@[h] is None && exists|
                i: int,
            | 0 <= i < self.roots@.len() && (#[trigger] self.roots@[i]).0@ == h,
            text::views(self.walk_missing@).contains("trees/"@ + h) <==> self.reads@.dom().contains(h) && self.reads@[h] is None,
    {
        let k = tree_key(h);
        if text::views(self.walk_missing@).contains(k) {
            let g = choose|g: Seq<char>| k == tree_key(g) && #[trigger] self.reads@.dom().contains(g) && self.reads@[g] is None;
            keys_name_their_object(g, h);
        }
    }

    /// In a finished walk the marked keys are exactly those of the objects that a chain of reads
    /// leads to from a root.
    pub proof fn marks_are_what_is_reachable(self, k: Seq<char>)
        requires
            self.wf(),
            self.finished(),
        ensures
            self.marks().dom().contains(k) <==> reachable(self.reads@, self.roots@, k),
    {
        if self.marks().dom().contains(k) {
            self.only_reachable_objects_are_marked(k);
            let j = self.marks()[k];
            let root = self.roots@[j].0@;
            if exists|h: Seq<char>| k == tree_key(h) && #[trigger] reaches(self.reads@, root, h) {
                let h = choose|h: Seq<char>| k == tree_key(h) && #[trigger] reaches(self.reads@, root, h);
                assert(reaches(self.reads@, self.roots@[j].0@, h));
            } else {
                let b = choose|b: Seq<char>| k == blob_key(b) && #[trigger] reaches_blob(self.reads@, root, b);
                assert(reaches_blob(self.reads@, self.roots@[j].0@, b));
            }
        }
        if reachable(self.reads@, self.roots@, k) {
            if exists|j: int, h: Seq<char>|
                0 <= j < self.roots@.len() && k == "trees/"@ + h && #[trigger] reaches(self.reads@, self.roots@[j].0@, h) {
                let (j, h) = choose|j: int, h: Seq<char>|
                    0 <= j < self.roots@.len() && k == "trees/"@ + h && #[trigger] reaches(
                        self.reads@,
                        self.roots@[j].0@,
                        h,
                    );
                self.finished_walk_marks_all_reachable(j, h);
            } else {
                let (j, b) = choose|j: int, b: Seq<char>|
                    0 <= j < self.roots@.len() && k == "blobs/"@ + b && #[trigger] reaches_blob(
                        self.reads@,
                        self.roots@[j].0@,
                        b,
                    );
                let root = self.roots@[j].0@;
                let h = choose|h: Seq<char>|
                    #[trigger] reaches(self.reads@, root, h) && self.reads@.dom().contains(h) && self.reads@[h] is Some
                        && self.reads@[h]->0.contains(TargetView::Blob(b));
                self.finished_walk_marks_all_reachable(j, h);
            }
        }
    }

    /// A walk marks nothing else: every marked key is the key of an object that a chain of
    /// reads leads to, from the very root it is marked with.
    pub proof fn only_reachable_objects_are_marked(self, k: Seq<char>)
        requires
            self.wf(),
            self.marks().dom().contains(k),
        ensures
            0 <= self.marks()[k] < self.roots@.len(),
            (exists|h: Seq<char>|
                k == tree_key(h) && #[trigger] reaches(self.reads@, self.roots@[self.marks()[k]].0@, h)) || (exists|
                b: Seq<char>,
            | k == blob_key(b) && #[trigger] reaches_blob(self.reads@, self.roots@[self.marks()[k]].0@, b)),
    {
        assert(self.mark_justified(k));
    }
}

/// Trees and blobs are kept apart, each under its own hash.
pub proof fn objects_are_kept_by_their_kind(a: Seq<char>, b: Seq<char>)
    ensures
        tree_key(a) == "trees/"@ + a,
        blob_key(a) == "blobs/"@ + a,
        tree_key(a) != blob_key(b),
        tree_key(a) == tree_key(b) ==> a == b,
        blob_key(a) == blob_key(b) ==> a == b,
{
    reveal_strlit("trees/");
    reveal_strlit("blobs/");
    assert(tree_key(a)[0] == 't' && blob_key(b)[0] == 'b');
    assert(tree_key(a).skip(6) =~= a && tree_key(b).skip(6) =~= b);
    assert(blob_key(a).skip(6) =~= a && blob_key(b).skip(6) =~= b);
}

} // verus!
