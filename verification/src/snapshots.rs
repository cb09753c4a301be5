//! What the address and the content identity of a snapshot depend on: the address on the view that
//! a reader of the snapshot has, and the identity on that view without its mtimes.
//!
//! How a tree's address and a content identity are digested is the store's affair. The laws hold of
//! every such digest, and take it as a parameter.

use crate::flush::{self, IdentityStepView};
use crate::left_view::{self, NamedEdit};
use crate::mark::TargetView;
use crate::merged::{self, Fact};
use crate::order;
use crate::overlay::{self, EditView, EntryView, Trees};
use vstd::prelude::*;

verus! {

/// How a store digests the entries of a tree.
pub type Digest = spec_fn(Seq<EntryView>) -> Seq<char>;

pub open spec fn names(entries: Seq<EntryView>) -> Seq<Seq<char>> {
    entries.map_values(|e: EntryView| e.name)
}

/// The tree and all below it are stored, at most `height` levels of them, and each lists its
/// entries in the order of their names, each name once.
pub open spec fn stands(store: Trees, tree: Seq<char>, height: nat) -> bool
    decreases height,
{
    &&& store.dom().contains(tree)
    &&& order::ascending(names(store[tree]))
    &&& forall|i: int|
        0 <= i < store[tree].len() ==> ((#[trigger] store[tree][i]).target matches TargetView::Tree(h) ==> height > 0
            && stands(store, h, (height - 1) as nat))
}

/// Every tree is stored at the digest of its entries.
pub open spec fn content_addressed(store: Trees, digest: Digest) -> bool {
    forall|tree: Seq<char>| #[trigger] store.dom().contains(tree) ==> tree == digest(store[tree])
}

/// Listings in name order that have the same names list them alike.
proof fn same_names(x: Seq<EntryView>, y: Seq<EntryView>)
    requires
        order::ascending(names(x)),
        order::ascending(names(y)),
        forall|n: Seq<char>| #[trigger] overlay::entry_named(x, n) is Some <==> overlay::entry_named(y, n) is Some,
    ensures
        names(x) == names(y),
        forall|i: int| 0 <= i < x.len() ==> overlay::entry_named(x, (#[trigger] x[i]).name) == Some(x[i]),
        forall|i: int| 0 <= i < y.len() ==> overlay::entry_named(y, (#[trigger] y[i]).name) == Some(y[i]),
{
    assert forall|n: Seq<char>| #[trigger] names(x).contains(n) <==> names(y).contains(n) by {
        named_is_listed(x, n);
        named_is_listed(y, n);
        assert(overlay::entry_named(x, n) is Some <==> overlay::entry_named(y, n) is Some);
    }
    order::ascending_is_canonical(names(x), names(y));
    assert forall|i: int| 0 <= i < x.len() implies overlay::entry_named(x, (#[trigger] x[i]).name) == Some(x[i]) by {
        named_is_listed(x, x[i].name);
    }
    assert forall|i: int| 0 <= i < y.len() implies overlay::entry_named(y, (#[trigger] y[i]).name) == Some(y[i]) by {
        named_is_listed(y, y[i].name);
    }
}

proof fn named_is_listed(x: Seq<EntryView>, n: Seq<char>)
    requires
        order::ascending(names(x)),
    ensures
        names(x).contains(n) <==> overlay::entry_named(x, n) is Some,
        overlay::entry_named(x, n) matches Some(e) ==> e.name == n && x.contains(e),
        forall|i: int| 0 <= i < x.len() && (#[trigger] x[i]).name == n ==> overlay::entry_named(x, n) == Some(x[i]),
{
    assert(overlay::distinct_names(x)) by {
        assert forall|i: int, j: int| #![trigger x[i], x[j]] 0 <= i < j < x.len() implies x[i].name != x[j].name by {
            assert(names(x)[i] != names(x)[j]);
        }
    }
    overlay::entry_named_is_listed(x, n);
    if names(x).contains(n) {
        let i = choose|i: int| 0 <= i < names(x).len() && names(x)[i] == n;
        assert(x[i].name == n);
    }
    if overlay::entry_named(x, n) is Some {
        let e = overlay::entry_named(x, n)->0;
        let i = choose|i: int| 0 <= i < x.len() && x[i] == e;
        assert(names(x)[i] == n);
    }
}

/// The view below an entry that is a tree is the view of that tree.
proof fn view_below(store: Trees, tree: Seq<char>, n: Seq<char>, sub: Seq<char>, path: Seq<Seq<char>>)
    requires
        store.dom().contains(tree),
        overlay::entry_named(store[tree], n) matches Some(e) && e.target == TargetView::Tree(sub),
        path.len() > 0,
    ensures
        merged::stored_at(store, tree, seq![n] + path) == merged::stored_at(store, sub, path),
{
    let longer = seq![n] + path;
    assert(longer.drop_first() =~= path);
    assert(longer[0] == n);
}

/// A snapshot's root is a function of its view: two snapshots that show the same at every path
/// have the same trees and the same root. So a settled root is the root that the same view gets
/// however it was stored.
pub proof fn equal_views_have_one_root(
    a_store: Trees,
    a: Seq<char>,
    b_store: Trees,
    b: Seq<char>,
    digest: Digest,
    height: nat,
)
    requires
        content_addressed(a_store, digest),
        content_addressed(b_store, digest),
        stands(a_store, a, height),
        stands(b_store, b, height),
        forall|path: Seq<Seq<char>>| #[trigger]
            merged::stored_at(a_store, a, path) == merged::stored_at(b_store, b, path),
    ensures
        a_store[a] == b_store[b],
        a == b,
    decreases height,
{
    let x = a_store[a];
    let y = b_store[b];
    assert forall|n: Seq<char>| #[trigger] overlay::entry_named(x, n) == overlay::entry_named(y, n) by {
        let one = seq![n];
        assert(merged::stored_at(a_store, a, one) == merged::stored_at(b_store, b, one));
        named_is_listed(x, n);
        named_is_listed(y, n);
        match (overlay::entry_named(x, n), overlay::entry_named(y, n)) {
            (Some(e), Some(f)) => {
                assert(merged::entry_fact(e) == merged::entry_fact(f));
                match (e.target, f.target) {
                    (TargetView::Tree(g), TargetView::Tree(h)) => {
                        let i = choose|i: int| 0 <= i < x.len() && x[i] == e;
                        let j = choose|j: int| 0 <= j < y.len() && y[j] == f;
                        assert(x[i].target == TargetView::Tree(g));
                        assert(y[j].target == TargetView::Tree(h));
                        assert forall|path: Seq<Seq<char>>| #[trigger]
                            merged::stored_at(a_store, g, path) == merged::stored_at(b_store, h, path) by {
                            if path.len() > 0 {
                                view_below(a_store, a, n, g, path);
                                view_below(b_store, b, n, h, path);
                            }
                        }
                        equal_views_have_one_root(a_store, g, b_store, h, digest, (height - 1) as nat);
                    },
                    _ => {},
                }
            },
            _ => {},
        }
    }
    same_names(x, y);
    assert(x =~= y) by {
        assert(names(x).len() == names(y).len());
        assert forall|i: int| 0 <= i < x.len() implies x[i] == y[i] by {
            assert(names(x)[i] == names(y)[i]);
            assert(overlay::entry_named(x, x[i].name) == Some(x[i]));
            assert(overlay::entry_named(y, y[i].name) == Some(y[i]));
        }
    }
}

/// What stands at a path, without its mtime.
pub open spec fn timeless(f: Option<Fact>) -> Option<Fact> {
    match f {
        Some(Fact::Leaf { blob, mode, mtime_ms }) => Some(Fact::Leaf { blob, mode, mtime_ms: None }),
        Some(Fact::Dir { mode, mtime_ms }) => Some(Fact::Dir { mode, mtime_ms: None }),
        None => None,
    }
}

pub open spec fn timeless_entries(entries: Seq<EntryView>) -> Seq<EntryView> {
    entries.map_values(|e: EntryView| EntryView { mtime_ms: None, ..e })
}

/// The digest of a content identity takes no account of mtimes.
pub open spec fn ignores_mtimes(digest: Digest) -> bool {
    forall|x: Seq<EntryView>, y: Seq<EntryView>|
        timeless_entries(x) == timeless_entries(y) ==> #[trigger] digest(x) == #[trigger] digest(y)
}

/// The content identity of a tree: the digest of its entries, in which a subtree stands with its
/// own identity.
pub open spec fn content_identity(store: Trees, digest: Digest, tree: Seq<char>, height: nat) -> Seq<char>
    decreases height, 1nat,
{
    digest(content_entries(store, digest, store[tree], height))
}

/// The entries as they count towards a content identity.
pub open spec fn content_entries(store: Trees, digest: Digest, entries: Seq<EntryView>, height: nat) -> Seq<EntryView>
    decreases height, 0nat,
{
    Seq::new(
        entries.len(),
        |i: int|
            match entries[i].target {
                TargetView::Tree(h) => EntryView {
                    target: TargetView::Tree(
                        if height == 0 {
                            h
                        } else {
                            content_identity(store, digest, h, (height - 1) as nat)
                        },
                    ),
                    ..entries[i]
                },
                TargetView::Blob(_) => entries[i],
            },
    )
}

/// Every noted identity is the content identity of its tree.
pub open spec fn notes_hold(store: Trees, digest: Digest, identities: Seq<(String, String)>) -> bool {
    forall|tree: Seq<char>, height: nat| #[trigger]
        stands(store, tree, height) ==> (flush::identity_of(identities, tree) matches Some(id) ==> id
            == content_identity(store, digest, tree, height))
}

/// Working out an identity step by step works out the content identity: a tree is digested once,
/// with the content identities of its subtrees in place of their addresses, and noting its digest
/// keeps every note true. Where the identity is known at last, it is the root's content identity.
pub proof fn steps_work_out_the_content_identity(
    known: Trees,
    store: Trees,
    digest: Digest,
    identities: Seq<(String, String)>,
    root: Seq<char>,
    depth: nat,
    note: (String, String),
    height: nat,
)
    requires
        known.submap_of(store),
        stands(store, root, height),
        notes_hold(store, digest, identities),
    ensures
        flush::identity_step_of(known, identities, root, depth) matches IdentityStepView::Known(id)
            ==> flush::identity_of(identities, root) is Some && id == content_identity(store, digest, root, height),
        flush::identity_step_of(known, identities, root, depth) matches IdentityStepView::Digest { tree, entries }
            ==> flush::identity_of(identities, tree) is None && (note.0@ == tree && note.1@ == digest(entries)
            ==> notes_hold(store, digest, identities.push(note))),
    decreases depth,
{
    match flush::identity_of(identities, root) {
        Some(id) => {},
        None => if known.dom().contains(root) {
            assert(store[root] == known[root]);
            match flush::first_unnoted(known[root], identities) {
                None => {
                    let es = known[root];
                    let entries = flush::all_for_identity(es, identities);
                    if note.0@ == root && note.1@ == digest(entries) {
                        noting_keeps_the_notes(store, digest, identities, root, note);
                    }
                },
                Some(h) => if depth > 0 {
                    unnoted_is_a_subtree(known[root], identities);
                    let i = choose|i: int| 0 <= i < store[root].len() && (#[trigger] store[root][i]).target
                        == TargetView::Tree(h);
                    assert(stands(store, h, (height - 1) as nat));
                    steps_work_out_the_content_identity(
                        known,
                        store,
                        digest,
                        identities,
                        h,
                        (depth - 1) as nat,
                        note,
                        (height - 1) as nat,
                    );
                },
            }
        },
    }
}

proof fn unnoted_is_a_subtree(entries: Seq<EntryView>, identities: Seq<(String, String)>)
    ensures
        flush::first_unnoted(entries, identities) matches Some(h) ==> flush::identity_of(identities, h) is None && exists|
            i: int,
        | 0 <= i < entries.len() && (#[trigger] entries[i]).target == TargetView::Tree(h),
    decreases entries.len(),
{
    if entries.len() > 0 {
        let rest = entries.drop_last();
        unnoted_is_a_subtree(rest, identities);
        if let Some(h) = flush::first_unnoted(rest, identities) {
            let i = choose|i: int| 0 <= i < rest.len() && (#[trigger] rest[i]).target == TargetView::Tree(h);
            assert(entries[i].target == TargetView::Tree(h));
        } else {
            assert(entries[entries.len() - 1] == entries.last());
        }
    }
}

proof fn noting_keeps_the_notes(
    store: Trees,
    digest: Digest,
    identities: Seq<(String, String)>,
    tree: Seq<char>,
    note: (String, String),
)
    requires
        notes_hold(store, digest, identities),
        flush::first_unnoted(store[tree], identities) is None,
        note.0@ == tree,
        note.1@ == digest(flush::all_for_identity(store[tree], identities)),
    ensures
        notes_hold(store, digest, identities.push(note)),
{
    let all = identities.push(note);
    assert(all.drop_last() =~= identities);
    assert forall|t: Seq<char>, n: nat| #[trigger] stands(store, t, n) implies (flush::identity_of(all, t) matches Some(
        id,
    ) ==> id == content_identity(store, digest, t, n)) by {
        if t == tree {
            let es = store[tree];
            let noted = flush::all_for_identity(es, identities);
            let counted = content_entries(store, digest, es, n);
            assert forall|i: int| 0 <= i < es.len() implies noted[i] == counted[i] by {
                assert(noted[i] == flush::for_identity(es[i], identities));
                flush::noted_throughout(es, identities, i);
                assert(es[i] == store[tree][i]);
                match es[i].target {
                    TargetView::Tree(h) => {
                        assert(stands(store, h, (n - 1) as nat));
                    },
                    TargetView::Blob(_) => {},
                }
            }
            assert(noted =~= counted);
        }
    }
}

/// A content identity is a function of the view without its mtimes: two snapshots that show the
/// same at every path but for mtimes have the same identity.
pub proof fn mtimes_do_not_count(
    a_store: Trees,
    a: Seq<char>,
    b_store: Trees,
    b: Seq<char>,
    digest: Digest,
    height: nat,
)
    requires
        ignores_mtimes(digest),
        stands(a_store, a, height),
        stands(b_store, b, height),
        forall|path: Seq<Seq<char>>|
            timeless(#[trigger] merged::stored_at(a_store, a, path)) == timeless(merged::stored_at(b_store, b, path)),
    ensures
        content_identity(a_store, digest, a, height) == content_identity(b_store, digest, b, height),
    decreases height,
{
    let x = a_store[a];
    let y = b_store[b];
    let cx = content_entries(a_store, digest, x, height);
    let cy = content_entries(b_store, digest, y, height);
    assert forall|n: Seq<char>| #[trigger] overlay::entry_named(x, n) is Some <==> overlay::entry_named(y, n) is Some by {
        let one = seq![n];
        assert(timeless(merged::stored_at(a_store, a, one)) == timeless(merged::stored_at(b_store, b, one)));
    }
    same_names(x, y);
    assert(names(x).len() == names(y).len());
    assert forall|i: int| 0 <= i < x.len() implies timeless_entries(cx)[i] == timeless_entries(cy)[i] by {
        let n = x[i].name;
        let one = seq![n];
        assert(names(x)[i] == names(y)[i]);
        assert(overlay::entry_named(x, x[i].name) == Some(x[i]));
        assert(overlay::entry_named(y, y[i].name) == Some(y[i]));
        assert(timeless(merged::stored_at(a_store, a, one)) == timeless(merged::stored_at(b_store, b, one)));
        assert(merged::stored_at(a_store, a, one) == Some(merged::entry_fact(x[i])));
        assert(merged::stored_at(b_store, b, one) == Some(merged::entry_fact(y[i])));
        match (x[i].target, y[i].target) {
            (TargetView::Tree(g), TargetView::Tree(h)) => {
                assert forall|path: Seq<Seq<char>>|
                    timeless(#[trigger] merged::stored_at(a_store, g, path)) == timeless(
                        merged::stored_at(b_store, h, path),
                    ) by {
                    if path.len() > 0 {
                        view_below(a_store, a, n, g, path);
                        view_below(b_store, b, n, h, path);
                    }
                }
                mtimes_do_not_count(a_store, g, b_store, h, digest, (height - 1) as nat);
            },
            _ => {},
        }
    }
    assert(timeless_entries(cx) =~= timeless_entries(cy));
}

/// A change that writes again what stands at its path, but for the mtime.
pub open spec fn repeats(known: Trees, root: Seq<char>, change: NamedEdit) -> bool {
    &&& match change.edit {
        EditView::Put(_) => true,
        EditView::Directory { path, redirect, opaque, meta } => redirect is None && !opaque && meta is Ok,
        EditView::Remove => false,
    }
    &&& timeless(left_view::change_fact(change.edit)) == timeless(merged::stored_at(known, root, change.names))
}

/// Writing again the bytes and the mode that stand at a path, in directories listed with the modes
/// they have, changes the view in mtimes only.
pub proof fn identical_rewrites_change_only_mtimes(
    known: Trees,
    root: Seq<char>,
    edits: Seq<NamedEdit>,
    path: Seq<Seq<char>>,
)
    requires
        left_view::orderly(edits),
        forall|i: int| 0 <= i < edits.len() ==> repeats(known, root, #[trigger] edits[i]),
        path.len() > 0,
    ensures
        timeless(left_view::left_at(known, root, left_view::changes(edits), path)) == timeless(
            merged::stored_at(known, root, path),
        ),
{
    let m = left_view::changes(edits);
    changes_are_listed(edits);
    if m.dom().contains(path) {
        let change = NamedEdit { names: path, edit: m[path] };
        assert(edits.contains(change));
        assert(repeats(known, root, change));
    } else {
        let k = left_view::nearest(m, path, path.len() - 1);
        let above = path.take(k);
        left_view::nearest_is_listed(m, path, path.len() - 1);
        assert(above + path.skip(k) =~= path);
        if k > 0 {
            let change = NamedEdit { names: above, edit: m[above] };
            assert(edits.contains(change));
            assert(repeats(known, root, change));
        }
        if k > 0 && m[above] is Put {
            left_view::listed_ways(edits, above);
            let q = above.drop_last();
            let n = above.last();
            plain_directories_inherit_their_own(known, root, edits, q);
            let t = left_view::lower(known, root, m, q)->0;
            assert(q + seq![n] =~= above);
            assert(merged::stored_at(known, root, q + seq![n]) == merged::stored_at(known, t, seq![n]));
            let tail = seq![n] + path.skip(k);
            assert(q + tail =~= path);
            assert(merged::stored_at(known, root, q + tail) == merged::stored_at(known, t, tail));
            assert(tail[0] == n);
        } else {
            plain_directories_inherit_their_own(known, root, edits, above);
        }
    }
}

/// Every change in force is one of the list.
proof fn changes_are_listed(edits: Seq<NamedEdit>)
    ensures
        forall|p: Seq<Seq<char>>| #[trigger]
            left_view::changes(edits).dom().contains(p) ==> edits.contains(
                NamedEdit { names: p, edit: left_view::changes(edits)[p] },
            ),
    decreases edits.len(),
{
    if edits.len() > 0 {
        let short = edits.drop_last();
        changes_are_listed(short);
        assert forall|p: Seq<Seq<char>>| #[trigger]
            left_view::changes(edits).dom().contains(p) implies edits.contains(
            NamedEdit { names: p, edit: left_view::changes(edits)[p] },
        ) by {
            let e = NamedEdit { names: p, edit: left_view::changes(edits)[p] };
            if p == edits.last().names {
                assert(edits[edits.len() - 1] == e);
            } else {
                assert(left_view::changes(short).dom().contains(p));
                let i = choose|i: int| 0 <= i < short.len() && short[i] == e;
                assert(edits[i] == e);
            }
        }
    }
}

/// A directory that is listed as it stands inherits the tree that stands there.
proof fn plain_directories_inherit_their_own(known: Trees, root: Seq<char>, edits: Seq<NamedEdit>, q: Seq<Seq<char>>)
    requires
        left_view::orderly(edits),
        forall|i: int| 0 <= i < edits.len() ==> repeats(known, root, #[trigger] edits[i]),
        q.len() == 0 || left_view::listed_dir(left_view::changes(edits), q),
    ensures
        left_view::lower(known, root, left_view::changes(edits), q) matches Some(t) && forall|p: Seq<Seq<char>>|
            p.len() > 0 ==> merged::stored_at(known, root, #[trigger] (q + p)) == merged::stored_at(known, t, p),
    decreases q.len(),
{
    let m = left_view::changes(edits);
    if q.len() == 0 {
        assert forall|p: Seq<Seq<char>>| p.len() > 0 implies merged::stored_at(known, root, #[trigger] (q + p))
            == merged::stored_at(known, root, p) by {
            assert(q + p =~= p);
        }
    } else {
        let above = q.drop_last();
        let n = q.last();
        left_view::listed_ways(edits, q);
        plain_directories_inherit_their_own(known, root, edits, above);
        let t = left_view::lower(known, root, m, above)->0;
        changes_are_listed(edits);
        let change = NamedEdit { names: q, edit: m[q] };
        assert(edits.contains(change));
        assert(repeats(known, root, change));
        let one = seq![n];
        assert(above + one =~= q);
        assert(merged::stored_at(known, root, above + one) == merged::stored_at(known, t, one));
        let e = overlay::entry_named(known[t], n)->0;
        let h = e.target->Tree_0;
        assert(overlay::inherited_subtree(overlay::fresh(known[t]), n) == Some(h));
        assert forall|p: Seq<Seq<char>>| p.len() > 0 implies merged::stored_at(known, root, #[trigger] (q + p))
            == merged::stored_at(known, h, p) by {
            let tail = one + p;
            assert(above + tail =~= q + p);
            assert(merged::stored_at(known, root, above + tail) == merged::stored_at(known, t, tail));
            view_below(known, t, n, h, p);
        }
    }
}

/// Settling a rewrite with identical bytes and modes keeps the content identity. `new` is a root
/// at which a reader finds the view that the changes leave.
pub proof fn identical_rewrites_keep_the_identity(
    store: Trees,
    root: Seq<char>,
    edits: Seq<NamedEdit>,
    new: Seq<char>,
    digest: Digest,
    height: nat,
)
    requires
        left_view::orderly(edits),
        forall|i: int| 0 <= i < edits.len() ==> repeats(store, root, #[trigger] edits[i]),
        forall|path: Seq<Seq<char>>|
            path.len() > 0 ==> #[trigger] merged::stored_at(store, new, path) == left_view::left_at(
                store,
                root,
                left_view::changes(edits),
                path,
            ),
        ignores_mtimes(digest),
        stands(store, root, height),
        stands(store, new, height),
    ensures
        content_identity(store, digest, new, height) == content_identity(store, digest, root, height),
{
    assert forall|path: Seq<Seq<char>>|
        timeless(#[trigger] merged::stored_at(store, new, path)) == timeless(merged::stored_at(store, root, path)) by {
        if path.len() > 0 {
            identical_rewrites_change_only_mtimes(store, root, edits, path);
        }
    }
    mtimes_do_not_count(store, new, store, root, digest, height);
}

/// Two change sets that leave one view settle to one root, whatever snapshots they were made on.
pub proof fn one_view_settles_to_one_root(
    a_store: Trees,
    a_root: Seq<char>,
    a_edits: Seq<NamedEdit>,
    a: Seq<char>,
    b_store: Trees,
    b_root: Seq<char>,
    b_edits: Seq<NamedEdit>,
    b: Seq<char>,
    digest: Digest,
    height: nat,
)
    requires
        forall|path: Seq<Seq<char>>|
            path.len() > 0 ==> left_view::left_at(a_store, a_root, left_view::changes(a_edits), path)
                == #[trigger] left_view::left_at(b_store, b_root, left_view::changes(b_edits), path),
        forall|path: Seq<Seq<char>>|
            path.len() > 0 ==> #[trigger] merged::stored_at(a_store, a, path) == left_view::left_at(
                a_store,
                a_root,
                left_view::changes(a_edits),
                path,
            ),
        forall|path: Seq<Seq<char>>|
            path.len() > 0 ==> #[trigger] merged::stored_at(b_store, b, path) == left_view::left_at(
                b_store,
                b_root,
                left_view::changes(b_edits),
                path,
            ),
        content_addressed(a_store, digest),
        content_addressed(b_store, digest),
        stands(a_store, a, height),
        stands(b_store, b, height),
    ensures
        a_store[a] == b_store[b],
        a == b,
{
    assert forall|path: Seq<Seq<char>>| #[trigger]
        merged::stored_at(a_store, a, path) == merged::stored_at(b_store, b, path) by {
        if path.len() > 0 {
            assert(merged::stored_at(b_store, b, path) == left_view::left_at(
                b_store,
                b_root,
                left_view::changes(b_edits),
                path,
            ));
        }
    }
    equal_views_have_one_root(a_store, a, b_store, b, digest, height);
}

} // verus!
