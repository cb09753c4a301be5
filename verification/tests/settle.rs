//! Folding a change set over a snapshot, held against the merged view stated as a literal tree.

use scarab_server::changeset::{ChangeSet, Directory, PathProblem, Written, WrittenKind};
use scarab_server::flush::{
    identity_entries, identity_step, settle_published, settle_untouched, tree_levels, IdentityStep, LevelsStop, Settled,
    Snapshot,
};
use scarab_server::mark::TreeTarget;
use scarab_server::overlay::{GraftProblem, KnownTrees, Stop, TreeEntry};
use scarab_server::publish::{plan, resolve};
use scarab_server::settle::{check_written, settle_change_set, SettleTally, UpperFacts};
use std::collections::BTreeMap;

const PARENT_MS: i64 = 981_173_106_000;
const STEP_MS: i64 = 1_012_795_506_000;
const SYMLINK_MODE: u32 = 0o120_777;

#[derive(Clone, Copy)]
enum Entry<'a> {
    File(&'a str, u32, i64),
    Link(&'a str),
    Dir(u32, i64),
}

enum Change<'a> {
    File,
    Link,
    Dir,
    Renamed(&'a str),
    Opaque,
    Whiteout,
}

/// A content-addressed store whose addresses are the canonical text of what they name.
struct Store {
    trees: BTreeMap<String, Vec<TreeEntry>>,
}

fn blob(contents: &str) -> String {
    format!("blob:{contents}")
}

fn link_blob(target: &str) -> String {
    format!("link:{target}")
}

fn address(entries: &[TreeEntry]) -> String {
    let mut s = String::from("(");
    for e in entries {
        let target = match &e.target {
            TreeTarget::Blob(h) => format!("b {h}"),
            TreeTarget::Tree(h) => format!("t {h}"),
        };
        s.push_str(&format!("{} {target} {:?} {:?};", e.name, e.mode, e.mtime_ms));
    }
    s.push(')');
    s
}

fn undated(entries: &[TreeEntry]) -> String {
    let mut copies: Vec<TreeEntry> = entries.iter().map(|e| e.copy()).collect();
    for e in copies.iter_mut() {
        e.mtime_ms = None;
    }
    address(&copies)
}

impl Store {
    fn put(&mut self, entries: Vec<TreeEntry>) -> String {
        let h = address(&entries);
        self.trees.insert(h.clone(), entries);
        h
    }

    fn read(&self, h: &str) -> Vec<TreeEntry> {
        self.trees[h].iter().map(|e| e.copy()).collect()
    }

    /// The content identity of a tree: the same fold with every mtime dropped.
    fn identity(&self, root: &str) -> String {
        let mut known = KnownTrees::new();
        let mut noted: Vec<(String, String)> = Vec::new();
        loop {
            match identity_step(&known, &noted, &root.to_string()) {
                IdentityStep::Known(id) => return id,
                IdentityStep::Read(h) => {
                    let entries = self.read(&h);
                    known.learn(h, entries);
                }
                IdentityStep::Digest { tree, entries } => noted.push((tree, undated(&entries))),
                IdentityStep::Cyclic => panic!("a content-addressed store has no cycles"),
            }
        }
    }

    fn ingest_dir(&mut self, prefix: &str, entries: &[(&str, Entry<'_>)]) -> String {
        let mut out: BTreeMap<String, TreeEntry> = BTreeMap::new();
        for (path, entry) in entries {
            let rest = if prefix.is_empty() {
                *path
            } else if let Some(r) = path.strip_prefix(&format!("{prefix}/")) {
                r
            } else {
                continue;
            };
            if rest.contains('/') {
                continue;
            }
            let (target, mode, mtime_ms) = match entry {
                Entry::File(c, m, t) => (TreeTarget::Blob(blob(c)), Some(*m), Some(*t)),
                Entry::Link(t) => (TreeTarget::Blob(link_blob(t)), Some(SYMLINK_MODE), None),
                Entry::Dir(m, t) => {
                    let sub = self.ingest_dir(path, entries);
                    (TreeTarget::Tree(sub), Some(*m), Some(*t))
                }
            };
            out.insert(
                rest.to_string(),
                TreeEntry { name: rest.to_string(), target, mode, mtime_ms },
            );
        }
        self.put(out.into_values().collect())
    }

    fn ingest(&mut self, entries: &[(&str, Entry<'_>)]) -> Snapshot {
        let root = self.ingest_dir("", entries);
        let identity = Some(self.identity(&root));
        Snapshot { root, identity }
    }
}

fn change_set(entries: &[(&str, Change<'_>)]) -> ChangeSet {
    let mut change = ChangeSet { written: vec![], directories: vec![], deleted: vec![] };
    for (path, kind) in entries {
        let path = path.as_bytes().to_vec();
        match kind {
            Change::File => change.written.push(Written { path, kind: WrittenKind::File }),
            Change::Link => change.written.push(Written { path, kind: WrittenKind::Symlink }),
            Change::Dir => change.directories.push(Directory { path, redirect: None, opaque: false }),
            Change::Renamed(from) => change.directories.push(Directory {
                path,
                redirect: Some(from.as_bytes().to_vec()),
                opaque: false,
            }),
            Change::Opaque => change.directories.push(Directory { path, redirect: None, opaque: true }),
            Change::Whiteout => change.deleted.push(path),
        }
    }
    change.written.sort_by(|a, b| a.path.cmp(&b.path));
    change.directories.sort_by(|a, b| a.path.cmp(&b.path));
    change.deleted.sort();
    change
}

fn upper_entry<'a>(upper: &'a [(&'a str, Entry<'a>)], path: &[u8]) -> Option<Entry<'a>> {
    upper.iter().find(|(p, _)| p.as_bytes() == path).map(|(_, e)| *e)
}

fn settle(
    store: &mut Store,
    parent: &Snapshot,
    upper: &[(&str, Entry<'_>)],
    change: &ChangeSet,
) -> Result<Settled, Stop> {
    if let Some(s) = settle_untouched(parent, change) {
        return Ok(s);
    }
    let facts: Vec<Result<UpperFacts, String>> = change
        .written
        .iter()
        .map(|w| match upper_entry(upper, &w.path) {
            Some(Entry::File(_, mode, ms)) => Ok(UpperFacts {
                kind: Some(WrittenKind::File),
                mode: mode | 0o100_000,
                mtime_ms: Some(ms),
            }),
            Some(Entry::Link(_)) => {
                Ok(UpperFacts { kind: Some(WrittenKind::Symlink), mode: 0o777, mtime_ms: None })
            }
            Some(Entry::Dir(mode, ms)) => Ok(UpperFacts { kind: None, mode, mtime_ms: Some(ms) }),
            None => Err("no such file or directory".to_string()),
        })
        .collect();
    let jobs = check_written(&change.written, &facts)?;
    let blobs: Vec<String> = change
        .written
        .iter()
        .map(|w| match upper_entry(upper, &w.path) {
            Some(Entry::File(c, ..)) => blob(c),
            Some(Entry::Link(t)) => link_blob(t),
            _ => unreachable!(),
        })
        .collect();
    let metas: Vec<Result<(u32, Option<i64>), String>> = change
        .directories
        .iter()
        .map(|d| match upper_entry(upper, &d.path) {
            Some(Entry::Dir(mode, ms)) => Ok((mode | 0o040_000, Some(ms))),
            _ => Err("not a directory".to_string()),
        })
        .collect();
    let mut known = KnownTrees::new();
    let fold = loop {
        match settle_change_set(&known, &parent.root, change, &metas, &jobs, &blobs, SYMLINK_MODE) {
            Ok(f) => break f,
            Err(Stop::NeedTree(h)) => {
                let entries = store.read(&h);
                known.learn(h, entries);
            }
            Err(s) => return Err(s),
        }
    };
    let trees = plan(&fold);
    let mut hashes: Vec<String> = Vec::new();
    for t in &trees {
        let entries = resolve(t, &hashes);
        hashes.push(store.put(entries));
    }
    let root = hashes[hashes.len() - 1].clone();
    let identity = store.identity(&root);
    loop {
        match settle_published(root.clone(), identity.clone(), &fold, &blobs, &trees, &known) {
            Ok(s) => return Ok(s),
            Err(LevelsStop::NeedTree(h)) => {
                let entries = store.read(&h);
                known.learn(h, entries);
            }
            Err(LevelsStop::Cyclic) => panic!("a content-addressed store has no cycles"),
        }
    }
}

fn fixture(entries: &[(&str, Entry<'_>)]) -> (Store, Snapshot) {
    let mut store = Store { trees: BTreeMap::new() };
    let parent = store.ingest(entries);
    (store, parent)
}

fn expect_merged(store: &mut Store, expected: &[(&str, Entry<'_>)], parent: &Snapshot, settled: &Settled) {
    let want = store.ingest(expected);
    assert_ne!(want.root, parent.root);
    assert_eq!(settled.snapshot.root, want.root);
    assert_eq!(settled.snapshot.identity, want.identity);
}

#[test]
fn an_untouched_step_reproduces_its_input_snapshot_and_rehashes_nothing() {
    let (mut store, parent) = fixture(&[
        ("keep.txt", Entry::File("keep", 0o644, PARENT_MS)),
        ("sub", Entry::Dir(0o755, PARENT_MS)),
        ("sub/inner.txt", Entry::File("inner", 0o600, PARENT_MS)),
    ]);
    let settled = settle(&mut store, &parent, &[], &change_set(&[])).unwrap();
    assert_eq!(settled.snapshot.root, parent.root);
    assert_eq!(settled.snapshot.identity, parent.identity);
    assert_eq!(settled.tally, SettleTally::default());
    assert!(settled.flush.blobs.is_empty());
    assert!(settled.flush.tree_levels.is_empty());
}

#[test]
fn the_fold_publishes_the_merged_view_and_rebuilds_only_the_touched_path() {
    let (mut store, parent) = fixture(&[
        ("keep.txt", Entry::File("keep", 0o644, PARENT_MS)),
        ("edit.txt", Entry::File("before", 0o644, PARENT_MS)),
        ("sub", Entry::Dir(0o755, PARENT_MS)),
        ("sub/inner.txt", Entry::File("inner", 0o600, PARENT_MS)),
        ("empty", Entry::Dir(0o700, PARENT_MS)),
    ]);
    let upper = [
        ("edit.txt", Entry::File("after", 0o644, STEP_MS)),
        ("new.txt", Entry::File("new", 0o755, STEP_MS)),
        ("link", Entry::Link("keep.txt")),
        ("sub", Entry::Dir(0o750, STEP_MS)),
        ("sub/added.txt", Entry::File("added", 0o644, STEP_MS)),
    ];
    let change = change_set(&[
        ("edit.txt", Change::File),
        ("link", Change::Link),
        ("new.txt", Change::File),
        ("sub", Change::Dir),
        ("sub/added.txt", Change::File),
    ]);
    let settled = settle(&mut store, &parent, &upper, &change).unwrap();
    expect_merged(
        &mut store,
        &[
            ("keep.txt", Entry::File("keep", 0o644, PARENT_MS)),
            ("edit.txt", Entry::File("after", 0o644, STEP_MS)),
            ("new.txt", Entry::File("new", 0o755, STEP_MS)),
            ("link", Entry::Link("keep.txt")),
            ("sub", Entry::Dir(0o750, STEP_MS)),
            ("sub/inner.txt", Entry::File("inner", 0o600, PARENT_MS)),
            ("sub/added.txt", Entry::File("added", 0o644, STEP_MS)),
            ("empty", Entry::Dir(0o700, PARENT_MS)),
        ],
        &parent,
        &settled,
    );
    assert_eq!(settled.tally.blobs_stored, 4);
    assert_eq!(settled.tally.trees_written, 2);
    assert_eq!(settled.tally.trees_read, 2);
    assert_eq!(settled.tally.identities_walked, 1);
}

#[test]
fn the_flush_inventory_names_every_reused_blob_and_orders_trees_deepest_first() {
    let (mut store, parent) = fixture(&[
        ("keep.txt", Entry::File("keep", 0o644, PARENT_MS)),
        ("sub", Entry::Dir(0o755, PARENT_MS)),
        ("sub/inner.txt", Entry::File("inner", 0o600, PARENT_MS)),
        ("sub/deep", Entry::Dir(0o755, PARENT_MS)),
        ("sub/deep/x.txt", Entry::File("before", 0o644, PARENT_MS)),
    ]);
    let upper = [
        ("sub", Entry::Dir(0o755, STEP_MS)),
        ("sub/deep", Entry::Dir(0o755, STEP_MS)),
        ("sub/deep/x.txt", Entry::File("after", 0o644, STEP_MS)),
    ];
    let change = change_set(&[
        ("sub", Change::Dir),
        ("sub/deep", Change::Dir),
        ("sub/deep/x.txt", Change::File),
    ]);
    let settled = settle(&mut store, &parent, &upper, &change).unwrap();
    assert_eq!(settled.tally.blobs_stored, 1);
    for b in [blob("after"), blob("keep"), blob("inner")] {
        assert!(settled.flush.blobs.contains(&b));
    }
    assert_eq!(settled.flush.tree_count(), 3);
    assert_eq!(settled.flush.tree_levels.len(), 3);
    assert_eq!(settled.flush.tree_levels.last(), Some(&vec![settled.snapshot.root.clone()]));
}

#[test]
fn the_flush_inventory_names_inherited_sub_trees_at_their_true_depth() {
    let (mut store, parent) = fixture(&[
        ("edit.txt", Entry::File("before", 0o644, PARENT_MS)),
        ("top", Entry::Dir(0o755, PARENT_MS)),
        ("top/mid", Entry::Dir(0o755, PARENT_MS)),
        ("top/mid/leaf.txt", Entry::File("leaf", 0o644, PARENT_MS)),
    ]);
    let upper = [("edit.txt", Entry::File("after", 0o644, STEP_MS))];
    let change = change_set(&[("edit.txt", Change::File)]);
    let settled = settle(&mut store, &parent, &upper, &change).unwrap();
    assert_eq!(settled.tally.trees_written, 1);
    let tree_named = |entries: Vec<TreeEntry>, name: &str| -> String {
        for e in entries {
            if e.name == name {
                if let TreeTarget::Tree(h) = e.target {
                    return h;
                }
            }
        }
        panic!("the fixture has a directory `{name}`")
    };
    let top = tree_named(store.read(&parent.root), "top");
    let mid = tree_named(store.read(&top), "mid");
    let levels = &settled.flush.tree_levels;
    assert_eq!(levels.len(), 3);
    assert_eq!(levels[2], vec![settled.snapshot.root.clone()]);
    assert_eq!(levels[1], vec![top.clone()]);
    assert_eq!(levels[0], vec![mid.clone()]);
}

#[test]
fn a_rewrite_with_identical_bytes_moves_the_root_and_not_the_identity() {
    let (mut store, parent) = fixture(&[
        ("f.txt", Entry::File("same", 0o644, PARENT_MS)),
        ("big", Entry::Dir(0o755, PARENT_MS)),
        ("big/other.txt", Entry::File("other", 0o644, PARENT_MS)),
    ]);
    let upper = [("f.txt", Entry::File("same", 0o644, STEP_MS))];
    let change = change_set(&[("f.txt", Change::File)]);
    let settled = settle(&mut store, &parent, &upper, &change).unwrap();
    expect_merged(
        &mut store,
        &[
            ("f.txt", Entry::File("same", 0o644, STEP_MS)),
            ("big", Entry::Dir(0o755, PARENT_MS)),
            ("big/other.txt", Entry::File("other", 0o644, PARENT_MS)),
        ],
        &parent,
        &settled,
    );
    assert_ne!(settled.snapshot.root, parent.root);
    assert_eq!(settled.snapshot.identity, parent.identity);
}

#[test]
fn one_view_settles_to_one_root_however_it_came_about() {
    let (mut store, parent) = fixture(&[
        ("old", Entry::Dir(0o755, PARENT_MS)),
        ("old/f.txt", Entry::File("f", 0o644, PARENT_MS)),
    ]);
    let upper = [
        ("new", Entry::Dir(0o755, STEP_MS)),
        ("new/f.txt", Entry::File("f", 0o644, PARENT_MS)),
    ];
    let renamed = change_set(&[("new", Change::Renamed("old")), ("old", Change::Whiteout)]);
    let rewritten =
        change_set(&[("new", Change::Opaque), ("new/f.txt", Change::File), ("old", Change::Whiteout)]);
    let a = settle(&mut store, &parent, &upper, &renamed).unwrap();
    let b = settle(&mut store, &parent, &upper, &rewritten).unwrap();
    assert_eq!(a.snapshot.root, b.snapshot.root);
    assert_eq!(a.snapshot.identity, b.snapshot.identity);
    assert_ne!(a.snapshot.root, parent.root);
}

#[test]
fn a_whiteout_drops_the_parents_subtree_at_that_path() {
    let (mut store, parent) = fixture(&[
        ("keep.txt", Entry::File("keep", 0o644, PARENT_MS)),
        ("gone", Entry::Dir(0o755, PARENT_MS)),
        ("gone/f.txt", Entry::File("f", 0o644, PARENT_MS)),
        ("gone/deep", Entry::Dir(0o755, PARENT_MS)),
        ("gone/deep/g.txt", Entry::File("g", 0o644, PARENT_MS)),
    ]);
    let change = change_set(&[("gone", Change::Whiteout)]);
    let settled = settle(&mut store, &parent, &[], &change).unwrap();
    expect_merged(
        &mut store,
        &[("keep.txt", Entry::File("keep", 0o644, PARENT_MS))],
        &parent,
        &settled,
    );
    assert_eq!(settled.tally.deleted, 1);
    assert_eq!(settled.tally.trees_written, 1);
}

#[test]
fn an_opaque_directory_replaces_the_parents_subtree_wholesale() {
    let (mut store, parent) = fixture(&[
        ("keep.txt", Entry::File("keep", 0o644, PARENT_MS)),
        ("d", Entry::Dir(0o755, PARENT_MS)),
        ("d/old.txt", Entry::File("old", 0o644, PARENT_MS)),
        ("d/stale", Entry::Dir(0o755, PARENT_MS)),
        ("d/stale/x.txt", Entry::File("x", 0o644, PARENT_MS)),
    ]);
    let upper = [
        ("d", Entry::Dir(0o700, STEP_MS)),
        ("d/new.txt", Entry::File("new", 0o644, STEP_MS)),
    ];
    let change = change_set(&[("d", Change::Opaque), ("d/new.txt", Change::File)]);
    let settled = settle(&mut store, &parent, &upper, &change).unwrap();
    expect_merged(
        &mut store,
        &[
            ("keep.txt", Entry::File("keep", 0o644, PARENT_MS)),
            ("d", Entry::Dir(0o700, STEP_MS)),
            ("d/new.txt", Entry::File("new", 0o644, STEP_MS)),
        ],
        &parent,
        &settled,
    );
}

#[test]
fn a_renamed_directory_grafts_the_parents_subtree_at_its_new_name() {
    let (mut store, parent) = fixture(&[
        ("other.txt", Entry::File("other", 0o644, PARENT_MS)),
        ("old", Entry::Dir(0o755, PARENT_MS)),
        ("old/f.txt", Entry::File("f", 0o644, PARENT_MS)),
        ("old/sub", Entry::Dir(0o755, PARENT_MS)),
        ("old/sub/g.txt", Entry::File("g", 0o600, PARENT_MS)),
    ]);
    let upper = [("new", Entry::Dir(0o755, STEP_MS))];
    let change = change_set(&[("new", Change::Renamed("old")), ("old", Change::Whiteout)]);
    let settled = settle(&mut store, &parent, &upper, &change).unwrap();
    expect_merged(
        &mut store,
        &[
            ("other.txt", Entry::File("other", 0o644, PARENT_MS)),
            ("new", Entry::Dir(0o755, STEP_MS)),
            ("new/f.txt", Entry::File("f", 0o644, PARENT_MS)),
            ("new/sub", Entry::Dir(0o755, PARENT_MS)),
            ("new/sub/g.txt", Entry::File("g", 0o600, PARENT_MS)),
        ],
        &parent,
        &settled,
    );
    assert_eq!(settled.tally.grafted, 1);
    assert_eq!(settled.tally.blobs_stored, 0);
    assert_eq!(settled.tally.trees_written, 2);
}

#[test]
fn a_graft_under_a_renamed_ancestor_resolves_from_the_parent_snapshots_root() {
    let (mut store, parent) = fixture(&[
        ("a", Entry::Dir(0o755, PARENT_MS)),
        ("a/c", Entry::Dir(0o755, PARENT_MS)),
        ("a/c/keep.txt", Entry::File("keep", 0o644, PARENT_MS)),
        ("a/c/x", Entry::Dir(0o755, PARENT_MS)),
        ("a/c/x/f.txt", Entry::File("f", 0o644, PARENT_MS)),
        ("z", Entry::Dir(0o755, PARENT_MS)),
        ("z/w", Entry::Dir(0o755, PARENT_MS)),
        ("z/w/h.txt", Entry::File("h", 0o644, PARENT_MS)),
    ]);
    let upper = [
        ("b", Entry::Dir(0o755, STEP_MS)),
        ("b/c", Entry::Dir(0o750, STEP_MS)),
        ("b/c/y", Entry::Dir(0o700, STEP_MS)),
        ("b/c/moved", Entry::Dir(0o711, STEP_MS)),
        ("z", Entry::Dir(0o750, STEP_MS)),
    ];
    let change = change_set(&[
        ("a", Change::Whiteout),
        ("b", Change::Renamed("a")),
        ("b/c", Change::Dir),
        ("b/c/x", Change::Whiteout),
        ("b/c/y", Change::Renamed("a/c/x")),
        ("b/c/moved", Change::Renamed("z/w")),
        ("z", Change::Dir),
        ("z/w", Change::Whiteout),
    ]);
    let settled = settle(&mut store, &parent, &upper, &change).unwrap();
    expect_merged(
        &mut store,
        &[
            ("b", Entry::Dir(0o755, STEP_MS)),
            ("b/c", Entry::Dir(0o750, STEP_MS)),
            ("b/c/keep.txt", Entry::File("keep", 0o644, PARENT_MS)),
            ("b/c/y", Entry::Dir(0o700, STEP_MS)),
            ("b/c/y/f.txt", Entry::File("f", 0o644, PARENT_MS)),
            ("b/c/moved", Entry::Dir(0o711, STEP_MS)),
            ("b/c/moved/h.txt", Entry::File("h", 0o644, PARENT_MS)),
            ("z", Entry::Dir(0o750, STEP_MS)),
        ],
        &parent,
        &settled,
    );
    assert_eq!(settled.tally.grafted, 3);
    assert_eq!(settled.tally.blobs_stored, 0);
}

#[test]
fn an_added_empty_directory_survives_the_fold() {
    let (mut store, parent) = fixture(&[("keep.txt", Entry::File("keep", 0o644, PARENT_MS))]);
    let upper = [("build", Entry::Dir(0o700, STEP_MS))];
    let change = change_set(&[("build", Change::Dir)]);
    let settled = settle(&mut store, &parent, &upper, &change).unwrap();
    expect_merged(
        &mut store,
        &[
            ("keep.txt", Entry::File("keep", 0o644, PARENT_MS)),
            ("build", Entry::Dir(0o700, STEP_MS)),
        ],
        &parent,
        &settled,
    );
}

#[test]
fn a_graft_the_parent_snapshot_cannot_source_is_refused() {
    let (mut store, parent) = fixture(&[("keep.txt", Entry::File("keep", 0o644, PARENT_MS))]);
    let upper = [("new", Entry::Dir(0o755, STEP_MS))];
    for (redirect, expected) in [
        ("never-existed", GraftProblem::Missing),
        ("keep.txt", GraftProblem::NotADirectory),
    ] {
        let change = change_set(&[("new", Change::Renamed(redirect))]);
        match settle(&mut store, &parent, &upper, &change) {
            Err(Stop::GraftSource { from, to, graft }) => {
                assert_eq!(from, redirect.as_bytes().to_vec());
                assert_eq!(to, b"new".to_vec());
                assert_eq!(graft, expected);
            }
            other => panic!("expected a graft-source refusal for {redirect:?}, got {other:?}"),
        }
    }
    assert_eq!(GraftProblem::Missing.describe(), "the parent snapshot holds nothing there");
}

#[test]
fn a_change_set_path_that_leaves_the_workspace_is_refused() {
    let (mut store, parent) = fixture(&[("keep.txt", Entry::File("keep", 0o644, PARENT_MS))]);
    for (path, expected) in [
        (b"../escape.txt".to_vec(), PathProblem::ParentSegment),
        (b"/etc/passwd".to_vec(), PathProblem::NotRelative),
        (vec![b'n', 0xff, b'o'], PathProblem::NonUtf8),
    ] {
        let change = ChangeSet {
            written: vec![Written { path: path.clone(), kind: WrittenKind::File }],
            directories: vec![],
            deleted: vec![],
        };
        match settle(&mut store, &parent, &[], &change) {
            Err(Stop::UnsafePath { path: named, problem }) => {
                assert_eq!(named, path);
                assert_eq!(problem, expected);
            }
            other => panic!("expected an unsafe-path refusal for {path:?}, got {other:?}"),
        }
    }
    let empty = ChangeSet { written: vec![], directories: vec![], deleted: vec![vec![]] };
    assert!(matches!(
        settle(&mut store, &parent, &[], &empty),
        Err(Stop::UnsafePath { problem: PathProblem::Empty, .. })
    ));
    assert_eq!(PathProblem::Empty.describe(), "names no path at all");
}

#[test]
fn a_written_path_the_upper_no_longer_holds_as_content_is_refused() {
    let (mut store, parent) = fixture(&[("keep.txt", Entry::File("keep", 0o644, PARENT_MS))]);
    let upper = [("content.txt", Entry::Link("../outside.txt"))];
    let change = change_set(&[("content.txt", Change::File)]);
    match settle(&mut store, &parent, &upper, &change) {
        Err(Stop::Io { path, message }) => {
            assert_eq!(path, b"content.txt".to_vec());
            assert_eq!(
                message,
                "the change set read this path as File, but the upper layer holds Symlink there now"
            );
        }
        other => panic!("expected the upper-layer read to be refused, got {other:?}"),
    }
}

#[test]
fn a_file_in_place_of_a_directory_hides_what_was_below_it() {
    let (mut store, parent) = fixture(&[
        ("d", Entry::Dir(0o755, PARENT_MS)),
        ("d/x.txt", Entry::File("x", 0o644, PARENT_MS)),
    ]);
    let upper = [("d", Entry::File("now a file", 0o644, STEP_MS))];
    let change = change_set(&[("d", Change::File)]);
    let settled = settle(&mut store, &parent, &upper, &change).unwrap();
    expect_merged(
        &mut store,
        &[("d", Entry::File("now a file", 0o644, STEP_MS))],
        &parent,
        &settled,
    );
}

#[test]
fn an_identity_is_worked_out_children_first() {
    let named = |name: &str, target: TreeTarget| TreeEntry {
        name: name.to_string(),
        target,
        mode: Some(0o644),
        mtime_ms: Some(STEP_MS),
    };
    let root = "root".to_string();
    let mut known = KnownTrees::new();
    let mut noted: Vec<(String, String)> = Vec::new();
    assert!(matches!(identity_step(&known, &noted, &root), IdentityStep::Read(h) if h == "root"));
    let entries = vec![named("f", TreeTarget::Blob("b".into())), named("sub", TreeTarget::Tree("t".into()))];
    assert_eq!(identity_entries(&entries, &noted).unwrap_err(), "t");
    known.learn(root.clone(), entries);
    assert!(matches!(identity_step(&known, &noted, &root), IdentityStep::Read(h) if h == "t"));
    known.learn("t".into(), vec![]);
    match identity_step(&known, &noted, &root) {
        IdentityStep::Digest { tree, entries } => {
            assert_eq!(tree, "t");
            assert!(entries.is_empty());
        }
        other => panic!("{other:?}"),
    }
    noted.push(("t".into(), "id-of-t".into()));
    match identity_step(&known, &noted, &root) {
        IdentityStep::Digest { tree, entries } => {
            assert_eq!(tree, "root");
            assert!(matches!(&entries[0].target, TreeTarget::Blob(h) if h == "b"));
            assert!(matches!(&entries[1].target, TreeTarget::Tree(id) if id == "id-of-t"));
        }
        other => panic!("{other:?}"),
    }
    noted.push((root.clone(), "id".into()));
    assert!(matches!(identity_step(&known, &noted, &root), IdentityStep::Known(id) if id == "id"));
    let mut looped = KnownTrees::new();
    looped.learn("l".into(), vec![named("l", TreeTarget::Tree("l".into()))]);
    assert!(matches!(identity_step(&looped, &Vec::new(), &"l".to_string()), IdentityStep::Cyclic));
}

#[test]
fn levels_ask_for_an_unknown_tree_before_they_speak_of_a_cycle() {
    let sub = |name: &str, tree: &str| TreeEntry {
        name: name.to_string(),
        target: TreeTarget::Tree(tree.to_string()),
        mode: None,
        mtime_ms: None,
    };
    let root = "root".to_string();
    let mut known = KnownTrees::new();
    assert!(matches!(tree_levels(&known, &root), Err(LevelsStop::NeedTree(h)) if h == "root"));
    known.learn(root.clone(), vec![sub("a", "a")]);
    assert!(matches!(tree_levels(&known, &root), Err(LevelsStop::NeedTree(h)) if h == "a"));
    known.learn("a".into(), vec![sub("b", "b")]);
    assert!(matches!(tree_levels(&known, &root), Err(LevelsStop::NeedTree(h)) if h == "b"));
    known.learn("b".into(), vec![]);
    assert_eq!(
        tree_levels(&known, &root).unwrap(),
        vec![vec!["b".to_string()], vec!["a".to_string()], vec!["root".to_string()]]
    );
    let mut looped = KnownTrees::new();
    looped.learn(root.clone(), vec![sub("a", "a")]);
    looped.learn("a".into(), vec![sub("up", "root"), sub("x", "x")]);
    assert!(matches!(tree_levels(&looped, &root), Err(LevelsStop::NeedTree(h)) if h == "x"));
    looped.learn("x".into(), vec![]);
    assert!(matches!(tree_levels(&looped, &root), Err(LevelsStop::Cyclic)));
}
