//! Aged bodies, unreachable objects, and the gauges that tell of them.

use scarab_server::cas_pass::{sweep_cas, CasAction, CasEvent, CasPass};
use scarab_server::mark::{MarkWalk, TreeRead, TreeTarget};
use scarab_server::metrics::{
    cas_gc_cold_residue, cas_gc_leader, cas_gc_tier_probe_failed, forge_status_failures,
    record_forge_status_failure, scrape, Metrics, TieredTotals,
};
use scarab_server::retention::{
    begin_cas_pass, snapshot_present, sweep_retention, warm_holds, GcConfig, RetentionAction,
    RetentionConfig, RetentionEvent, RootCheck, TierProbe,
};

const TTLS: RetentionConfig = RetentionConfig { log_ttl_ms: 100, artifact_ttl_ms: 300 };

#[test]
fn bodies_go_before_their_index() {
    let (mut p, a) = sweep_retention("me", "me", 1_000, TTLS);
    assert!(matches!(a, RetentionAction::ListRuns { artifacts: false, cutoff: 900 }));
    let a = p.step(RetentionEvent::Listed(Ok(vec!["r1".into()])));
    assert!(matches!(a, RetentionAction::ListKeys { artifacts: false, .. }));
    let a = p.step(RetentionEvent::Listed(Ok(vec!["k1".into(), "k2".into()])));
    assert!(matches!(a, RetentionAction::DeleteBlob { key } if key == "k1"));
    let a = p.step(RetentionEvent::Performed(Ok(())));
    assert!(matches!(a, RetentionAction::DeleteBlob { key } if key == "k2"));
    let a = p.step(RetentionEvent::Performed(Ok(())));
    assert!(matches!(a, RetentionAction::DropIndex { artifacts: false, run } if run == "r1"));
    let a = p.step(RetentionEvent::Performed(Ok(())));
    assert!(matches!(a, RetentionAction::ListRuns { artifacts: true, cutoff: 700 }));
    let a = p.step(RetentionEvent::Listed(Ok(vec!["r1".into(), "r2".into()])));
    assert!(matches!(a, RetentionAction::ListKeys { artifacts: true, run } if run == "r1"));
    p.step(RetentionEvent::Listed(Ok(vec![])));
    let a = p.step(RetentionEvent::Performed(Ok(())));
    assert!(matches!(a, RetentionAction::ListKeys { artifacts: true, run } if run == "r2"));
    p.step(RetentionEvent::Listed(Ok(vec![])));
    let a = p.step(RetentionEvent::Performed(Ok(())));
    // Two runs lost their artifacts; the one whose logs went is the one that is counted.
    assert!(matches!(a, RetentionAction::Done(Ok(1))));
}

#[test]
fn a_failed_deletion_keeps_the_index() {
    let (mut p, _) = sweep_retention("me", "me", 1_000, TTLS);
    p.step(RetentionEvent::Listed(Ok(vec!["r1".into()])));
    p.step(RetentionEvent::Listed(Ok(vec!["k1".into()])));
    match p.step(RetentionEvent::Performed(Err("denied".into()))) {
        RetentionAction::Done(Err(e)) => assert_eq!(e, "delete k1: denied"),
        other => panic!("{other:?}"),
    }
}

#[test]
fn only_the_lease_holder_sweeps() {
    let (_, a) = sweep_retention("me", "other", 1_000, TTLS);
    assert!(matches!(a, RetentionAction::Done(Ok(0))));
    let mut m = Metrics::new();
    assert!(!begin_cas_pass(&mut m, "me", "other"));
    assert_eq!(cas_gc_leader(&m), 0);
    assert!(begin_cas_pass(&mut m, "me", "me"));
    assert_eq!(cas_gc_leader(&m), 1);
}

#[test]
fn the_walk_marks_what_a_root_reaches() {
    let mut w = MarkWalk::new(vec![("root".into(), 5)]);
    assert_eq!(w.next_tree(), Some("root".to_string()));
    w.on_tree(TreeRead::Entries(vec![TreeTarget::Tree("sub".into()), TreeTarget::Blob("b1".into())]))
        .unwrap();
    assert_eq!(w.next_tree(), Some("sub".to_string()));
    w.on_tree(TreeRead::Entries(vec![TreeTarget::Blob("b2".into()), TreeTarget::Tree("root".into())]))
        .unwrap();
    assert_eq!(w.next_tree(), None);
    for key in ["trees/root", "trees/sub", "blobs/b1", "blobs/b2"] {
        assert!(w.is_marked(&key.to_string()), "{key}");
    }
    assert!(!w.is_marked(&"blobs/b3".to_string()));
}

#[test]
fn dangling_roots_are_listed_once_in_the_order_of_the_reads() {
    let mut w = MarkWalk::new(vec![("a".into(), 1), ("late".into(), 2), ("early".into(), 3), ("late".into(), 4)]);
    assert_eq!(w.next_tree(), Some("a".to_string()));
    w.on_tree(TreeRead::Entries(vec![TreeTarget::Tree("torn".into()), TreeTarget::Tree("early".into())])).unwrap();
    while let Some(_) = w.next_tree() {
        w.on_tree(TreeRead::NotFound).unwrap();
    }
    assert_eq!(w.dangling_roots, vec!["early".to_string(), "late".to_string()]);
    assert_eq!(
        w.walk_missing,
        vec!["trees/early".to_string(), "trees/torn".to_string(), "trees/late".to_string()]
    );
}

#[test]
fn residue_is_split_by_the_age_of_its_root() {
    let mut m = Metrics::new();
    let (mut pass, mut action) = sweep_cas(
        vec![("old".into(), 5), ("new".into(), 9_500)],
        10_000,
        GcConfig { workspace_ttl_ms: 0, grace_ms: 1_000 },
    );
    let report = loop {
        let event = match action {
            CasAction::ReadTree { ref hash } if hash == "old" => {
                CasEvent::Tree(TreeRead::Entries(vec![TreeTarget::Blob("b".into()), TreeTarget::Blob("a".into())]))
            }
            CasAction::ReadTree { .. } => {
                CasEvent::Tree(TreeRead::Entries(vec![TreeTarget::Blob("c".into()), TreeTarget::Blob("b".into())]))
            }
            CasAction::ListObjects { prefix: "trees/" } => CasEvent::Listed(Ok(vec![("trees/old".into(), 0)])),
            CasAction::ListObjects { .. } => CasEvent::Listed(Ok(vec![])),
            CasAction::ProbeTier => CasEvent::Tier(TierProbe::NoDepot),
            CasAction::Done(r) => break r.unwrap(),
            _ => panic!("nothing is forgotten or deleted"),
        };
        let (next, asked) = pass.step(event, &mut m);
        pass = next;
        action = asked;
    };
    let alarmed: Vec<&str> = report.residue.iter().map(|r| r.key.as_str()).collect();
    let quiet: Vec<&str> = report.suppressed_residue.iter().map(|r| r.key.as_str()).collect();
    assert_eq!(alarmed, vec!["blobs/a", "blobs/b"]);
    assert_eq!(quiet, vec!["blobs/c", "trees/new"]);
    assert_eq!(cas_gc_cold_residue(&m), 2);
}

fn swept(probe: TierProbe) -> (Vec<String>, CasAction, Metrics) {
    let mut m = Metrics::new();
    let (mut pass, mut action): (CasPass, CasAction) =
        sweep_cas(vec![("root".into(), 5), ("gone".into(), 6)], 10_000, GcConfig { workspace_ttl_ms: 0, grace_ms: 1_000 });
    let mut deleted: Vec<String> = Vec::new();
    loop {
        let event = match action {
            CasAction::ReadTree { ref hash } if hash == "root" => {
                CasEvent::Tree(TreeRead::Entries(vec![TreeTarget::Blob("kept".into()), TreeTarget::Blob("warm".into())]))
            }
            CasAction::ReadTree { .. } => CasEvent::Tree(TreeRead::NotFound),
            CasAction::ForgetRoot { ref root } => {
                assert_eq!(root, "gone");
                CasEvent::Forgot
            }
            CasAction::ListObjects { prefix: "trees/" } => CasEvent::Listed(Ok(vec![("trees/root".into(), 0)])),
            CasAction::ListObjects { .. } => CasEvent::Listed(Ok(vec![
                ("blobs/kept".into(), 0),
                ("blobs/old".into(), 0),
                ("blobs/young".into(), 9_500),
            ])),
            CasAction::DeleteObject { ref key } => {
                deleted.push(key.clone());
                CasEvent::Deleted(true)
            }
            CasAction::ProbeTier => CasEvent::Tier(match probe {
                TierProbe::NoDepot => TierProbe::NoDepot,
                TierProbe::Failed => TierProbe::Failed,
                TierProbe::Answered(ref t) => TierProbe::Answered(t.clone()),
            }),
            CasAction::Done(_) => return (deleted, action, m),
        };
        let (next, asked) = pass.step(event, &mut m);
        pass = next;
        action = asked;
    }
}

#[test]
fn only_old_unreachable_objects_are_deleted() {
    let (deleted, done, m) = swept(TierProbe::Answered("tiered".into()));
    assert_eq!(deleted, vec!["blobs/old".to_string()]);
    match done {
        CasAction::Done(Ok(report)) => {
            assert_eq!(report.swept, 1);
            let keys: Vec<&str> = report.residue.iter().map(|r| r.key.as_str()).collect();
            assert_eq!(keys, vec!["blobs/warm"]);
            assert_eq!(report.residue[0].root, "root");
        }
        _ => panic!("the pass failed"),
    }
    assert_eq!(cas_gc_cold_residue(&m), 1);
    assert_eq!(cas_gc_tier_probe_failed(&m), 0);
}

#[test]
fn a_warm_only_depot_has_no_cold_residue() {
    let (_, done, m) = swept(TierProbe::Answered("warm-only".into()));
    assert!(matches!(done, CasAction::Done(Ok(r)) if r.residue.is_empty()));
    assert_eq!(cas_gc_cold_residue(&m), 0);
    let (_, _, m) = swept(TierProbe::Failed);
    assert_eq!(cas_gc_tier_probe_failed(&m), 1);
}

#[test]
fn an_unreadable_walk_deletes_nothing() {
    let mut m = Metrics::new();
    let (pass, action) =
        sweep_cas(vec![("root".into(), 5)], 10_000, GcConfig { workspace_ttl_ms: 0, grace_ms: 1_000 });
    assert!(matches!(action, CasAction::ReadTree { .. }));
    let (_, action) = pass.step(CasEvent::Tree(TreeRead::Failed("timeout".into())), &mut m);
    assert!(matches!(action, CasAction::Done(Err(_))));
}

#[test]
fn a_root_is_gone_only_when_the_store_says_so() {
    assert!(snapshot_present(RootCheck::Present));
    assert!(snapshot_present(RootCheck::Failed));
    assert!(!snapshot_present(RootCheck::NotFound));
    assert!(warm_holds("blobs/x", true));
    assert!(!warm_holds("blobs/x", false));
}

#[test]
fn the_scrape_shows_every_count() {
    let mut m = Metrics::new();
    record_forge_status_failure(&mut m);
    assert_eq!(forge_status_failures(&m), 1);
    let t = TieredTotals { warm_write_failed: 2, cold_fallback: 3, warm_read_failed: 4 };
    let body = scrape(&vec![("running".into(), 5)], 6, &m, &t);
    assert!(body.contains("scarab_runs{status=\"running\"} 5\n"), "{body}");
    assert!(body.contains("scarab_outbox_depth 6\n"), "{body}");
    assert!(body.contains("scarab_forge_status_failures_total 1\n"), "{body}");
}
